use vstd::prelude::*;
use crate::decimal::{
    decimal_of, lemma_lt_after_le, lemma_lt_asymmetric, lemma_lt_irreflexive, parse_loose_decimal,
    value_lt, version_less, LooseDecimal,
};
use vstd::string::StringExecFns;

verus! {

/// The file paths registered under one locale of a library version, by platform.
#[derive(Clone, Debug)]
pub struct PlatformPaths {
    pub win64: Option<String>,
    pub win32: Option<String>,
    pub win16: Option<String>,
}

/// One version key of a library: its name, the display name stored as its
/// default value (if any), and its locale keys in enumeration order.
#[derive(Clone, Debug)]
pub struct VersionEntry {
    pub version: String,
    pub display: Option<String>,
    pub locales: Vec<PlatformPaths>,
}

/// One GUID key of the library catalog with its version keys in enumeration order.
#[derive(Clone, Debug)]
pub struct GuidEntry {
    pub guid: String,
    pub versions: Vec<VersionEntry>,
}

/// A snapshot of the catalog's library section, in enumeration order.
#[derive(Clone, Debug)]
pub struct Catalog {
    pub libraries: Vec<GuidEntry>,
}

/// The path of the first platform present, in the order 64-bit, 32-bit, 16-bit.
pub open spec fn platform_path(p: PlatformPaths) -> Option<String> {
    if p.win64 is Some {
        p.win64
    } else if p.win32 is Some {
        p.win32
    } else {
        p.win16
    }
}

/// The file registered for a version entry: that of its first locale key.
pub open spec fn version_path(v: VersionEntry) -> Option<String> {
    if v.locales@.len() == 0 {
        None
    } else {
        platform_path(v.locales@[0])
    }
}

/// The first locale key, from index `i` on, that has a path.
pub open spec fn first_locale_path(ls: Seq<PlatformPaths>, i: int) -> Option<String>
    decreases ls.len() - i,
{
    if i < 0 || i >= ls.len() {
        None
    } else if platform_path(ls[i]) is Some {
        platform_path(ls[i])
    } else {
        first_locale_path(ls, i + 1)
    }
}

pub open spec fn displays(v: VersionEntry, name: Seq<char>) -> bool {
    &&& v.display is Some
    &&& v.display->0@ == name
}

/// The pairs (library index, version index) of the first `n` versions of
/// library `g` whose display name is `name`.
pub open spec fn version_matches(vs: Seq<VersionEntry>, name: Seq<char>, g: int, n: int) -> Seq<(usize, usize)>
    decreases n,
{
    if n <= 0 {
        Seq::empty()
    } else {
        let prev = version_matches(vs, name, g, n - 1);
        if displays(vs[n - 1], name) {
            prev.push((g as usize, (n - 1) as usize))
        } else {
            prev
        }
    }
}

/// The pairs (library index, version index), in enumeration order, of the
/// first `n` libraries' versions whose display name is `name`.
pub open spec fn catalog_matches(libs: Seq<GuidEntry>, name: Seq<char>, n: int) -> Seq<(usize, usize)>
    decreases n,
{
    if n <= 0 {
        Seq::empty()
    } else {
        catalog_matches(libs, name, n - 1) + version_matches(libs[n - 1].versions@, name, n - 1, libs[n - 1].versions@.len() as int)
    }
}

pub fn reg_get_typelib_file_path(p: &PlatformPaths) -> (r: Option<String>)
    ensures
        r == platform_path(*p),
{
    if let Some(path) = &p.win64 {
        return Some(path.clone());
    }
    if let Some(path) = &p.win32 {
        return Some(path.clone());
    }
    match &p.win16 {
        Some(path) => Some(path.clone()),
        None => None,
    }
}

pub fn version_entry_path(v: &VersionEntry) -> (r: Option<String>)
    ensures
        r == version_path(*v),
{
    if v.locales.len() == 0 {
        None
    } else {
        reg_get_typelib_file_path(&v.locales[0])
    }
}

/// Whether `a` holds the text `b`.
fn same_text(a: &String, b: &str) -> (r: bool)
    ensures
        r == (a@ == b@),
{
    let owned = b.to_owned();
    *a == owned
}


/// Index of the first library whose GUID key reads `guid`.
pub fn find_guid(cat: &Catalog, guid: &str) -> (r: Option<usize>)
    ensures
        match r {
            Some(i) => i < cat.libraries@.len() && cat.libraries@[i as int].guid@ == guid@
                && forall|j: int| 0 <= j < i ==> cat.libraries@[j].guid@ != guid@,
            None => forall|j: int| 0 <= j < cat.libraries@.len() ==> cat.libraries@[j].guid@ != guid@,
        },
{
    let mut i: usize = 0;
    while i < cat.libraries.len()
        invariant
            i <= cat.libraries@.len(),
            forall|j: int| 0 <= j < i ==> cat.libraries@[j].guid@ != guid@,
        decreases cat.libraries@.len() - i,
    {
        if same_text(&cat.libraries[i].guid, guid) {
            return Some(i);
        }
        i = i + 1;
    }
    None
}

/// Index of the first version key of `lib` that reads `version`.
pub fn find_version(lib: &GuidEntry, version: &str) -> (r: Option<usize>)
    ensures
        match r {
            Some(i) => i < lib.versions@.len() && lib.versions@[i as int].version@ == version@
                && forall|j: int| 0 <= j < i ==> lib.versions@[j].version@ != version@,
            None => forall|j: int| 0 <= j < lib.versions@.len() ==> lib.versions@[j].version@ != version@,
        },
{
    let mut i: usize = 0;
    while i < lib.versions.len()
        invariant
            i <= lib.versions@.len(),
            forall|j: int| 0 <= j < i ==> lib.versions@[j].version@ != version@,
        decreases lib.versions@.len() - i,
    {
        if same_text(&lib.versions[i].version, version) {
            return Some(i);
        }
        i = i + 1;
    }
    None
}

/// The file registered for `guid` at `version`: the path of the first locale
/// key of that entry, by platform preference.
pub fn oletypelib_path(cat: &Catalog, guid: &str, version: &str) -> (r: Option<String>)
    ensures
        forall|g: int, v: int| is_first_guid(cat.libraries@, guid@, g)
            && is_first_version(cat.libraries@[g].versions@, version@, v)
            ==> r == version_path(cat.libraries@[g].versions@[v]),
        (forall|g: int, v: int| !(is_first_guid(cat.libraries@, guid@, g)
            && is_first_version(cat.libraries@[g].versions@, version@, v))) ==> r is None,
{
    match find_guid(cat, guid) {
        None => None,
        Some(g) => match find_version(&cat.libraries[g], version) {
            None => None,
            Some(v) => {
                assert(is_first_guid(cat.libraries@, guid@, g as int));
                assert(is_first_version(cat.libraries@[g as int].versions@, version@, v as int));
                version_entry_path(&cat.libraries[g].versions[v])
            },
        },
    }
}

/// Every (library, version) whose display name is `name`, in enumeration
/// order: the candidates of a search by registered name.
pub fn oletypelib_search_registry(cat: &Catalog, name: &str) -> (r: Vec<(usize, usize)>)
    ensures
        r@ == catalog_matches(cat.libraries@, name@, cat.libraries@.len() as int),
        forall|k: int| 0 <= k < r@.len() ==> (r@[k].0 as int) < cat.libraries@.len()
            && (r@[k].1 as int) < cat.libraries@[r@[k].0 as int].versions@.len(),
{
    let mut r: Vec<(usize, usize)> = Vec::new();
    let mut g: usize = 0;
    while g < cat.libraries.len()
        invariant
            g <= cat.libraries@.len(),
            r@ == catalog_matches(cat.libraries@, name@, g as int),
            forall|k: int| 0 <= k < r@.len() ==> (r@[k].0 as int) < cat.libraries@.len()
                && (r@[k].1 as int) < cat.libraries@[r@[k].0 as int].versions@.len(),
        decreases cat.libraries@.len() - g,
    {
        let vs = &cat.libraries[g].versions;
        let ghost before = r@;
        let mut v: usize = 0;
        while v < vs.len()
            invariant
                g < cat.libraries@.len(),
                vs == cat.libraries@[g as int].versions,
                v <= vs@.len(),
                r@ == before + version_matches(vs@, name@, g as int, v as int),
                forall|k: int| 0 <= k < r@.len() ==> (r@[k].0 as int) < cat.libraries@.len()
                    && (r@[k].1 as int) < cat.libraries@[r@[k].0 as int].versions@.len(),
            decreases vs@.len() - v,
        {
            let hit = match &vs[v].display {
                Some(d) => same_text(d, name),
                None => false,
            };
            if hit {
                r.push((g, v));
            }
            assert(r@ == before + version_matches(vs@, name@, g as int, v + 1));
            v = v + 1;
        }
        g = g + 1;
    }
    r
}


/// The registry text of a version: `major`, or `major.minor` where a minor
/// part is given; none without a major part.
pub open spec fn version_text(major: Seq<char>, minor: Seq<char>) -> Option<Seq<char>> {
    if major.len() == 0 {
        None
    } else if minor.len() == 0 {
        Some(major)
    } else {
        Some(major + seq!['.'] + minor)
    }
}

pub fn make_version_str(major: &str, minor: &str) -> (r: Option<String>)
    ensures
        match r {
            Some(t) => version_text(major@, minor@) == Some(t@),
            None => version_text(major@, minor@) is None,
        },
{
    if major.is_empty() {
        return None;
    }
    let mut text = String::from_str(major);
    if !minor.is_empty() {
        text.append(".");
        text.append(minor);
        proof {
            reveal_strlit(".");
            assert(text@ == major@ + seq!['.'] + minor@);
        }
    }
    Some(text)
}

/// A version entry that names a library: its display name is present and not empty.
pub open spec fn eligible(v: VersionEntry) -> bool {
    &&& v.display is Some
    &&& v.display->0@.len() > 0
}

pub open spec fn version_decimal(v: VersionEntry) -> LooseDecimal {
    decimal_of(v.version@)
}

/// `i` is the eligible entry of `vs` with the largest version number, the first among equals.
pub open spec fn is_latest(vs: Seq<VersionEntry>, i: int) -> bool {
    &&& 0 <= i < vs.len()
    &&& eligible(vs[i])
    &&& forall|j: int| 0 <= j < vs.len() && eligible(vs[j]) ==> !value_lt(version_decimal(vs[i]), version_decimal(vs[j]))
    &&& forall|j: int| 0 <= j < i && eligible(vs[j]) ==> value_lt(version_decimal(vs[j]), version_decimal(vs[i]))
}

/// The eligible entry with the numerically largest version, ties going to the first seen.
pub fn select_latest(vs: &Vec<VersionEntry>) -> (r: Option<usize>)
    ensures
        match r {
            Some(i) => is_latest(vs@, i as int),
            None => forall|j: int| 0 <= j < vs@.len() ==> !eligible(vs@[j]),
        },
{
    let mut best: Option<usize> = None;
    let mut best_val = LooseDecimal { mantissa: 0, exponent: 0 };
    let mut k: usize = 0;
    while k < vs.len()
        invariant
            k <= vs@.len(),
            best is None ==> forall|j: int| 0 <= j < k ==> !eligible(vs@[j]),
            best matches Some(b) ==> {
                &&& b < k
                &&& eligible(vs@[b as int])
                &&& best_val == version_decimal(vs@[b as int])
                &&& best_val.wf()
                &&& forall|j: int| 0 <= j < k && eligible(vs@[j]) ==> !value_lt(best_val, version_decimal(vs@[j]))
                &&& forall|j: int| 0 <= j < b && eligible(vs@[j]) ==> value_lt(version_decimal(vs@[j]), best_val)
            },
        decreases vs@.len() - k,
    {
        let ok = match &vs[k].display {
            Some(d) => !d.as_str().is_empty(),
            None => false,
        };
        if ok {
            let cur = parse_loose_decimal(vs[k].version.as_str());
            let take = match best {
                None => true,
                Some(_) => version_less(&best_val, &cur),
            };
            if take {
                proof {
                    lemma_lt_irreflexive(cur);
                    assert forall|j: int| 0 <= j < k && eligible(vs@[j]) implies value_lt(version_decimal(vs@[j]), cur)
                        && !value_lt(cur, version_decimal(vs@[j])) by {
                        lemma_lt_after_le(version_decimal(vs@[j]), best_val, cur);
                        lemma_lt_asymmetric(version_decimal(vs@[j]), cur);
                    }
                }
                best = Some(k);
                best_val = cur;
            }
        }
        k = k + 1;
    }
    best
}

/// `g` is the first library whose GUID key reads `guid`.
pub open spec fn is_first_guid(libs: Seq<GuidEntry>, guid: Seq<char>, g: int) -> bool {
    &&& 0 <= g < libs.len()
    &&& libs[g].guid@ == guid
    &&& forall|h: int| 0 <= h < g ==> libs[h].guid@ != guid
}

/// `v` is the first version key of `vs` that reads `text`.
pub open spec fn is_first_version(vs: Seq<VersionEntry>, text: Seq<char>, v: int) -> bool {
    &&& 0 <= v < vs.len()
    &&& vs[v].version@ == text
    &&& forall|w: int| 0 <= w < v ==> vs[w].version@ != text
}

/// The version that a search by GUID picks within library `lib`: the exact
/// version text where one is given, else the latest.
pub open spec fn picks_version(lib: GuidEntry, major: Seq<char>, minor: Seq<char>, v: int) -> bool {
    match version_text(major, minor) {
        Some(t) => is_first_version(lib.versions@, t, v) && eligible(lib.versions@[v]),
        None => is_latest(lib.versions@, v),
    }
}

/// Search by GUID: the library keyed `guid`, at version `major.minor` where
/// one is given, else at its numerically largest version.
pub fn oletypelib_search_registry2(cat: &Catalog, guid: &str, major: &str, minor: &str) -> (r: Option<(usize, usize)>)
    ensures
        match r {
            Some((g, v)) => is_first_guid(cat.libraries@, guid@, g as int)
                && picks_version(cat.libraries@[g as int], major@, minor@, v as int),
            None => forall|g: int, v: int| is_first_guid(cat.libraries@, guid@, g)
                ==> !picks_version(cat.libraries@[g], major@, minor@, v),
        },
{
    let g = match find_guid(cat, guid) {
        Some(g) => g,
        None => return None,
    };
    let lib = &cat.libraries[g];
    match make_version_str(major, minor) {
        Some(text) => {
            match find_version(lib, text.as_str()) {
                Some(v) => {
                    let ok = match &lib.versions[v].display {
                        Some(d) => !d.as_str().is_empty(),
                        None => false,
                    };
                    if ok {
                        Some((g, v))
                    } else {
                        None
                    }
                },
                None => None,
            }
        },
        None => match select_latest(&lib.versions) {
            Some(v) => Some((g, v)),
            None => None,
        },
    }
}

/// The path of the first locale key of `v` that has one.
pub fn first_locale_file(v: &VersionEntry) -> (r: Option<String>)
    ensures
        r == first_locale_path(v.locales@, 0),
{
    let mut i: usize = 0;
    while i < v.locales.len()
        invariant
            i <= v.locales@.len(),
            first_locale_path(v.locales@, 0) == first_locale_path(v.locales@, i as int),
        decreases v.locales@.len() - i,
    {
        let found = reg_get_typelib_file_path(&v.locales[i]);
        if found.is_some() {
            return found;
        }
        i = i + 1;
    }
    None
}

/// Version `v` of library `g` is displayed as `name` and has a file.
pub open spec fn names_file(libs: Seq<GuidEntry>, name: Seq<char>, g: int, v: int) -> bool {
    &&& 0 <= g < libs.len()
    &&& 0 <= v < libs[g].versions@.len()
    &&& displays(libs[g].versions@[v], name)
    &&& first_locale_path(libs[g].versions@[v].locales@, 0) is Some
}

/// Search of the catalog for a class by its display name: the file of the
/// first version entry, in enumeration order, displayed as `name` that has one.
pub fn typelib_file_from_typelib(cat: &Catalog, name: &str) -> (r: Option<String>)
    ensures
        match r {
            Some(path) => exists|g: int, v: int| names_file(cat.libraries@, name@, g, v)
                && Some(path) == first_locale_path(cat.libraries@[g].versions@[v].locales@, 0)
                && forall|h: int, w: int| (h < g || (h == g && w < v)) ==> !names_file(cat.libraries@, name@, h, w),
            None => forall|g: int, v: int| !names_file(cat.libraries@, name@, g, v),
        },
{
    let mut g: usize = 0;
    while g < cat.libraries.len()
        invariant
            g <= cat.libraries@.len(),
            forall|h: int, w: int| h < g ==> !names_file(cat.libraries@, name@, h, w),
        decreases cat.libraries@.len() - g,
    {
        let vs = &cat.libraries[g].versions;
        let mut v: usize = 0;
        while v < vs.len()
            invariant
                g < cat.libraries@.len(),
                vs == cat.libraries@[g as int].versions,
                v <= vs@.len(),
                forall|h: int, w: int| h < g ==> !names_file(cat.libraries@, name@, h, w),
                forall|w: int| w < v ==> !names_file(cat.libraries@, name@, g as int, w),
            decreases vs@.len() - v,
        {
            let hit = match &vs[v].display {
                Some(d) => same_text(d, name),
                None => false,
            };
            if hit {
                let file = first_locale_file(&vs[v]);
                if file.is_some() {
                    assert(names_file(cat.libraries@, name@, g as int, v as int));
                    return file;
                }
            }
            v = v + 1;
        }
        g = g + 1;
    }
    None
}

/// The class section's entry for one class identifier: whether it has an
/// in-process server key, that key's default value, and the value of that
/// name stored on the class key itself.
#[derive(Clone, Debug)]
pub struct ClassEntry {
    pub clsid: String,
    pub has_server_key: bool,
    pub server_key_value: Option<String>,
    pub server_value: Option<String>,
}

/// The server path of a class: the default value of its server key where
/// that key exists, else the value of that name on the class key.
pub open spec fn server_path(c: ClassEntry) -> Option<String> {
    if c.has_server_key {
        c.server_key_value
    } else {
        c.server_value
    }
}

/// Where the file that backs a class or program identifier was found.
#[derive(Clone, Debug)]
pub enum TypeLibFile {
    /// A server path from the class section, still holding any environment references.
    Server(String),
    /// A file registered in the library catalog.
    Registered(String),
}

pub fn typelib_file_from_clsid(classes: &Vec<ClassEntry>, ole: &str) -> (r: Option<String>)
    ensures
        match r {
            Some(path) => exists|i: int| 0 <= i < classes@.len() && classes@[i].clsid@ == ole@
                && (forall|j: int| 0 <= j < i ==> classes@[j].clsid@ != ole@)
                && server_path(classes@[i]) == Some(path),
            None => forall|i: int| 0 <= i < classes@.len() && classes@[i].clsid@ == ole@
                && (forall|j: int| 0 <= j < i ==> classes@[j].clsid@ != ole@)
                ==> server_path(classes@[i]) is None,
        },
{
    let mut i: usize = 0;
    while i < classes.len()
        invariant
            i <= classes@.len(),
            forall|j: int| 0 <= j < i ==> classes@[j].clsid@ != ole@,
        decreases classes@.len() - i,
    {
        let c = &classes[i];
        if same_text(&c.clsid, ole) {
            let found = if c.has_server_key {
                c.server_key_value.clone()
            } else {
                c.server_value.clone()
            };
            return match found {
                Some(p) => Some(p),
                None => None,
            };
        }
        i = i + 1;
    }
    None
}

/// The file backing a class or program identifier: the class's server path,
/// else the file of a catalog entry displayed as `ole`.
pub fn typelib_file(classes: &Vec<ClassEntry>, cat: &Catalog, ole: &str) -> (r: Option<TypeLibFile>)
    ensures
        match r {
            Some(TypeLibFile::Server(p)) => exists|i: int| 0 <= i < classes@.len() && classes@[i].clsid@ == ole@
                && (forall|j: int| 0 <= j < i ==> classes@[j].clsid@ != ole@)
                && server_path(classes@[i]) == Some(p),
            Some(TypeLibFile::Registered(p)) => exists|g: int, v: int| names_file(cat.libraries@, ole@, g, v)
                && Some(p) == first_locale_path(cat.libraries@[g].versions@[v].locales@, 0)
                && forall|h: int, w: int| (h < g || (h == g && w < v)) ==> !names_file(cat.libraries@, ole@, h, w),
            None => forall|g: int, v: int| !names_file(cat.libraries@, ole@, g, v),
        },
        (exists|i: int| 0 <= i < classes@.len() && classes@[i].clsid@ == ole@
            && (forall|j: int| 0 <= j < i ==> classes@[j].clsid@ != ole@)
            && server_path(classes@[i]) is Some) ==> r matches Some(TypeLibFile::Server(_)),
{
    match typelib_file_from_clsid(classes, ole) {
        Some(p) => Some(TypeLibFile::Server(p)),
        None => match typelib_file_from_typelib(cat, ole) {
            Some(p) => Some(TypeLibFile::Registered(p)),
            None => None,
        },
    }
}

} // verus!
