use vstd::prelude::*;
use crate::catalog::{
    catalog_matches, is_first_guid, is_latest, oletypelib_search_registry,
    oletypelib_search_registry2, version_decimal, version_entry_path, version_path, Catalog,
    GuidEntry,
};
use crate::decimal::value_lt;
use crate::typedesc::texts;

verus! {

/// Files of the first `k` candidates (library index, version index), in
/// order, skipping those without a registered file.
pub open spec fn candidate_files(libs: Seq<GuidEntry>, cands: Seq<(usize, usize)>, k: int) -> Seq<Seq<char>>
    decreases k,
{
    if k <= 0 {
        Seq::empty()
    } else {
        let prev = candidate_files(libs, cands, k - 1);
        let path = version_path(libs[cands[k - 1].0 as int].versions@[cands[k - 1].1 as int]);
        if path is Some {
            prev.push(path->0@)
        } else {
            prev
        }
    }
}

/// Files of the versions displayed as `name`, in enumeration order.
pub open spec fn name_files(libs: Seq<GuidEntry>, name: Seq<char>) -> Seq<Seq<char>> {
    let cands = catalog_matches(libs, name, libs.len() as int);
    candidate_files(libs, cands, cands.len() as int)
}

/// Version `v` of library `g` is what a search for `id` as a GUID picks.
pub open spec fn picked_by_guid(libs: Seq<GuidEntry>, id: Seq<char>, g: int, v: int) -> bool {
    is_first_guid(libs, id, g) && is_latest(libs[g].versions@, v)
}

proof fn lemma_latest_unique(vs: Seq<crate::catalog::VersionEntry>, i: int, j: int)
    requires
        is_latest(vs, i),
        is_latest(vs, j),
    ensures
        i == j,
{
    if i < j {
        assert(value_lt(version_decimal(vs[i]), version_decimal(vs[j])));
    } else if j < i {
        assert(value_lt(version_decimal(vs[j]), version_decimal(vs[i])));
    }
}

/// The files to try loading for `identifier`, in order: those registered
/// under that display name, then that of the latest version registered under
/// it as a GUID, then the identifier itself as a path.
pub fn resolution_plan(cat: &Catalog, identifier: &str) -> (r: Vec<String>)
    ensures
        (exists|g: int, v: int| picked_by_guid(cat.libraries@, identifier@, g, v)
            && version_path(cat.libraries@[g].versions@[v]) is Some) ==> exists|g: int, v: int|
            picked_by_guid(cat.libraries@, identifier@, g, v)
            && (version_path(cat.libraries@[g].versions@[v]) matches Some(p)
            && texts(r@) == name_files(cat.libraries@, identifier@) + seq![p@, identifier@]),
        !(exists|g: int, v: int| picked_by_guid(cat.libraries@, identifier@, g, v)
            && version_path(cat.libraries@[g].versions@[v]) is Some) ==> texts(r@)
            == name_files(cat.libraries@, identifier@) + seq![identifier@],
{
    let cands = oletypelib_search_registry(cat, identifier);
    let mut r: Vec<String> = Vec::new();
    let mut k: usize = 0;
    while k < cands.len()
        invariant
            k <= cands@.len(),
            cands@ == catalog_matches(cat.libraries@, identifier@, cat.libraries@.len() as int),
            forall|j: int| 0 <= j < cands@.len() ==> (cands@[j].0 as int) < cat.libraries@.len()
                && (cands@[j].1 as int) < cat.libraries@[cands@[j].0 as int].versions@.len(),
            texts(r@) == candidate_files(cat.libraries@, cands@, k as int),
        decreases cands@.len() - k,
    {
        let (g, v) = cands[k];
        if let Some(path) = version_entry_path(&cat.libraries[g].versions[v]) {
            let ghost old_r = r@;
            r.push(path);
            assert(texts(r@) =~= texts(old_r).push(path@));
        }
        k = k + 1;
    }
    proof {
        reveal_strlit("");
    }
    match oletypelib_search_registry2(cat, identifier, "", "") {
        Some((g, v)) => {
            proof {
                assert forall|h: int, w: int| picked_by_guid(cat.libraries@, identifier@, h, w)
                    implies h == g && w == v by {
                    lemma_latest_unique(cat.libraries@[g as int].versions@, w, v as int);
                }
            }
            if let Some(path) = version_entry_path(&cat.libraries[g].versions[v]) {
                let ghost old_r = r@;
                r.push(path);
                assert(texts(r@) =~= texts(old_r).push(path@));
                assert(picked_by_guid(cat.libraries@, identifier@, g as int, v as int));
            }
        },
        None => {
            assert forall|h: int, w: int| !picked_by_guid(cat.libraries@, identifier@, h, w) by {
                if picked_by_guid(cat.libraries@, identifier@, h, w) {
                    assert(crate::catalog::picks_version(cat.libraries@[h], ""@, ""@, w));
                }
            }
        },
    }
    let ghost mid = texts(r@);
    r.push(identifier.to_owned());
    assert(texts(r@) =~= mid.push(identifier@));
    r
}

} // verus!
