use vstd::prelude::*;
use crate::error::Error;
use vstd::string::StringExecFns;

verus! {

/// Library flag: the library is restricted.
pub const LIBFLAG_FRESTRICTED: u16 = 1;

/// Library flag: the library describes controls.
pub const LIBFLAG_FCONTROL: u16 = 2;

/// Library flag: the library is hidden.
pub const LIBFLAG_FHIDDEN: u16 = 4;

/// A 128-bit globally unique identifier.
#[derive(Clone, Copy, Debug, PartialEq, Eq, Structural)]
pub struct Guid {
    pub data1: u32,
    pub data2: u16,
    pub data3: u16,
    pub data4: u64,
}

/// The attribute block of a loaded library.
#[derive(Clone, Copy, Debug, PartialEq, Eq, Structural)]
pub struct LibAttr {
    pub guid: Guid,
    pub major_version: u16,
    pub minor_version: u16,
    pub flags: u16,
}

/// Whether flags report a library as visible: no flag at all, or the
/// restricted or the hidden flag among them.
pub open spec fn flags_visible(flags: u16) -> bool {
    flags == 0 || flags & LIBFLAG_FRESTRICTED != 0 || flags & LIBFLAG_FHIDDEN != 0
}

pub fn lib_flags_visible(flags: u16) -> (r: bool)
    ensures
        r == flags_visible(flags),
{
    flags == 0 || flags & LIBFLAG_FRESTRICTED != 0 || flags & LIBFLAG_FHIDDEN != 0
}

/// A loaded library as the resolver hands it out: its attributes, read once,
/// and its friendly name (empty where none could be found).
#[derive(Clone, Debug)]
pub struct LibraryHandle {
    attr: LibAttr,
    name: String,
}

impl LibraryHandle {
    pub closed spec fn spec_attr(&self) -> LibAttr {
        self.attr
    }

    pub closed spec fn spec_name(&self) -> Seq<char> {
        self.name@
    }

    pub fn new(attr: LibAttr, name: String) -> (r: LibraryHandle)
        ensures
            r.spec_attr() == attr,
            r.spec_name() == name@,
    {
        LibraryHandle { attr, name }
    }

    pub fn identifier(&self) -> (r: Guid)
        ensures
            r == self.spec_attr().guid,
    {
        self.attr.guid
    }

    pub fn major_version(&self) -> (r: u16)
        ensures
            r == self.spec_attr().major_version,
    {
        self.attr.major_version
    }

    pub fn minor_version(&self) -> (r: u16)
        ensures
            r == self.spec_attr().minor_version,
    {
        self.attr.minor_version
    }

    pub fn name(&self) -> (r: &str)
        ensures
            r@ == self.spec_name(),
    {
        self.name.as_str()
    }

    pub fn visible(&self) -> (r: bool)
        ensures
            r == flags_visible(self.spec_attr().flags),
    {
        lib_flags_visible(self.attr.flags)
    }
}

/// Accepts a library loaded for `guid` at `major.minor` only when its
/// attributes are that identifier and version; `identifier` names the
/// request in the failure.
pub fn resolve_by_guid_version(
    identifier: &str,
    guid: Guid,
    major: u16,
    minor: u16,
    loaded: LibAttr,
    name: String,
) -> (r: Result<LibraryHandle, Error>)
    ensures
        match r {
            Ok(h) => h.spec_attr() == loaded && h.spec_name() == name@
                && h.spec_attr().guid == guid && h.spec_attr().major_version == major
                && h.spec_attr().minor_version == minor,
            Err(e) => e matches Error::NotFound { identifier: i, detail: _ } && i@ == identifier@,
        },
        r is Ok <==> (loaded.guid == guid && loaded.major_version == major && loaded.minor_version == minor),
{
    if loaded.guid == guid && loaded.major_version == major && loaded.minor_version == minor {
        Ok(LibraryHandle::new(loaded, name))
    } else {
        Err(Error::NotFound {
            identifier: identifier.to_owned(),
            detail: String::from_str("the loaded library has another identifier or version"),
        })
    }
}

} // verus!
