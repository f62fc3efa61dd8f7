use vstd::prelude::*;
use vstd::string::StringExecFns;

verus! {

/// Failures of resolution and of reading a library's attributes.
#[derive(Clone, Debug)]
pub enum Error {
    /// No catalog entry, no file, or a file that the loader rejected.
    NotFound { identifier: String, detail: String },
    /// The loader rejected a file that was located.
    LoadFailed { path: String, detail: String },
    /// A library's attribute block could not be read.
    AttributeUnavailable { detail: String },
}

/// `": detail"`, or nothing for an empty detail.
pub open spec fn detail_suffix(detail: Seq<char>) -> Seq<char> {
    if detail.len() == 0 {
        Seq::empty()
    } else {
        ": "@ + detail
    }
}

pub open spec fn error_message(e: Error) -> Seq<char> {
    match e {
        Error::NotFound { identifier, detail } => "type library `"@ + identifier@ + "` not found"@
            + detail_suffix(detail@),
        Error::LoadFailed { path, detail } => "failed to load type library `"@ + path@ + "`"@
            + detail_suffix(detail@),
        Error::AttributeUnavailable { detail } => "library attributes unavailable"@ + detail_suffix(
            detail@,
        ),
    }
}

/// `needle` occurs in `hay` as a contiguous run.
pub open spec fn contains_text(hay: Seq<char>, needle: Seq<char>) -> bool {
    exists|k: int| 0 <= k && k + needle.len() <= hay.len() && #[trigger] hay.subrange(k, k + needle.len()) == needle
}

fn append_detail(text: &mut String, detail: &String)
    ensures
        final(text)@ == old(text)@ + detail_suffix(detail@),
{
    if !detail.as_str().is_empty() {
        text.append(": ");
        text.append(detail.as_str());
    } else {
        assert(old(text)@ + Seq::<char>::empty() == old(text)@);
    }
}

impl Error {
    /// The message shown to a user.
    pub fn message(&self) -> (r: String)
        ensures
            r@ == error_message(*self),
    {
        match self {
            Error::NotFound { identifier, detail } => {
                let mut text = String::from_str("type library `");
                text.append(identifier.as_str());
                text.append("` not found");
                append_detail(&mut text, detail);
                text
            },
            Error::LoadFailed { path, detail } => {
                let mut text = String::from_str("failed to load type library `");
                text.append(path.as_str());
                text.append("`");
                append_detail(&mut text, detail);
                text
            },
            Error::AttributeUnavailable { detail } => {
                let mut text = String::from_str("library attributes unavailable");
                append_detail(&mut text, detail);
                text
            },
        }
    }
}

/// The failure that ends a resolution in which every strategy failed.
pub fn not_found(identifier: &str) -> (r: Error)
    ensures
        r matches Error::NotFound { identifier: i, detail: d } && i@ == identifier@ && d@.len() == 0,
{
    Error::NotFound { identifier: identifier.to_owned(), detail: String::new() }
}

/// The message of a `NotFound` failure names the identifier that was sought.
pub proof fn lemma_not_found_names_identifier(e: Error)
    requires
        e is NotFound,
    ensures
        contains_text(error_message(e), e->NotFound_identifier@),
{
    let id = e->NotFound_identifier@;
    let prefix = "type library `"@;
    let msg = error_message(e);
    assert(msg == prefix + id + ("` not found"@ + detail_suffix(e->NotFound_detail@)));
    assert(msg.subrange(prefix.len() as int, (prefix.len() + id.len()) as int) == id);
}

} // verus!
