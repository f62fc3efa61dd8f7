use vstd::prelude::*;
use vstd::string::StringExecFns;

verus! {

/// A type descriptor as the decoder reads it. A user-defined reference
/// carries the documented name of the type it refers to, or nothing where
/// that name could not be resolved.
#[derive(Debug)]
pub enum TypeDesc {
    Ptr(Box<TypeDesc>),
    SafeArray(Box<TypeDesc>),
    UserDefined(Option<String>),
    Scalar(u16),
}

/// The mnemonic of a variant type code, where the code is a known one.
pub open spec fn code_name(vt: u16) -> Option<Seq<char>> {
    if vt == 2 { Some("I2"@) }
    else if vt == 3 { Some("I4"@) }
    else if vt == 4 { Some("R4"@) }
    else if vt == 5 { Some("R8"@) }
    else if vt == 6 { Some("CY"@) }
    else if vt == 7 { Some("DATE"@) }
    else if vt == 8 { Some("BSTR"@) }
    else if vt == 9 { Some("DISPATCH"@) }
    else if vt == 10 { Some("ERROR"@) }
    else if vt == 11 { Some("BOOL"@) }
    else if vt == 12 { Some("VARIANT"@) }
    else if vt == 13 { Some("UNKNOWN"@) }
    else if vt == 14 { Some("DECIMAL"@) }
    else if vt == 16 { Some("I1"@) }
    else if vt == 17 { Some("UI1"@) }
    else if vt == 18 { Some("UI2"@) }
    else if vt == 19 { Some("UI4"@) }
    else if vt == 20 { Some("I8"@) }
    else if vt == 21 { Some("UI8"@) }
    else if vt == 22 { Some("INT"@) }
    else if vt == 23 { Some("UINT"@) }
    else if vt == 24 { Some("VOID"@) }
    else if vt == 25 { Some("HRESULT"@) }
    else if vt == 26 { Some("PTR"@) }
    else if vt == 27 { Some("SAFEARRAY"@) }
    else if vt == 28 { Some("CARRAY"@) }
    else if vt == 29 { Some("USERDEFINED"@) }
    else if vt == 30 { Some("LPSTR"@) }
    else if vt == 31 { Some("LPWSTR"@) }
    else if vt == 36 { Some("RECORD"@) }
    else { None }
}

pub open spec fn digit_text(d: nat) -> Seq<char> {
    if d == 0 { "0"@ }
    else if d == 1 { "1"@ }
    else if d == 2 { "2"@ }
    else if d == 3 { "3"@ }
    else if d == 4 { "4"@ }
    else if d == 5 { "5"@ }
    else if d == 6 { "6"@ }
    else if d == 7 { "7"@ }
    else if d == 8 { "8"@ }
    else { "9"@ }
}

/// Decimal digits of `n`, without leading zeros.
pub open spec fn decimal_text(n: nat) -> Seq<char>
    decreases n,
{
    if n < 10 {
        digit_text(n)
    } else {
        decimal_text(n / 10) + digit_text(n % 10)
    }
}

/// The name of a scalar code: its mnemonic, or `Unknown Type <code>`.
pub open spec fn scalar_name(vt: u16) -> Seq<char> {
    match code_name(vt) {
        Some(n) => n,
        None => "Unknown Type "@ + decimal_text(vt as nat),
    }
}

/// The string a descriptor decodes to: the name of its innermost type.
pub open spec fn leaf_name(d: TypeDesc) -> Seq<char>
    decreases d,
{
    match d {
        TypeDesc::Ptr(inner) => leaf_name(*inner),
        TypeDesc::SafeArray(inner) => leaf_name(*inner),
        TypeDesc::UserDefined(Some(n)) => n@,
        TypeDesc::UserDefined(None) => "USERDEFINED"@,
        TypeDesc::Scalar(vt) => scalar_name(vt),
    }
}

/// Every mnemonic met while decoding, outer to inner.
pub open spec fn detail_chain(d: TypeDesc) -> Seq<Seq<char>>
    decreases d,
{
    match d {
        TypeDesc::Ptr(inner) => seq!["PTR"@] + detail_chain(*inner),
        TypeDesc::SafeArray(inner) => seq!["SAFEARRAY"@] + detail_chain(*inner),
        TypeDesc::UserDefined(Some(n)) => seq!["USERDEFINED"@, n@],
        TypeDesc::UserDefined(None) => seq!["USERDEFINED"@],
        TypeDesc::Scalar(vt) => seq![scalar_name(vt)],
    }
}

pub open spec fn texts(v: Seq<String>) -> Seq<Seq<char>> {
    v.map_values(|s: String| s@)
}

fn digit_str(d: u16) -> (r: &'static str)
    requires
        d < 10,
    ensures
        r@ == digit_text(d as nat),
{
    if d == 0 { "0" }
    else if d == 1 { "1" }
    else if d == 2 { "2" }
    else if d == 3 { "3" }
    else if d == 4 { "4" }
    else if d == 5 { "5" }
    else if d == 6 { "6" }
    else if d == 7 { "7" }
    else if d == 8 { "8" }
    else { "9" }
}

fn push_decimal(out: &mut String, n: u16)
    ensures
        final(out)@ == old(out)@ + decimal_text(n as nat),
    decreases n,
{
    if n >= 10 {
        push_decimal(out, n / 10);
        out.append(digit_str(n % 10));
        assert(final(out)@ == old(out)@ + (decimal_text((n / 10) as nat) + digit_text((n % 10) as nat)));
    } else {
        out.append(digit_str(n));
    }
}

/// The name of a scalar code.
pub fn scalar_text(vt: u16) -> (r: String)
    ensures
        r@ == scalar_name(vt),
{
    let name = match vt {
        2 => "I2",
        3 => "I4",
        4 => "R4",
        5 => "R8",
        6 => "CY",
        7 => "DATE",
        8 => "BSTR",
        9 => "DISPATCH",
        10 => "ERROR",
        11 => "BOOL",
        12 => "VARIANT",
        13 => "UNKNOWN",
        14 => "DECIMAL",
        16 => "I1",
        17 => "UI1",
        18 => "UI2",
        19 => "UI4",
        20 => "I8",
        21 => "UI8",
        22 => "INT",
        23 => "UINT",
        24 => "VOID",
        25 => "HRESULT",
        26 => "PTR",
        27 => "SAFEARRAY",
        28 => "CARRAY",
        29 => "USERDEFINED",
        30 => "LPSTR",
        31 => "LPWSTR",
        36 => "RECORD",
        _ => {
            let mut text = String::from_str("Unknown Type ");
            push_decimal(&mut text, vt);
            return text;
        },
    };
    String::from_str(name)
}

fn push_text(details: &mut Vec<String>, s: String)
    ensures
        texts(final(details)@) == texts(old(details)@).push(s@),
{
    details.push(s);
    assert(texts(final(details)@) =~= texts(old(details)@).push(s@));
}

/// Decodes a descriptor to the name of its innermost type, appending every
/// mnemonic met on the way, outer to inner, to `details`.
pub fn ole_typedesc2val(desc: &TypeDesc, details: &mut Vec<String>) -> (r: String)
    ensures
        r@ == leaf_name(*desc),
        texts(final(details)@) == texts(old(details)@) + detail_chain(*desc),
    decreases desc,
{
    match desc {
        TypeDesc::Ptr(inner) => {
            push_text(details, String::from_str("PTR"));
            let r = ole_typedesc2val(inner, details);
            assert(texts(final(details)@) =~= texts(old(details)@) + detail_chain(*desc));
            r
        },
        TypeDesc::SafeArray(inner) => {
            push_text(details, String::from_str("SAFEARRAY"));
            let r = ole_typedesc2val(inner, details);
            assert(texts(final(details)@) =~= texts(old(details)@) + detail_chain(*desc));
            r
        },
        TypeDesc::UserDefined(resolved) => {
            push_text(details, String::from_str("USERDEFINED"));
            match resolved {
                Some(name) => {
                    push_text(details, name.clone());
                    assert(texts(final(details)@) =~= texts(old(details)@) + detail_chain(*desc));
                    name.clone()
                },
                None => {
                    assert(texts(final(details)@) =~= texts(old(details)@) + detail_chain(*desc));
                    String::from_str("USERDEFINED")
                },
            }
        },
        TypeDesc::Scalar(vt) => {
            let name = scalar_text(*vt);
            push_text(details, name.clone());
            assert(texts(final(details)@) =~= texts(old(details)@) + detail_chain(*desc));
            name
        },
    }
}

} // verus!
