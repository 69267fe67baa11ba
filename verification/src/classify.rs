//! Signature classification of a sampled window.
//!
//! The classifier itself is the `file_format` crate: an opaque, deterministic
//! function from a byte sequence to a format descriptor with a full name, an
//! optional short code, and one distinguished fallback value meaning "no
//! recognized signature" (arbitrary binary data). The sweep engine branches
//! only on that one distinction, carried here as the `informative` flag.

use vstd::prelude::*;

verus! {

/// The full name of the format that the classifier detects for these bytes.
pub uninterp spec fn format_name_of(data: Seq<u8>) -> Seq<char>;

/// The short code of the detected format, if it has one.
pub uninterp spec fn format_short_code_of(data: Seq<u8>) -> Option<Seq<char>>;

/// Whether the classifier detects a recognized signature in these bytes,
/// rather than falling back to its arbitrary-binary-data value.
pub uninterp spec fn format_is_informative(data: Seq<u8>) -> bool;

/// What the classifier reports for one sampled window: a format name, an
/// optional short code, and whether the detection is informative (false
/// exactly when the classifier fell back to arbitrary binary data).
pub struct Classification {
    pub name: String,
    pub short_code: Option<String>,
    pub informative: bool,
}

pub open spec fn opt_string_view(o: Option<String>) -> Option<Seq<char>> {
    match o {
        Some(s) => Some(s@),
        None => None,
    }
}

/// Relies on `file_format::FileFormat::from_bytes`, whose result depends on
/// the bytes alone, and on `FileFormat::name` and `FileFormat::short_name`,
/// which map each format variant to fixed strings; `informative` converts the
/// distinguished `FileFormat::ArbitraryBinaryData` fallback variant to
/// `false` and every other variant to `true`.
#[verifier::external_body]
pub fn classify(data: &Vec<u8>) -> (r: Classification)
    ensures
        r.name@ == format_name_of(data@),
        opt_string_view(r.short_code) == format_short_code_of(data@),
        r.informative == format_is_informative(data@),
{
    let fmt = file_format::FileFormat::from_bytes(data.as_slice());
    Classification {
        name: fmt.name().to_string(),
        short_code: match fmt.short_name() {
            Some(s) => Some(s.to_string()),
            None => None,
        },
        informative: !matches!(fmt, file_format::FileFormat::ArbitraryBinaryData),
    }
}

} // verus!
