//! Timestamps and path-to-URI derivation.

use vstd::prelude::*;

verus! {

/// Relies on chrono's Utc::now and to_rfc3339: the current time formatted
/// as an RFC 3339 / ISO 8601 string, which is never empty.  Nothing more is
/// assumed of the clock.
#[verifier::external_body]
pub fn now_iso8601() -> (r: String)
    ensures
        r@.len() > 0,
{
    chrono::Utc::now().to_rfc3339()
}

/// The `file://` URI form of a path, or the empty string where the path has
/// no such form (for instance a relative path); a pure function of the path.
pub uninterp spec fn uri_of(path: Seq<char>) -> Seq<char>;

/// Relies on url's Url::from_file_path and Display: the URI depends on the
/// path alone, and a path that has no URI form yields `Err`, mapped here to
/// the empty string.
#[verifier::external_body]
pub fn file_uri(path: &String) -> (r: String)
    ensures
        r@ == uri_of(path@),
{
    match url::Url::from_file_path(path.as_str()) {
        Ok(u) => u.to_string(),
        Err(()) => String::new(),
    }
}

} // verus!
