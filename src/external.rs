//! The calls into `http` and `serde_json` that the engine relies on.

use vstd::prelude::*;
use crate::api::opt_view;
use std::str::FromStr;

verus! {

/// What `http` makes of a header name: its canonical text, or `None` where
/// the name is refused.
pub uninterp spec fn header_name_of(s: Seq<char>) -> Option<Seq<char>>;

/// Relies on `http::HeaderName::from_str` and `HeaderName::as_str`: the
/// canonical text of an accepted name; an empty name is refused.
#[verifier::external_body]
pub(crate) fn canonical_header_name(s: &str) -> (r: Option<String>)
    ensures
        opt_view(r) == header_name_of(s@),
        s@.len() == 0 ==> r is None,
{
    http::header::HeaderName::from_str(s).ok().map(|n| n.as_str().to_string())
}

/// A character that `http` accepts in a header value: a tab, or at least a
/// space and not DEL. Every byte of a character beyond ASCII is at least 128.
pub open spec fn header_value_char(c: char) -> bool {
    let u = c as u32;
    (u >= 32 && u != 127) || u == 9
}

/// A character that a header value may hold to be read back as text: a tab
/// or visible ASCII.
pub open spec fn visible_char(c: char) -> bool {
    let u = c as u32;
    (u >= 32 && u < 127) || u == 9
}

/// Relies on `http::HeaderValue::from_str`: it accepts the text exactly when
/// every byte is a tab or at least 32 and not 127.
#[verifier::external_body]
pub(crate) fn is_valid_header_value(s: &str) -> (r: bool)
    ensures
        r == (forall|i: int| 0 <= i < s@.len() ==> header_value_char(#[trigger] s@[i])),
{
    http::header::HeaderValue::from_str(s).is_ok()
}

/// Relies on `http::HeaderValue::to_str`: a value reads back as text exactly
/// when every byte is a tab or visible ASCII.
#[verifier::external_body]
pub(crate) fn is_visible_header_value(s: &str) -> (r: bool)
    requires
        forall|i: int| 0 <= i < s@.len() ==> header_value_char(#[trigger] s@[i]),
    ensures
        r == (forall|i: int| 0 <= i < s@.len() ==> visible_char(#[trigger] s@[i])),
{
    http::header::HeaderValue::from_str(s).map_or(false, |v| v.to_str().is_ok())
}

/// What `serde_json` makes of a text read as JSON and written back indented;
/// `None` where the text is not JSON.
pub uninterp spec fn pretty_json_of(s: Seq<char>) -> Option<Seq<char>>;

/// Relies on `serde_json::from_str` into a `serde_json::Value` and
/// `serde_json::to_string_pretty` of that value.
#[verifier::external_body]
pub(crate) fn pretty_json(s: &str) -> (r: Option<String>)
    ensures
        opt_view(r) == pretty_json_of(s@),
{
    match serde_json::from_str::<serde_json::Value>(s) {
        Ok(v) => serde_json::to_string_pretty(&v).ok(),
        Err(_) => None,
    }
}

} // verus!
