//! A parsed curl request as plain values.

use vstd::prelude::*;
use crate::fields::Field;

verus! {

/// A curl request: method, URL as written back, URL path, headers (under
/// their canonical names), query fields, and body.
pub struct Request {
    pub method: String,
    pub url: String,
    pub path: String,
    pub headers: Vec<Field>,
    pub query: Vec<Field>,
    pub body: Option<String>,
}

} // verus!
