//! Filling the JSON body of a request from the operation's request body.

use vstd::prelude::*;
use crate::api::{
    body_components, opt_view, resolve_request_body, resolve_schema, resolved, same_text,
    schema_components, CompletionError, Components, MediaType, Operation, RequestBody,
};
use crate::fields::{assign, assign_field, pairs};
use crate::request::Request;
use crate::select::Fields;

verus! {

/// The first content entry of `content` at or after `i` for `application/json`.
pub open spec fn json_entry_from(b: RequestBody, i: int) -> Option<int>
    decreases b.content@.len() - i,
{
    if i < 0 || i >= b.content@.len() {
        None
    } else if b.content@[i].media_type@ == "application/json"@ {
        Some(i)
    } else {
        json_entry_from(b, i + 1)
    }
}

/// The headers once a JSON body is announced: `content-type` and `accept`
/// both set to `application/json`.
pub open spec fn json_headers(h: Fields) -> Fields {
    assign(assign(h, "content-type"@, "application/json"@), "accept"@, "application/json"@)
}

/// The body found for media type `m`: its own example first, else the
/// example of its schema, else none.
pub open spec fn media_body(m: MediaType, c: Option<Components>) -> Result<
    Option<Seq<char>>,
    CompletionError,
> {
    match m.example {
        Some(e) => Ok(Some(e@)),
        None => match m.schema {
            None => Ok(None),
            Some(sr) => match resolved(schema_components(c), sr) {
                None => Err(CompletionError::UnresolvedReference),
                Some(sc) => Ok(opt_view(sc.example)),
            },
        },
    }
}

/// Headers and body after the body step, for a request with headers `h`
/// and body `body`. A request that already has a body, an operation without
/// request body, and a request body without `application/json` content are
/// left as they are.
pub open spec fn body_result(
    op: Operation,
    c: Option<Components>,
    h: Fields,
    body: Option<Seq<char>>,
) -> Result<(Fields, Option<Seq<char>>), CompletionError> {
    if body is Some {
        Ok((h, body))
    } else {
        match op.request_body {
            None => Ok((h, body)),
            Some(r) => match resolved(body_components(c), r) {
                None => Err(CompletionError::UnresolvedReference),
                Some(rb) => match json_entry_from(rb, 0) {
                    None => Ok((h, body)),
                    Some(j) => match media_body(rb.content@[j].media, c) {
                        Err(e) => Err(e),
                        Ok(b) => Ok((json_headers(h), b)),
                    },
                },
            },
        }
    }
}

fn find_json_entry(b: &RequestBody) -> (r: Option<usize>)
    ensures
        match r {
            Some(i) => i < b.content.len() && json_entry_from(*b, 0) == Some(i as int),
            None => json_entry_from(*b, 0) is None,
        },
{
    let mut i: usize = 0;
    while i < b.content.len()
        invariant
            i <= b.content.len(),
            json_entry_from(*b, 0) == json_entry_from(*b, i as int),
        decreases b.content.len() - i,
    {
        if same_text(b.content[i].media_type.as_str(), "application/json") {
            return Some(i);
        }
        i = i + 1;
    }
    None
}

/// Sets the request's body from the operation's JSON request body, where
/// the request has none yet.
pub fn populate_body(req: &mut Request, op: &Operation, c: &Option<Components>) -> (r: Result<
    (),
    CompletionError,
>)
    ensures
        match body_result(*op, *c, pairs(old(req).headers@), opt_view(old(req).body)) {
            Ok((h, b)) => r is Ok && pairs(final(req).headers@) == h && opt_view(final(req).body)
                == b,
            Err(e) => r == Err::<(), CompletionError>(e),
        },
        final(req).method == old(req).method,
        final(req).url == old(req).url,
        final(req).path == old(req).path,
        final(req).query == old(req).query,
{
    if req.body.is_some() {
        return Ok(());
    }
    let rb = match &op.request_body {
        None => {
            return Ok(());
        },
        Some(r) => resolve_request_body(r, c)?,
    };
    let j = match find_json_entry(rb) {
        None => {
            return Ok(());
        },
        Some(j) => j,
    };
    let m = &rb.content[j].media;
    let body: Option<String> = match &m.example {
        Some(e) => Some(e.clone()),
        None => match &m.schema {
            None => None,
            Some(sr) => {
                let sc = resolve_schema(sr, c)?;
                match &sc.example {
                    Some(e) => Some(e.clone()),
                    None => None,
                }
            },
        },
    };
    assign_field(&mut req.headers, "content-type", "application/json");
    assign_field(&mut req.headers, "accept", "application/json");
    req.body = body;
    Ok(())
}

} // verus!
