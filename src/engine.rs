//! One completion step on a request: match the operation, build its
//! parameter table, fill the next field, then the body.

use vstd::prelude::*;
use crate::api::{matched_operation, match_operation, opt_view, ApiSpec, CompletionError};
use crate::body::{body_result, populate_body};
use crate::fields::{pairs, remove_field, without};
use crate::request::Request;
use crate::select::{complete_fields, completed_fields, Fields};
use crate::table::{
    all_resolve, build_parameter_table, is_table_of, lemma_table_unique, param_views,
    resolved_parameters, table_of,
};

verus! {

/// The headers, query fields and body that one completion step gives for a
/// request, or the error that stops it. An `accept` header is dropped first.
pub open spec fn completion(
    spec: ApiSpec,
    method: Seq<char>,
    path: Seq<char>,
    h: Fields,
    q: Fields,
    body: Option<Seq<char>>,
) -> Result<(Fields, Fields, Option<Seq<char>>), CompletionError> {
    let h0 = without(h, "accept"@);
    match matched_operation(spec, path, method) {
        Err(e) => Err(e),
        Ok(op) => if !all_resolve(op, spec.components) {
            Err(CompletionError::UnresolvedReference)
        } else {
            match completed_fields(table_of(resolved_parameters(op, spec.components)), h0, q) {
                None => Err(CompletionError::InvalidHeaderName),
                Some((h1, q1)) => match body_result(op, spec.components, h1, body) {
                    Err(e) => Err(e),
                    Ok((h2, b2)) => Ok((h2, q1, b2)),
                },
            }
        },
    }
}

/// The outcome of a step in the terms of `completion`.
pub open spec fn outcome(r: Result<(), CompletionError>, req: Request) -> Result<
    (Fields, Fields, Option<Seq<char>>),
    CompletionError,
> {
    match r {
        Ok(_) => Ok((pairs(req.headers@), pairs(req.query@), opt_view(req.body))),
        Err(e) => Err(e),
    }
}

/// Completes the request against the description: fills the next header or
/// query field and, where the request has none, the JSON body.
pub fn complete_request(req: &mut Request, spec: &ApiSpec) -> (r: Result<(), CompletionError>)
    ensures
        outcome(r, *final(req)) == completion(
            *spec,
            old(req).method@,
            old(req).path@,
            pairs(old(req).headers@),
            pairs(old(req).query@),
            opt_view(old(req).body),
        ),
        final(req).method == old(req).method,
        final(req).url == old(req).url,
        final(req).path == old(req).path,
{
    remove_field(&mut req.headers, "accept");
    let op = match match_operation(spec, req.path.as_str(), req.method.as_str()) {
        Ok(op) => op,
        Err(e) => {
            return Err(e);
        },
    };
    let table = match build_parameter_table(op, &spec.components) {
        Ok(t) => t,
        Err(e) => {
            return Err(e);
        },
    };
    let ghost tv = param_views(table@);
    proof {
        let ps = resolved_parameters(*op, spec.components);
        assert(is_table_of(ps, tv));
        lemma_table_unique(ps, table_of(ps), tv);
    }
    let ghost h1 = pairs(req.headers@);
    let ghost q1 = pairs(req.query@);
    match complete_fields(req, &table) {
        Ok(()) => {},
        Err(e) => {
            return Err(e);
        },
    }
    populate_body(req, op, &spec.components)
}

} // verus!
