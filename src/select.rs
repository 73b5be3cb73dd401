//! Choosing the one header or query field to fill next.
//!
//! A parameter whose field is present with an empty value is a slot that the
//! user has cleared: it is removed, and the next parameter of the table (in
//! cyclic order) whose name is not already populated is filled instead.
//! Without such a slot, the first parameter with no field at all is filled.

use vstd::prelude::*;
use crate::api::{opt_view, CompletionError, ParamLocation, ParamView, SpecParameter};
use crate::external::{canonical_header_name, header_name_of, header_value_char, is_valid_header_value};
use crate::fields::{
    assign, assign_field, get_field, has_populated, is_populated, lookup, pairs, remove_field,
    without, Field,
};
use crate::request::Request;
use crate::table::param_views;

verus! {

pub type Fields = Seq<(Seq<char>, Seq<char>)>;

/// The request's value for parameter `p`: a header is looked up under the
/// canonical form of its name, a query field under its name.
pub open spec fn current_value(p: ParamView, h: Fields, q: Fields) -> Option<Seq<char>> {
    match p.location {
        ParamLocation::Header => match header_name_of(p.name) {
            Some(k) => lookup(h, k),
            None => None,
        },
        ParamLocation::Query => lookup(q, p.name),
        ParamLocation::Other => None,
    }
}

/// A header or query parameter whose field is present and empty.
pub open spec fn is_cleared(p: ParamView, h: Fields, q: Fields) -> bool {
    current_value(p, h, q) == Some(Seq::<char>::empty())
}

/// A header or query parameter with no field in the request.
pub open spec fn is_absent(p: ParamView, h: Fields, q: Fields) -> bool {
    p.location != ParamLocation::Other && current_value(p, h, q) is None
}

/// The first cleared parameter of `t` at or after `i`.
pub open spec fn first_cleared_from(t: Seq<ParamView>, h: Fields, q: Fields, i: int) -> Option<int>
    decreases t.len() - i,
{
    if i < 0 || i >= t.len() {
        None
    } else if is_cleared(t[i], h, q) {
        Some(i)
    } else {
        first_cleared_from(t, h, q, i + 1)
    }
}

pub proof fn lemma_first_cleared(t: Seq<ParamView>, h: Fields, q: Fields, s: int)
    ensures
        first_cleared_from(t, h, q, s) matches Some(i) ==> s <= i < t.len() && is_cleared(
            t[i],
            h,
            q,
        ),
    decreases t.len() - s,
{
    if 0 <= s < t.len() && !is_cleared(t[s], h, q) {
        lemma_first_cleared(t, h, q, s + 1);
    }
}

/// The first absent parameter of `t` at or after `i`.
pub open spec fn first_absent_from(t: Seq<ParamView>, h: Fields, q: Fields, i: int) -> Option<int>
    decreases t.len() - i,
{
    if i < 0 || i >= t.len() {
        None
    } else if is_absent(t[i], h, q) {
        Some(i)
    } else {
        first_absent_from(t, h, q, i + 1)
    }
}

/// The index after `c` in a cyclic walk over `n` entries.
pub open spec fn cyclic_next(c: int, n: int) -> int {
    if c + 1 >= n {
        0
    } else {
        c + 1
    }
}

/// The walk for a replacement: from candidate `c`, having taken `k` steps,
/// stop at the first candidate whose name is not populated in `pop`; after
/// `t.len()` steps stop at `start`, the entry after the cleared slot.
pub open spec fn walk(t: Seq<ParamView>, pop: Fields, start: int, c: int, k: int) -> int
    decreases t.len() - k,
{
    if k >= t.len() {
        start
    } else if !is_populated(pop, t[c].name) {
        c
    } else {
        walk(t, pop, start, cyclic_next(c, t.len() as int), k + 1)
    }
}

/// The replacement for the cleared slot at `i`.
pub open spec fn replacement(t: Seq<ParamView>, pop: Fields, i: int) -> int {
    let start = cyclic_next(i, t.len() as int);
    walk(t, pop, start, start, 0)
}

/// The header value written for a parameter: its example where `http`
/// accepts it, `invalid` where not, and the JSON text `""` without example.
pub open spec fn header_fill(p: ParamView) -> Seq<char> {
    match p.example {
        Some(e) => if forall|i: int| 0 <= i < e.len() ==> header_value_char(#[trigger] e[i]) {
            e
        } else {
            "invalid"@
        },
        None => "\"\""@,
    }
}

/// The query value written for a parameter: its example, or empty.
pub open spec fn query_fill(p: ParamView) -> Seq<char> {
    match p.example {
        Some(e) => e,
        None => Seq::empty(),
    }
}

/// The fields after writing parameter `p`; `None` where a header's name is
/// refused by `http`.
pub open spec fn fill(p: ParamView, h: Fields, q: Fields) -> Option<(Fields, Fields)> {
    match p.location {
        ParamLocation::Header => match header_name_of(p.name) {
            Some(k) => Some((assign(h, k, header_fill(p)), q)),
            None => None,
        },
        ParamLocation::Query => Some((h, assign(q, p.name, query_fill(p)))),
        ParamLocation::Other => Some((h, q)),
    }
}

/// The headers and query fields after one completion step over table `t`.
pub open spec fn completed_fields(t: Seq<ParamView>, h: Fields, q: Fields) -> Option<(Fields, Fields)> {
    match first_cleared_from(t, h, q, 0) {
        Some(i) => if t[i].location == ParamLocation::Header {
            fill(t[replacement(t, h, i)], without(h, header_name_of(t[i].name).unwrap()), q)
        } else {
            fill(t[replacement(t, q, i)], h, without(q, t[i].name))
        },
        None => match first_absent_from(t, h, q, 0) {
            Some(i) => fill(t[i], h, q),
            None => Some((h, q)),
        },
    }
}

fn current_value_of(p: &SpecParameter, headers: &Vec<Field>, query: &Vec<Field>) -> (r: Option<
    String,
>)
    ensures
        opt_view(r) == current_value(p@, pairs(headers@), pairs(query@)),
{
    match p.location {
        ParamLocation::Header => match canonical_header_name(p.name.as_str()) {
            Some(k) => match get_field(headers, k.as_str()) {
                Some(v) => Some(v.clone()),
                None => None,
            },
            None => None,
        },
        ParamLocation::Query => match get_field(query, p.name.as_str()) {
            Some(v) => Some(v.clone()),
            None => None,
        },
        ParamLocation::Other => None,
    }
}

fn find_cleared(t: &Vec<SpecParameter>, headers: &Vec<Field>, query: &Vec<Field>) -> (r: Option<
    usize,
>)
    ensures
        match r {
            Some(i) => i < t.len() && first_cleared_from(param_views(t@), pairs(headers@), pairs(query@), 0)
                == Some(i as int),
            None => first_cleared_from(param_views(t@), pairs(headers@), pairs(query@), 0) is None,
        },
{
    let ghost tv = param_views(t@);
    let mut i: usize = 0;
    while i < t.len()
        invariant
            i <= t.len(),
            tv == param_views(t@),
            first_cleared_from(tv, pairs(headers@), pairs(query@), 0) == first_cleared_from(
                tv,
                pairs(headers@),
                pairs(query@),
                i as int,
            ),
        decreases t.len() - i,
    {
        assert(tv[i as int] == t@[i as int]@);
        match current_value_of(&t[i], headers, query) {
            Some(v) => {
                if v.as_str().is_empty() {
                    assert(v@ =~= Seq::<char>::empty());
                    return Some(i);
                }
            },
            None => {},
        }
        i = i + 1;
    }
    None
}

fn find_absent(t: &Vec<SpecParameter>, headers: &Vec<Field>, query: &Vec<Field>) -> (r: Option<
    usize,
>)
    ensures
        match r {
            Some(i) => i < t.len() && first_absent_from(param_views(t@), pairs(headers@), pairs(query@), 0)
                == Some(i as int),
            None => first_absent_from(param_views(t@), pairs(headers@), pairs(query@), 0) is None,
        },
{
    let ghost tv = param_views(t@);
    let mut i: usize = 0;
    while i < t.len()
        invariant
            i <= t.len(),
            tv == param_views(t@),
            first_absent_from(tv, pairs(headers@), pairs(query@), 0) == first_absent_from(
                tv,
                pairs(headers@),
                pairs(query@),
                i as int,
            ),
        decreases t.len() - i,
    {
        assert(tv[i as int] == t@[i as int]@);
        if t[i].location != ParamLocation::Other {
            if current_value_of(&t[i], headers, query).is_none() {
                return Some(i);
            }
        }
        i = i + 1;
    }
    None
}

fn find_replacement(t: &Vec<SpecParameter>, pop: &Vec<Field>, i: usize) -> (r: usize)
    requires
        i < t.len(),
    ensures
        r as int == replacement(param_views(t@), pairs(pop@), i as int),
        r < t.len(),
{
    let ghost tv = param_views(t@);
    let n = t.len();
    let start: usize = if i + 1 >= n {
        0
    } else {
        i + 1
    };
    let mut c: usize = start;
    let mut k: usize = 0;
    while k < n
        invariant
            n == t.len(),
            tv == param_views(t@),
            k <= n,
            c < n,
            start < n,
            start as int == cyclic_next(i as int, n as int),
            replacement(tv, pairs(pop@), i as int) == walk(
                tv,
                pairs(pop@),
                start as int,
                c as int,
                k as int,
            ),
        decreases n - k,
    {
        assert(tv[c as int] == t@[c as int]@);
        if !has_populated(pop, t[c].name.as_str()) {
            return c;
        }
        c = if c + 1 >= n {
            0
        } else {
            c + 1
        };
        k = k + 1;
    }
    start
}

fn header_fill_value(p: &SpecParameter) -> (r: String)
    ensures
        r@ == header_fill(p@),
{
    match &p.example {
        Some(e) => {
            if is_valid_header_value(e.as_str()) {
                e.clone()
            } else {
                "invalid".to_owned()
            }
        },
        None => "\"\"".to_owned(),
    }
}

fn query_fill_value(p: &SpecParameter) -> (r: String)
    ensures
        r@ == query_fill(p@),
{
    match &p.example {
        Some(e) => e.clone(),
        None => String::new(),
    }
}

/// Writes parameter `p` into the request's headers or query fields.
fn fill_parameter(req: &mut Request, p: &SpecParameter) -> (r: Result<(), CompletionError>)
    ensures
        match fill(p@, pairs(old(req).headers@), pairs(old(req).query@)) {
            Some((h, q)) => r is Ok && pairs(final(req).headers@) == h && pairs(final(req).query@)
                == q,
            None => r == Err::<(), CompletionError>(CompletionError::InvalidHeaderName)
                && *final(req) == *old(req),
        },
        final(req).method == old(req).method,
        final(req).url == old(req).url,
        final(req).path == old(req).path,
        final(req).body == old(req).body,
{
    match p.location {
        ParamLocation::Header => match canonical_header_name(p.name.as_str()) {
            Some(k) => {
                let v = header_fill_value(p);
                assign_field(&mut req.headers, k.as_str(), v.as_str());
                Ok(())
            },
            None => Err(CompletionError::InvalidHeaderName),
        },
        ParamLocation::Query => {
            let v = query_fill_value(p);
            assign_field(&mut req.query, p.name.as_str(), v.as_str());
            Ok(())
        },
        ParamLocation::Other => Ok(()),
    }
}

/// Fills the next header or query field that the parameter table `t` calls
/// for (see the module documentation).
pub fn complete_fields(req: &mut Request, t: &Vec<SpecParameter>) -> (r: Result<(), CompletionError>)
    ensures
        match completed_fields(
            param_views(t@),
            pairs(old(req).headers@),
            pairs(old(req).query@),
        ) {
            Some((h, q)) => r is Ok && pairs(final(req).headers@) == h && pairs(final(req).query@)
                == q,
            None => r == Err::<(), CompletionError>(CompletionError::InvalidHeaderName),
        },
        final(req).method == old(req).method,
        final(req).url == old(req).url,
        final(req).path == old(req).path,
        final(req).body == old(req).body,
{
    let ghost tv = param_views(t@);
    match find_cleared(t, &req.headers, &req.query) {
        Some(i) => {
            assert(tv[i as int] == t@[i as int]@);
            proof {
                lemma_first_cleared(tv, pairs(req.headers@), pairs(req.query@), 0);
            }
            if t[i].location == ParamLocation::Header {
                let j = find_replacement(t, &req.headers, i);
                assert(tv[j as int] == t@[j as int]@);
                match canonical_header_name(t[i].name.as_str()) {
                    Some(k) => {
                        remove_field(&mut req.headers, k.as_str());
                    },
                    None => {},
                }
                fill_parameter(req, &t[j])
            } else {
                let j = find_replacement(t, &req.query, i);
                assert(tv[j as int] == t@[j as int]@);
                remove_field(&mut req.query, t[i].name.as_str());
                fill_parameter(req, &t[j])
            }
        },
        None => match find_absent(t, &req.headers, &req.query) {
            Some(i) => {
                assert(tv[i as int] == t@[i as int]@);
                fill_parameter(req, &t[i])
            },
            None => Ok(()),
        },
    }
}

} // verus!
