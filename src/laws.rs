//! Properties of a completion step, stated over the specifications of the
//! selector, the body step and the reassembler.

use vstd::prelude::*;
use crate::api::{ParamLocation, ParamView};
use crate::body::{body_result, json_entry_from, json_headers};
use crate::fields::{lookup, without};
use crate::render::{cursor_of, spliced, sum_bytes, trimmed_segments};
use crate::select::{
    completed_fields, current_value, cyclic_next, first_absent_from, first_cleared_from,
    query_fill, replacement, walk, Fields,
};
use crate::table::{drawn_from, has_name, has_origin, is_table_of, named_at, sorted_names};
use crate::text::{byte_len, join_bars, lemma_lex_irreflexive, lex_lt, split_bars, trim};

verus! {

proof fn lemma_table_facts(ps: Seq<ParamView>, t: Seq<ParamView>)
    requires
        is_table_of(ps, t),
    ensures
        sorted_names(t),
        forall|i: int| 0 <= i < t.len() ==> #[trigger] has_origin(ps, t, i),
        forall|j: int| 0 <= j < ps.len() ==> #[trigger] has_name(t, ps[j].name),
{
    reveal(is_table_of);
}

proof fn lemma_all_query(ps: Seq<ParamView>, t: Seq<ParamView>)
    requires
        is_table_of(ps, t),
        forall|j: int| 0 <= j < ps.len() ==> #[trigger] ps[j].location == ParamLocation::Query,
    ensures
        forall|i: int| 0 <= i < t.len() ==> #[trigger] t[i].location == ParamLocation::Query,
{
    lemma_table_facts(ps, t);
    assert forall|i: int| 0 <= i < t.len() implies #[trigger] t[i].location
        == ParamLocation::Query by {
        assert(has_origin(ps, t, i));
        let j = choose|j: int| drawn_from(ps, t, i, j);
        assert(ps[j].location == ParamLocation::Query);
    }
}

proof fn lemma_none_cleared(t: Seq<ParamView>, h: Fields, q: Fields, i: int)
    requires
        0 <= i,
        forall|k: int|
            i <= k < t.len() ==> current_value(#[trigger] t[k], h, q) != Some(Seq::<char>::empty()),
    ensures
        first_cleared_from(t, h, q, i) is None,
    decreases t.len() - i,
{
    if i < t.len() {
        lemma_none_cleared(t, h, q, i + 1);
    }
}

proof fn lemma_none_absent(t: Seq<ParamView>, h: Fields, q: Fields, i: int)
    requires
        0 <= i,
        forall|k: int|
            i <= k < t.len() ==> (#[trigger] t[k]).location == ParamLocation::Other || current_value(
                t[k],
                h,
                q,
            ) is Some,
    ensures
        first_absent_from(t, h, q, i) is None,
    decreases t.len() - i,
{
    if i < t.len() {
        lemma_none_absent(t, h, q, i + 1);
    }
}

/// With no query field set, an operation whose parameters are all query
/// parameters gets exactly one field: the alphabetically first parameter,
/// with its example.
pub proof fn law_first_fill_is_alphabetically_first(ps: Seq<ParamView>, t: Seq<ParamView>, h: Fields)
    requires
        is_table_of(ps, t),
        ps.len() > 0,
        forall|j: int| 0 <= j < ps.len() ==> #[trigger] ps[j].location == ParamLocation::Query,
    ensures
        t.len() > 0,
        forall|j: int|
            0 <= j < ps.len() ==> #[trigger] ps[j].name == t[0].name || lex_lt(t[0].name, ps[j].name),
        completed_fields(t, h, Seq::empty()) == Some((h, seq![(t[0].name, query_fill(t[0]))])),
{
    lemma_table_facts(ps, t);
    lemma_all_query(ps, t);
    assert(has_name(t, ps[0].name));
    assert forall|j: int| 0 <= j < ps.len() implies #[trigger] ps[j].name == t[0].name || lex_lt(
        t[0].name,
        ps[j].name,
    ) by {
        assert(has_name(t, ps[j].name));
        let i = choose|i: int| named_at(t, i, ps[j].name);
        if i > 0 {
            assert(lex_lt(t[0].name, t[i].name));
        }
    }
    let q = Seq::<(Seq<char>, Seq<char>)>::empty();
    assert forall|k: int| 0 <= k < t.len() implies current_value(#[trigger] t[k], h, q) != Some(
        Seq::<char>::empty(),
    ) by {
        assert(t[k].location == ParamLocation::Query);
    }
    lemma_none_cleared(t, h, q, 0);
    assert(t[0].location == ParamLocation::Query);
    assert(first_absent_from(t, h, q, 0) == Some(0int));
}

proof fn lemma_only_cleared(t: Seq<ParamView>, h: Fields, q: Fields, i: int, s: int)
    requires
        sorted_names(t),
        0 <= s <= i < t.len(),
        q == seq![(t[i].name, Seq::<char>::empty())],
        forall|k: int| 0 <= k < t.len() ==> #[trigger] t[k].location == ParamLocation::Query,
    ensures
        first_cleared_from(t, h, q, s) == Some(i),
    decreases i - s,
{
    if s < i {
        assert(lex_lt(t[s].name, t[i].name));
        lemma_lex_irreflexive(t[s].name);
        assert(t[s].location == ParamLocation::Query);
        assert(lookup(q.drop_first(), t[s].name) is None);
        lemma_only_cleared(t, h, q, i, s + 1);
    } else {
        assert(t[i].location == ParamLocation::Query);
    }
}

/// A query field that was filled and then emptied is replaced by the next
/// parameter in alphabetical order, wrapping from the last to the first.
pub proof fn law_emptied_field_advances(ps: Seq<ParamView>, t: Seq<ParamView>, h: Fields, i: int)
    requires
        is_table_of(ps, t),
        forall|j: int| 0 <= j < ps.len() ==> #[trigger] ps[j].location == ParamLocation::Query,
        0 <= i < t.len(),
    ensures
        ({
            let n = cyclic_next(i, t.len() as int);
            completed_fields(t, h, seq![(t[i].name, Seq::<char>::empty())]) == Some(
                (h, seq![(t[n].name, query_fill(t[n]))]),
            )
        }),
{
    lemma_table_facts(ps, t);
    lemma_all_query(ps, t);
    let q = seq![(t[i].name, Seq::<char>::empty())];
    lemma_only_cleared(t, h, q, i, 0);
    let n = cyclic_next(i, t.len() as int);
    assert(t[i].location == ParamLocation::Query);
    assert(t[n].location == ParamLocation::Query);
    assert(walk(t, q, n, n, 0) == n);
    assert(replacement(t, q, i) == n);
    assert(q.drop_first() =~= Seq::<(Seq<char>, Seq<char>)>::empty());
    reveal_with_fuel(without, 2);
    assert(without(q, t[i].name) =~= Seq::<(Seq<char>, Seq<char>)>::empty());
}

/// Once every header and query parameter has a non-empty value, a step
/// leaves the headers and query fields as they are.
pub proof fn law_populated_request_is_fixed(t: Seq<ParamView>, h: Fields, q: Fields)
    requires
        forall|k: int|
            0 <= k < t.len() && (#[trigger] t[k]).location != ParamLocation::Other ==> (current_value(
                t[k],
                h,
                q,
            ) matches Some(v) && v.len() > 0),
    ensures
        completed_fields(t, h, q) == Some((h, q)),
{
    assert forall|k: int| 0 <= k < t.len() implies current_value(#[trigger] t[k], h, q) != Some(
        Seq::<char>::empty(),
    ) by {
        if t[k].location == ParamLocation::Other {
        }
    }
    lemma_none_cleared(t, h, q, 0);
    lemma_none_absent(t, h, q, 0);
}

/// A request without body, on an operation whose JSON request body carries
/// an example, gets that example as its body and JSON content headers.
pub proof fn law_json_example_becomes_body(
    op: crate::api::Operation,
    c: Option<crate::api::Components>,
    rb: crate::api::RequestBody,
    h: Fields,
)
    requires
        op.request_body matches Some(r) && crate::api::resolved(crate::api::body_components(c), r)
            == Some(rb),
        json_entry_from(rb, 0) matches Some(j) && rb.content@[j].media.example is Some,
    ensures
        ({
            let j = json_entry_from(rb, 0).unwrap();
            body_result(op, c, h, None) == Ok::<(Fields, Option<Seq<char>>), crate::api::CompletionError>(
                (json_headers(h), Some(rb.content@[j].media.example.unwrap()@)),
            )
        }),
{
}

/// When the `curl` segment comes first, the cursor lands on the last
/// character of the rewritten segment.
pub proof fn law_cursor_first_segment(input: Seq<char>, rendered: Seq<char>)
    ensures
        cursor_of(input, 0, rendered) == byte_len(rendered) - 1,
{
    assert(trimmed_segments(input).take(0) =~= Seq::<Seq<char>>::empty());
}

/// With one segment before the `curl` one, the cursor is that segment's
/// trimmed length plus the rewritten segment's length, less one.
pub proof fn law_cursor_after_one_segment(input: Seq<char>, rendered: Seq<char>)
    requires
        split_bars(input).len() >= 2,
    ensures
        cursor_of(input, 1, rendered) == byte_len(trim(split_bars(input)[0])) + byte_len(rendered)
            - 1,
{
    let ts = trimmed_segments(input);
    reveal_with_fuel(sum_bytes, 2);
    assert(ts.take(1).drop_last() =~= Seq::<Seq<char>>::empty());
    assert(ts.take(1).last() == trim(split_bars(input)[0]));
}

/// A two-segment pipeline whose first segment is rewritten reads as the new
/// segment, `" | "`, and the second segment trimmed.
pub proof fn law_splice_keeps_following_segment(input: Seq<char>, rendered: Seq<char>)
    requires
        split_bars(input).len() == 2,
    ensures
        spliced(input, 0, rendered) == rendered + seq![' ', '|', ' '] + trim(split_bars(input)[1]),
{
    let s = trimmed_segments(input).update(0, rendered);
    reveal_with_fuel(join_bars, 2);
    assert(s.drop_last() =~= seq![rendered]);
    assert(s.last() == trim(split_bars(input)[1]));
}

} // verus!
