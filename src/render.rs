//! Writing a request back as a curl command, splicing it into its pipeline,
//! and placing the cursor.

use vstd::prelude::*;
use crate::api::opt_view;
use crate::external::{
    header_value_char, is_valid_header_value, is_visible_header_value, pretty_json, pretty_json_of,
    visible_char,
};
use crate::fields::pairs;
use crate::request::Request;
use crate::select::Fields;
use crate::text::{
    byte_len, byte_length, join_bars, join_pipeline, split_bars,
    split_pipeline, trim, trim_text, views,
};

verus! {

/// How a header value is shown: empty where it is empty, is the JSON text
/// `""`, or does not read back as text.
pub open spec fn shown_value(v: Seq<char>) -> Seq<char> {
    if v.len() == 0 || v == "\"\""@ || !(forall|i: int|
        0 <= i < v.len() ==> visible_char(#[trigger] v[i])) {
        Seq::empty()
    } else {
        v
    }
}

/// One ` -H "name: value"` option per header, in order.
pub open spec fn headers_text(h: Fields) -> Seq<char>
    decreases h.len(),
{
    if h.len() == 0 {
        Seq::empty()
    } else {
        headers_text(h.drop_last()) + " -H \""@ + h.last().0 + ": "@ + shown_value(h.last().1)
            + "\""@
    }
}

pub open spec fn query_item(f: (Seq<char>, Seq<char>)) -> Seq<char> {
    "--data-urlencode '"@ + f.0 + "="@ + f.1 + "'"@
}

/// The `--data-urlencode 'name=value'` options, separated by spaces.
pub open spec fn query_text(q: Fields) -> Seq<char>
    decreases q.len(),
{
    if q.len() == 0 {
        Seq::empty()
    } else if q.len() == 1 {
        query_item(q[0])
    } else {
        query_text(q.drop_last()) + " "@ + query_item(q.last())
    }
}

/// The body as indented JSON, or `{}` where it is not JSON.
pub open spec fn pretty_body(b: Seq<char>) -> Seq<char> {
    match pretty_json_of(b) {
        Some(p) => p,
        None => "{}"@,
    }
}

/// The curl command for a request: `-G` where there is no body and there are
/// query fields; headers; then the body with `-d`, or else the query fields.
pub open spec fn command_text(
    method: Seq<char>,
    url: Seq<char>,
    h: Fields,
    q: Fields,
    body: Option<Seq<char>>,
) -> Seq<char> {
    let get_flag = if body is None && q.len() > 0 {
        "-G "@
    } else {
        Seq::empty()
    };
    let tail = match body {
        Some(b) => " -d '"@ + pretty_body(b) + "'"@,
        None => if q.len() > 0 {
            " "@ + query_text(q)
        } else {
            Seq::empty()
        },
    };
    "curl -X "@ + method + " "@ + get_flag + url + headers_text(h) + tail
}

pub open spec fn request_text(r: Request) -> Seq<char> {
    command_text(r.method@, r.url@, pairs(r.headers@), pairs(r.query@), opt_view(r.body))
}

fn shown_header_value(v: &str) -> (r: String)
    ensures
        r@ == shown_value(v@),
{
    proof {
        reveal_strlit("\"\"");
    }
    let quotes = "\"\"".to_owned();
    if v.is_empty() {
        return String::new();
    }
    if crate::api::same_text(v, quotes.as_str()) {
        return String::new();
    }
    if !is_valid_header_value(v) {
        assert(!(forall|i: int| 0 <= i < v@.len() ==> visible_char(#[trigger] v@[i]))) by {
            let i = choose|i: int| 0 <= i < v@.len() && !header_value_char(v@[i]);
            assert(!visible_char(v@[i]));
        }
        return String::new();
    }
    if !is_visible_header_value(v) {
        return String::new();
    }
    v.to_owned()
}

/// Writes the request back as a curl command.
pub fn render_request(req: &Request) -> (r: String)
    ensures
        r@ == request_text(*req),
{
    let ghost h = pairs(req.headers@);
    let ghost q = pairs(req.query@);
    let mut out = "curl -X ".to_owned();
    out.append(req.method.as_str());
    out.append(" ");
    if req.body.is_none() && req.query.len() > 0 {
        out.append("-G ");
    }
    out.append(req.url.as_str());
    let ghost head = out@;
    let mut i: usize = 0;
    while i < req.headers.len()
        invariant
            i <= req.headers.len(),
            h == pairs(req.headers@),
            out@ == head + headers_text(h.take(i as int)),
        decreases req.headers.len() - i,
    {
        assert(h.take(i + 1).drop_last() =~= h.take(i as int));
        let shown = shown_header_value(req.headers[i].value.as_str());
        let ghost before = out@;
        out.append(" -H \"");
        out.append(req.headers[i].name.as_str());
        out.append(": ");
        out.append(shown.as_str());
        out.append("\"");
        assert(out@ =~= before + (" -H \""@ + h[i as int].0 + ": "@ + shown_value(h[i as int].1)
            + "\""@));
        i = i + 1;
    }
    assert(h.take(req.headers.len() as int) =~= h);
    let ghost mid = out@;
    match &req.body {
        Some(b) => {
            let text = match pretty_json(b.as_str()) {
                Some(p) => p,
                None => "{}".to_owned(),
            };
            out.append(" -d '");
            out.append(text.as_str());
            out.append("'");
            assert(out@ =~= mid + (" -d '"@ + pretty_body(b@) + "'"@));
        },
        None => {
            if req.query.len() > 0 {
                out.append(" ");
                let ghost start = out@;
                let mut j: usize = 0;
                while j < req.query.len()
                    invariant
                        j <= req.query.len(),
                        q == pairs(req.query@),
                        out@ == start + query_text(q.take(j as int)),
                    decreases req.query.len() - j,
                {
                    assert(q.take(j + 1).drop_last() =~= q.take(j as int));
                    let ghost before = out@;
                    if j > 0 {
                        out.append(" ");
                    } else {
                        assert(q.take(0) =~= Seq::<(Seq<char>, Seq<char>)>::empty());
                    }
                    out.append("--data-urlencode '");
                    out.append(req.query[j].name.as_str());
                    out.append("=");
                    out.append(req.query[j].value.as_str());
                    out.append("'");
                    if j > 0 {
                        assert(out@ =~= before + (" "@ + query_item(q[j as int])));
                    } else {
                        assert(q.take(1) =~= seq![q[0]]);
                        assert(out@ =~= before + query_item(q[j as int]));
                    }
                    j = j + 1;
                }
                assert(q.take(req.query.len() as int) =~= q);
                assert(out@ =~= mid + (" "@ + query_text(q)));
            } else {
                assert(out@ =~= mid + Seq::<char>::empty());
            }
        },
    }
    out
}

/// The pipeline's segments with surrounding whitespace removed.
pub open spec fn trimmed_segments(input: Seq<char>) -> Seq<Seq<char>> {
    let segs = split_bars(input);
    Seq::new(segs.len(), |i: int| trim(segs[i]))
}

/// The pipeline with segment `pos` replaced by `rendered`, the segments
/// trimmed and joined with `" | "`.
pub open spec fn spliced(input: Seq<char>, pos: int, rendered: Seq<char>) -> Seq<char> {
    join_bars(trimmed_segments(input).update(pos, rendered))
}

/// The total UTF-8 length of some segments.
pub open spec fn sum_bytes(segs: Seq<Seq<char>>) -> nat
    decreases segs.len(),
{
    if segs.len() == 0 {
        0
    } else {
        sum_bytes(segs.drop_last()) + byte_len(segs.last())
    }
}

/// The cursor offset: the lengths of the trimmed segments before `pos`, plus
/// the length of the rewritten segment, less one (its last character).
pub open spec fn cursor_of(input: Seq<char>, pos: int, rendered: Seq<char>) -> int {
    sum_bytes(trimmed_segments(input).take(pos)) + byte_len(rendered) - 1
}

fn trimmed_pipeline(input: &str) -> (r: Vec<String>)
    ensures
        views(r@) == trimmed_segments(input@),
{
    let segs = split_pipeline(input);
    let mut out: Vec<String> = Vec::new();
    let mut i: usize = 0;
    while i < segs.len()
        invariant
            i <= segs.len(),
            views(segs@) == split_bars(input@),
            views(out@) == trimmed_segments(input@).take(i as int),
        decreases segs.len() - i,
    {
        let t = trim_text(segs[i].as_str());
        let ghost before = out@;
        assert(views(segs@)[i as int] == segs@[i as int]@);
        out.push(t);
        assert(views(out@) =~= views(before).push(t@));
        assert(views(out@) =~= trimmed_segments(input@).take(i + 1));
        i = i + 1;
    }
    assert(trimmed_segments(input@).take(segs.len() as int) =~= trimmed_segments(input@));
    out
}

/// Puts `rendered` in place of segment `pos` of the pipeline.
pub fn splice_pipeline(input: &str, pos: usize, rendered: &str) -> (r: String)
    requires
        pos < split_bars(input@).len(),
    ensures
        r@ == spliced(input@, pos as int, rendered@),
{
    let mut segs = trimmed_pipeline(input);
    assert(views(segs@).len() == segs@.len());
    let ghost before = segs@;
    segs.set(pos, rendered.to_owned());
    assert(views(segs@) =~= views(before).update(pos as int, rendered@));
    join_pipeline(&segs)
}

proof fn lemma_sum_prefix(segs: Seq<Seq<char>>, i: int)
    requires
        0 <= i <= segs.len(),
    ensures
        sum_bytes(segs.take(i)) <= sum_bytes(segs),
    decreases segs.len() - i,
{
    if i < segs.len() {
        lemma_sum_prefix(segs, i + 1);
        assert(segs.take(i + 1).drop_last() =~= segs.take(i));
    } else {
        assert(segs.take(i) =~= segs);
    }
}

/// The cursor offset after rewriting segment `pos` as `rendered`, or `None`
/// where it exceeds `usize`.
pub fn cursor_position(input: &str, pos: usize, rendered: &str) -> (r: Option<usize>)
    requires
        pos < split_bars(input@).len(),
        rendered@.len() > 0,
    ensures
        match r {
            Some(n) => n as int == cursor_of(input@, pos as int, rendered@),
            None => cursor_of(input@, pos as int, rendered@) >= usize::MAX,
        },
{
    let segs = trimmed_pipeline(input);
    let ghost tv = trimmed_segments(input@);
    assert(views(segs@).len() == segs@.len());
    let mut acc: usize = 0;
    let mut i: usize = 0;
    assert(tv.take(0) =~= Seq::<Seq<char>>::empty());
    while i < pos
        invariant
            i <= pos,
            pos < segs.len(),
            views(segs@) == tv,
            tv == trimmed_segments(input@),
            acc as int == sum_bytes(tv.take(i as int)),
        decreases pos - i,
    {
        assert(tv.take(i + 1).drop_last() =~= tv.take(i as int));
        assert(tv.take(i + 1).last() == tv[i as int]);
        assert(views(segs@)[i as int] == segs@[i as int]@);
        let b = match byte_length(segs[i].as_str()) {
            Some(b) => b,
            None => {
                proof {
                    lemma_sum_prefix(tv.take(pos as int), i + 1);
                    assert(tv.take(pos as int).take(i + 1) =~= tv.take(i + 1));
                }
                return None;
            },
        };
        match acc.checked_add(b) {
            Some(x) => {
                acc = x;
            },
            None => {
                proof {
                    lemma_sum_prefix(tv.take(pos as int), i + 1);
                    assert(tv.take(pos as int).take(i + 1) =~= tv.take(i + 1));
                }
                return None;
            },
        }
        i = i + 1;
    }
    let n = match byte_length(rendered) {
        Some(n) => n,
        None => {
            return None;
        },
    };
    assert(byte_len(rendered@) >= 1) by {
        assert(rendered@.len() > 0);
    }
    acc.checked_add(n - 1)
}

} // verus!
