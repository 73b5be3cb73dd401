//! The parameter table: every parameter of an operation, resolved, one per
//! name (a later declaration of a name replaces an earlier one), in
//! lexicographic order of names.

use vstd::prelude::*;
use crate::api::{
    resolved, parameter_components, resolve_parameter, CompletionError, Components, Operation,
    ParamView, SpecParameter,
};
use crate::text::{lex_lt, lemma_lex_irreflexive, lemma_lex_transitive, lemma_lex_total, name_less};

verus! {

/// The abstract values of a sequence of parameters.
pub open spec fn param_views(v: Seq<SpecParameter>) -> Seq<ParamView> {
    Seq::new(v.len(), |i: int| v[i]@)
}

/// Names strictly increase along the table.
pub open spec fn sorted_names(t: Seq<ParamView>) -> bool {
    forall|a: int, b: int| 0 <= a < b < t.len() ==> lex_lt(#[trigger] t[a].name, #[trigger] t[b].name)
}

/// No later parameter of `ps` has the name of the one at `j`.
pub open spec fn last_of_name(ps: Seq<ParamView>, j: int) -> bool {
    forall|k: int| j < k < ps.len() ==> #[trigger] ps[k].name != ps[j].name
}

/// Entry `i` of `t` is the parameter at `j` of `ps`, the last with its name.
pub open spec fn drawn_from(ps: Seq<ParamView>, t: Seq<ParamView>, i: int, j: int) -> bool {
    0 <= j < ps.len() && t[i] == ps[j] && last_of_name(ps, j)
}

/// Entry `i` of `t` has the name `k`.
pub open spec fn named_at(t: Seq<ParamView>, i: int, k: Seq<char>) -> bool {
    0 <= i < t.len() && t[i].name == k
}

/// Entry `i` of `t` is the last parameter of `ps` with its name.
pub open spec fn has_origin(ps: Seq<ParamView>, t: Seq<ParamView>, i: int) -> bool {
    exists|j: int| #[trigger] drawn_from(ps, t, i, j)
}

/// Some entry of `t` has the name `k`.
pub open spec fn has_name(t: Seq<ParamView>, k: Seq<char>) -> bool {
    exists|i: int| #[trigger] named_at(t, i, k)
}

/// `t` is the table of `ps`: sorted by name, each entry the last parameter of
/// `ps` with its name, and every name of `ps` present.
#[verifier::opaque]
pub open spec fn is_table_of(ps: Seq<ParamView>, t: Seq<ParamView>) -> bool {
    &&& sorted_names(t)
    &&& forall|i: int| 0 <= i < t.len() ==> #[trigger] has_origin(ps, t, i)
    &&& forall|j: int| 0 <= j < ps.len() ==> #[trigger] has_name(t, ps[j].name)
}

/// The table of `ps` (unique: see `lemma_table_unique`).
pub open spec fn table_of(ps: Seq<ParamView>) -> Seq<ParamView> {
    choose|t: Seq<ParamView>| is_table_of(ps, t)
}

/// Whether every parameter reference of `op` resolves.
pub open spec fn all_resolve(op: Operation, c: Option<Components>) -> bool {
    forall|i: int|
        0 <= i < op.parameters@.len() ==> (#[trigger] resolved(
            parameter_components(c),
            op.parameters@[i],
        )) is Some
}

/// The resolved parameters of `op`, in declaration order.
pub open spec fn resolved_parameters(op: Operation, c: Option<Components>) -> Seq<ParamView> {
    Seq::new(
        op.parameters@.len(),
        |i: int| resolved(parameter_components(c), op.parameters@[i]).unwrap()@,
    )
}

proof fn lemma_insert(ps: Seq<ParamView>, t: Seq<ParamView>, j: int, p: int)
    requires
        0 <= j < ps.len(),
        0 <= p <= t.len(),
        is_table_of(ps.take(j), t),
        forall|i: int| 0 <= i < p ==> lex_lt(t[i].name, ps[j].name),
        p < t.len() ==> lex_lt(ps[j].name, t[p].name),
    ensures
        is_table_of(ps.take(j + 1), t.insert(p, ps[j])),
{
    let x = ps[j];
    let old = ps.take(j);
    let nw = ps.take(j + 1);
    assert(nw[j] == ps[j]);
    assert(forall|k: int| 0 <= k < j ==> nw[k] == ps[k] && #[trigger] old[k] == ps[k]);
    let t2 = t.insert(p, x);
    reveal(is_table_of);
    assert forall|i: int| 0 <= i < t.len() implies t[i].name != x.name by {
        lemma_lex_irreflexive(x.name);
        if i > p {
            assert(lex_lt(t[p].name, t[i].name));
            lemma_lex_transitive(x.name, t[p].name, t[i].name);
        }
    }
    assert forall|a: int, b: int| 0 <= a < b < t2.len() implies lex_lt(
        #[trigger] t2[a].name,
        #[trigger] t2[b].name,
    ) by {
        if a < p && b > p {
            if b - 1 > p {
                assert(lex_lt(t[p].name, t[b - 1].name));
                lemma_lex_transitive(x.name, t[p].name, t[b - 1].name);
            }
            lemma_lex_transitive(t[a].name, x.name, t[b - 1].name);
        } else if a == p && b - 1 > p {
            assert(lex_lt(t[p].name, t[b - 1].name));
            lemma_lex_transitive(x.name, t[p].name, t[b - 1].name);
        } else if a > p {
            assert(lex_lt(t[a - 1].name, t[b - 1].name));
        } else if b < p {
            assert(lex_lt(t[a].name, t[b].name));
        }
    }
    assert forall|i: int| 0 <= i < t2.len() implies #[trigger] has_origin(nw, t2, i) by {
        if i == p {
            assert(drawn_from(nw, t2, i, j));
        } else {
            let ti = if i < p {
                i
            } else {
                i - 1
            };
            assert(t2[i] == t[ti]);
            assert(has_origin(old, t, ti));
            let jj = choose|jj: int| drawn_from(old, t, ti, jj);
            assert(t2[i] == nw[jj]);
            assert forall|k: int| jj < k < nw.len() implies #[trigger] nw[k].name != nw[jj].name by {
                if k < j {
                    assert(old[k] == nw[k]);
                }
            }
            assert(drawn_from(nw, t2, i, jj));
        }
    }
    assert forall|jj: int| 0 <= jj < nw.len() implies #[trigger] has_name(t2, nw[jj].name) by {
        if jj == j {
            assert(named_at(t2, p, nw[jj].name));
        } else {
            assert(old[jj] == nw[jj]);
            assert(has_name(t, old[jj].name));
            let i = choose|i: int| named_at(t, i, old[jj].name);
            if i < p {
                assert(named_at(t2, i, nw[jj].name));
            } else {
                assert(named_at(t2, i + 1, nw[jj].name));
            }
        }
    }
    assert(sorted_names(t2));
}

proof fn lemma_replace(ps: Seq<ParamView>, t: Seq<ParamView>, j: int, p: int)
    requires
        0 <= j < ps.len(),
        0 <= p < t.len(),
        is_table_of(ps.take(j), t),
        t[p].name == ps[j].name,
    ensures
        is_table_of(ps.take(j + 1), t.update(p, ps[j])),
{
    let x = ps[j];
    let old = ps.take(j);
    let nw = ps.take(j + 1);
    assert(nw[j] == ps[j]);
    assert(forall|k: int| 0 <= k < j ==> nw[k] == ps[k] && #[trigger] old[k] == ps[k]);
    let t2 = t.update(p, x);
    reveal(is_table_of);
    assert forall|a: int, b: int| 0 <= a < b < t2.len() implies lex_lt(
        #[trigger] t2[a].name,
        #[trigger] t2[b].name,
    ) by {
        assert(lex_lt(t[a].name, t[b].name));
    }
    assert forall|i: int| 0 <= i < t2.len() implies #[trigger] has_origin(nw, t2, i) by {
        if i == p {
            assert(drawn_from(nw, t2, i, j));
        } else {
            assert(t2[i] == t[i]);
            assert(has_origin(old, t, i));
            let jj = choose|jj: int| drawn_from(old, t, i, jj);
            assert(t2[i] == nw[jj]);
            assert forall|k: int| jj < k < nw.len() implies #[trigger] nw[k].name != nw[jj].name by {
                if k < j {
                    assert(old[k] == nw[k]);
                } else {
                    if i < p {
                        assert(lex_lt(t[i].name, t[p].name));
                    } else {
                        assert(lex_lt(t[p].name, t[i].name));
                    }
                    lemma_lex_irreflexive(t[i].name);
                }
            }
            assert(drawn_from(nw, t2, i, jj));
        }
    }
    assert forall|jj: int| 0 <= jj < nw.len() implies #[trigger] has_name(t2, nw[jj].name) by {
        if jj == j {
            assert(named_at(t2, p, nw[jj].name));
        } else {
            assert(old[jj] == nw[jj]);
            assert(has_name(t, old[jj].name));
            let i = choose|i: int| named_at(t, i, old[jj].name);
            assert(named_at(t2, i, nw[jj].name));
        }
    }
    assert(sorted_names(t2));
}

/// Arranges resolved parameters into their table.
pub fn arrange_parameters(ps: &Vec<SpecParameter>) -> (t: Vec<SpecParameter>)
    ensures
        is_table_of(param_views(ps@), param_views(t@)),
{
    let ghost pv = param_views(ps@);
    let mut t: Vec<SpecParameter> = Vec::new();
    let mut j: usize = 0;
    assert(pv.take(0) =~= Seq::<ParamView>::empty());
    assert(param_views(t@) =~= Seq::<ParamView>::empty());
    assert(is_table_of(pv.take(0), param_views(t@))) by {
        reveal(is_table_of);
    }
    while j < ps.len()
        invariant
            j <= ps.len(),
            pv == param_views(ps@),
            is_table_of(pv.take(j as int), param_views(t@)),
        decreases ps.len() - j,
    {
        let x = &ps[j];
        let mut p: usize = 0;
        while p < t.len() && name_less(t[p].name.as_str(), x.name.as_str())
            invariant
                p <= t.len(),
                forall|i: int| 0 <= i < p ==> lex_lt(param_views(t@)[i].name, x@.name),
            decreases t.len() - p,
        {
            p = p + 1;
        }
        let ghost tv = param_views(t@);
        assert(sorted_names(tv)) by {
            reveal(is_table_of);
        }
        if p < t.len() && t[p].name == x.name {
            proof {
                lemma_replace(pv, tv, j as int, p as int);
            }
            t.set(p, x.duplicate());
            assert(param_views(t@) =~= tv.update(p as int, pv[j as int]));
        } else {
            proof {
                if p < t.len() {
                    lemma_lex_total(tv[p as int].name, x@.name);
                }
                lemma_insert(pv, tv, j as int, p as int);
            }
            t.insert(p, x.duplicate());
            assert(param_views(t@) =~= tv.insert(p as int, pv[j as int]));
        }
        j = j + 1;
    }
    assert(pv.take(ps.len() as int) =~= pv);
    t
}

/// Resolves every parameter of `op` and arranges them into the table.
pub fn build_parameter_table(op: &Operation, c: &Option<Components>) -> (r: Result<
    Vec<SpecParameter>,
    CompletionError,
>)
    ensures
        match r {
            Ok(t) => all_resolve(*op, *c) && is_table_of(
                resolved_parameters(*op, *c),
                param_views(t@),
            ),
            Err(e) => !all_resolve(*op, *c) && e == CompletionError::UnresolvedReference,
        },
{
    let mut ps: Vec<SpecParameter> = Vec::new();
    let mut i: usize = 0;
    while i < op.parameters.len()
        invariant
            i <= op.parameters.len(),
            ps.len() == i,
            forall|k: int|
                0 <= k < i ==> (#[trigger] resolved(parameter_components(*c), op.parameters@[k]))
                    is Some,
            forall|k: int|
                0 <= k < i ==> #[trigger] param_views(ps@)[k] == resolved(
                    parameter_components(*c),
                    op.parameters@[k],
                ).unwrap()@,
        decreases op.parameters.len() - i,
    {
        match resolve_parameter(&op.parameters[i], c) {
            Ok(p) => {
                let ghost before = ps@;
                let d = p.duplicate();
                ps.push(d);
                assert(ps@[i as int] == d);
                assert forall|k: int| 0 <= k < i + 1 implies #[trigger] param_views(ps@)[k]
                    == resolved(parameter_components(*c), op.parameters@[k]).unwrap()@ by {
                    if k < i {
                        assert(ps@[k] == before[k]);
                        assert(param_views(before)[k] == before[k]@);
                    } else {
                        assert(resolved(parameter_components(*c), op.parameters@[k]) == Some(*p));
                        assert(d@ == p@);
                        assert(param_views(ps@)[k] == d@);
                    }
                }
            },
            Err(e) => {
                return Err(e);
            },
        }
        i = i + 1;
    }
    assert(param_views(ps@) =~= resolved_parameters(*op, *c));
    Ok(arrange_parameters(&ps))
}

} // verus!

verus! {

proof fn lemma_same_names(a: Seq<ParamView>, b: Seq<ParamView>)
    requires
        sorted_names(a),
        sorted_names(b),
        forall|i: int| 0 <= i < a.len() ==> #[trigger] has_name(b, a[i].name),
        forall|i: int| 0 <= i < b.len() ==> #[trigger] has_name(a, b[i].name),
    ensures
        a.len() == b.len(),
        forall|i: int| 0 <= i < a.len() ==> #[trigger] a[i].name == b[i].name,
    decreases a.len(),
{
    if a.len() == 0 {
        if b.len() > 0 {
            assert(has_name(a, b[0].name));
        }
    } else if b.len() == 0 {
        assert(has_name(b, a[0].name));
    } else {
        assert(has_name(b, a[0].name));
        assert(has_name(a, b[0].name));
        let k = choose|k: int| named_at(b, k, a[0].name);
        let m = choose|m: int| named_at(a, m, b[0].name);
        lemma_lex_irreflexive(a[0].name);
        lemma_lex_irreflexive(b[0].name);
        if k > 0 {
            assert(lex_lt(b[0].name, b[k].name));
            if m > 0 {
                assert(lex_lt(a[0].name, a[m].name));
                lemma_lex_transitive(a[0].name, b[0].name, a[0].name);
            }
        }
        assert(a[0].name == b[0].name);
        let a1 = a.drop_first();
        let b1 = b.drop_first();
        assert forall|x: int, y: int| 0 <= x < y < a1.len() implies lex_lt(
            #[trigger] a1[x].name,
            #[trigger] a1[y].name,
        ) by {
            assert(lex_lt(a[x + 1].name, a[y + 1].name));
        }
        assert forall|x: int, y: int| 0 <= x < y < b1.len() implies lex_lt(
            #[trigger] b1[x].name,
            #[trigger] b1[y].name,
        ) by {
            assert(lex_lt(b[x + 1].name, b[y + 1].name));
        }
        assert forall|i: int| 0 <= i < a1.len() implies #[trigger] has_name(b1, a1[i].name) by {
            assert(has_name(b, a[i + 1].name));
            let x = a[i + 1].name;
            let k = choose|k: int| named_at(b, k, x);
            assert(lex_lt(a[0].name, a[i + 1].name));
            assert(named_at(b1, k - 1, a1[i].name));
        }
        assert forall|i: int| 0 <= i < b1.len() implies #[trigger] has_name(a1, b1[i].name) by {
            assert(has_name(a, b[i + 1].name));
            let x = b[i + 1].name;
            let k = choose|k: int| named_at(a, k, x);
            assert(lex_lt(b[0].name, b[i + 1].name));
            assert(named_at(a1, k - 1, b1[i].name));
        }
        lemma_same_names(a1, b1);
        assert forall|i: int| 0 <= i < a.len() implies #[trigger] a[i].name == b[i].name by {
            if i > 0 {
                assert(a1[i - 1].name == b1[i - 1].name);
            }
        }
    }
}

/// The table of a list of parameters is unique: at most one sequence is the
/// table of `ps`.
pub proof fn lemma_table_unique(ps: Seq<ParamView>, t1: Seq<ParamView>, t2: Seq<ParamView>)
    requires
        is_table_of(ps, t1),
        is_table_of(ps, t2),
    ensures
        t1 == t2,
{
    reveal(is_table_of);
    assert forall|i: int| 0 <= i < t1.len() implies #[trigger] has_name(t2, t1[i].name) by {
        assert(has_origin(ps, t1, i));
        let j = choose|j: int| drawn_from(ps, t1, i, j);
        assert(has_name(t2, ps[j].name));
    }
    assert forall|i: int| 0 <= i < t2.len() implies #[trigger] has_name(t1, t2[i].name) by {
        assert(has_origin(ps, t2, i));
        let j = choose|j: int| drawn_from(ps, t2, i, j);
        assert(has_name(t1, ps[j].name));
    }
    lemma_same_names(t1, t2);
    assert forall|i: int| 0 <= i < t1.len() implies #[trigger] t1[i] == t2[i] by {
        assert(has_origin(ps, t1, i));
        assert(has_origin(ps, t2, i));
        let j1 = choose|j: int| drawn_from(ps, t1, i, j);
        let j2 = choose|j: int| drawn_from(ps, t2, i, j);
        assert(t1[i].name == t2[i].name);
        if j1 < j2 {
            assert(ps[j2].name != ps[j1].name);
        } else if j2 < j1 {
            assert(ps[j1].name != ps[j2].name);
        }
    }
    assert(t1 =~= t2);
}

} // verus!
