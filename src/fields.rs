//! Ordered name/value collections: the headers and the query fields of a
//! request. Lookup takes the first entry of a name; assignment replaces the
//! first entry of that name in place (dropping any later ones) or appends.

use vstd::prelude::*;

verus! {

/// One header or query field.
pub struct Field {
    pub name: String,
    pub value: String,
}

impl View for Field {
    type V = (Seq<char>, Seq<char>);

    open spec fn view(&self) -> (Seq<char>, Seq<char>) {
        (self.name@, self.value@)
    }
}

impl Field {
    pub fn new(name: &str, value: &str) -> (r: Field)
        ensures
            r@ == (name@, value@),
    {
        Field { name: name.to_owned(), value: value.to_owned() }
    }

    pub fn duplicate(&self) -> (r: Field)
        ensures
            r@ == self@,
    {
        Field { name: self.name.clone(), value: self.value.clone() }
    }
}

/// The abstract contents of a field list.
pub open spec fn pairs(v: Seq<Field>) -> Seq<(Seq<char>, Seq<char>)> {
    Seq::new(v.len(), |i: int| v[i]@)
}

/// The value of the first entry named `k`.
pub open spec fn lookup(fs: Seq<(Seq<char>, Seq<char>)>, k: Seq<char>) -> Option<Seq<char>>
    decreases fs.len(),
{
    if fs.len() == 0 {
        None
    } else if fs[0].0 == k {
        Some(fs[0].1)
    } else {
        lookup(fs.drop_first(), k)
    }
}

/// The list without any entry named `k`, the others in their order.
pub open spec fn without(fs: Seq<(Seq<char>, Seq<char>)>, k: Seq<char>) -> Seq<(Seq<char>, Seq<char>)>
    decreases fs.len(),
{
    if fs.len() == 0 {
        fs
    } else if fs[0].0 == k {
        without(fs.drop_first(), k)
    } else {
        seq![fs[0]] + without(fs.drop_first(), k)
    }
}

/// The list with `k` set to `v`: the first entry named `k` takes the value in
/// place and later entries of that name go; with no such entry, one is appended.
pub open spec fn assign(fs: Seq<(Seq<char>, Seq<char>)>, k: Seq<char>, v: Seq<char>) -> Seq<
    (Seq<char>, Seq<char>),
>
    decreases fs.len(),
{
    if fs.len() == 0 {
        seq![(k, v)]
    } else if fs[0].0 == k {
        seq![(k, v)] + without(fs.drop_first(), k)
    } else {
        seq![fs[0]] + assign(fs.drop_first(), k, v)
    }
}

/// Whether some entry named `k` has a non-empty value.
pub open spec fn is_populated(fs: Seq<(Seq<char>, Seq<char>)>, k: Seq<char>) -> bool {
    exists|j: int| 0 <= j < fs.len() && fs[j].0 == k && fs[j].1.len() > 0
}

proof fn lemma_skip_step<A>(s: Seq<A>, i: int)
    requires
        0 <= i < s.len(),
    ensures
        s.skip(i).drop_first() == s.skip(i + 1),
        s.skip(i)[0] == s[i],
        s.skip(i).len() > 0,
{
    assert(s.skip(i).drop_first() =~= s.skip(i + 1));
}

pub fn find_field(fs: &Vec<Field>, k: &str) -> (r: Option<usize>)
    ensures
        match r {
            Some(j) => j < fs.len() && lookup(pairs(fs@), k@) == Some(fs@[j as int].value@),
            None => lookup(pairs(fs@), k@) is None,
        },
{
    let key = k.to_owned();
    let mut i: usize = 0;
    assert(pairs(fs@).skip(0) =~= pairs(fs@));
    while i < fs.len()
        invariant
            i <= fs.len(),
            key@ == k@,
            lookup(pairs(fs@), k@) == lookup(pairs(fs@).skip(i as int), k@),
        decreases fs.len() - i,
    {
        proof {
            lemma_skip_step(pairs(fs@), i as int);
        }
        if fs[i].name == key {
            return Some(i);
        }
        i = i + 1;
    }
    None
}

/// The value of the first entry named `k`.
pub fn get_field<'a>(fs: &'a Vec<Field>, k: &str) -> (r: Option<&'a String>)
    ensures
        match r {
            Some(v) => lookup(pairs(fs@), k@) == Some(v@),
            None => lookup(pairs(fs@), k@) is None,
        },
{
    match find_field(fs, k) {
        Some(j) => Some(&fs[j].value),
        None => None,
    }
}

pub fn remove_field(fs: &mut Vec<Field>, k: &str)
    ensures
        pairs(final(fs)@) == without(pairs(old(fs)@), k@),
{
    let key = k.to_owned();
    let mut out: Vec<Field> = Vec::new();
    let mut i: usize = 0;
    assert(pairs(fs@).skip(0) =~= pairs(fs@));
    while i < fs.len()
        invariant
            i <= fs.len(),
            key@ == k@,
            without(pairs(fs@), k@) == pairs(out@) + without(pairs(fs@).skip(i as int), k@),
        decreases fs.len() - i,
    {
        proof {
            lemma_skip_step(pairs(fs@), i as int);
        }
        if !(fs[i].name == key) {
            let ghost before = out@;
            out.push(fs[i].duplicate());
            assert(pairs(out@) =~= pairs(before).push(fs@[i as int]@));
            assert(pairs(before) + (seq![fs@[i as int]@] + without(pairs(fs@).skip(i + 1), k@))
                =~= pairs(out@) + without(pairs(fs@).skip(i + 1), k@));
        }
        i = i + 1;
    }
    assert(pairs(fs@).skip(fs.len() as int) =~= Seq::<(Seq<char>, Seq<char>)>::empty());
    assert(pairs(out@) + Seq::<(Seq<char>, Seq<char>)>::empty() =~= pairs(out@));
    *fs = out;
}

pub fn assign_field(fs: &mut Vec<Field>, k: &str, v: &str)
    ensures
        pairs(final(fs)@) == assign(pairs(old(fs)@), k@, v@),
{
    let key = k.to_owned();
    let mut out: Vec<Field> = Vec::new();
    let mut placed = false;
    let mut i: usize = 0;
    assert(pairs(fs@).skip(0) =~= pairs(fs@));
    while i < fs.len()
        invariant
            i <= fs.len(),
            key@ == k@,
            !placed ==> assign(pairs(fs@), k@, v@) == pairs(out@) + assign(
                pairs(fs@).skip(i as int),
                k@,
                v@,
            ),
            placed ==> assign(pairs(fs@), k@, v@) == pairs(out@) + without(
                pairs(fs@).skip(i as int),
                k@,
            ),
        decreases fs.len() - i,
    {
        proof {
            lemma_skip_step(pairs(fs@), i as int);
        }
        let ghost before = out@;
        let ghost rest = pairs(fs@).skip(i + 1);
        if fs[i].name == key {
            if !placed {
                out.push(Field::new(k, v));
                assert(pairs(out@) =~= pairs(before).push((k@, v@)));
                assert(pairs(before) + (seq![(k@, v@)] + without(rest, k@)) =~= pairs(out@)
                    + without(rest, k@));
                placed = true;
            }
        } else {
            out.push(fs[i].duplicate());
            assert(pairs(out@) =~= pairs(before).push(fs@[i as int]@));
            assert(pairs(before) + (seq![fs@[i as int]@] + without(rest, k@)) =~= pairs(out@)
                + without(rest, k@));
            assert(pairs(before) + (seq![fs@[i as int]@] + assign(rest, k@, v@)) =~= pairs(out@)
                + assign(rest, k@, v@));
        }
        i = i + 1;
    }
    let ghost empty = pairs(fs@).skip(fs.len() as int);
    assert(empty =~= Seq::<(Seq<char>, Seq<char>)>::empty());
    if !placed {
        let ghost before = out@;
        out.push(Field::new(k, v));
        assert(pairs(out@) =~= pairs(before) + seq![(k@, v@)]);
    } else {
        assert(pairs(out@) + empty =~= pairs(out@));
    }
    *fs = out;
}

/// Whether some entry named `k` has a non-empty value.
pub fn has_populated(fs: &Vec<Field>, k: &str) -> (r: bool)
    ensures
        r == is_populated(pairs(fs@), k@),
{
    let key = k.to_owned();
    let mut i: usize = 0;
    while i < fs.len()
        invariant
            i <= fs.len(),
            key@ == k@,
            forall|j: int| 0 <= j < i ==> !(pairs(fs@)[j].0 == k@ && pairs(fs@)[j].1.len() > 0),
        decreases fs.len() - i,
    {
        if fs[i].name == key && !fs[i].value.as_str().is_empty() {
            assert(pairs(fs@)[i as int].0 == k@ && pairs(fs@)[i as int].1.len() > 0);
            return true;
        }
        i = i + 1;
    }
    false
}

} // verus!
