//! The generic document tree that decoders produce, and the flattening
//! algorithm that turns it into a single-level key/value map.
use vstd::prelude::*;
use vstd::string::*;
use crate::strutil::dec_chars;

verus! {

/// A scalar leaf of a decoded document. Numbers are carried as their
/// literal text; whether such text denotes a metric value is decided
/// later, when the reconciler coerces it.
#[derive(Debug)]
pub enum Leaf {
    Num(String),
    Str(String),
    Bool(bool),
    Null,
}

/// Mathematical value of a [`Leaf`].
pub enum LeafV {
    Num(Seq<char>),
    Str(Seq<char>),
    Bool(bool),
    Null,
}

impl View for Leaf {
    type V = LeafV;

    open spec fn view(&self) -> LeafV {
        match self {
            Leaf::Num(s) => LeafV::Num(s@),
            Leaf::Str(s) => LeafV::Str(s@),
            Leaf::Bool(b) => LeafV::Bool(*b),
            Leaf::Null => LeafV::Null,
        }
    }
}

/// Copies a leaf, preserving its value.
pub fn clone_leaf(l: &Leaf) -> (r: Leaf)
    ensures
        r@ == l@,
{
    match l {
        Leaf::Num(s) => Leaf::Num(s.clone()),
        Leaf::Str(s) => Leaf::Str(s.clone()),
        Leaf::Bool(b) => Leaf::Bool(*b),
        Leaf::Null => Leaf::Null,
    }
}

/// A structured document: nested mappings and sequences with scalar leaves.
#[derive(Debug)]
pub enum Tree {
    Obj(Vec<(String, Tree)>),
    Arr(Vec<Tree>),
    Leaf(Leaf),
}

/// Key-path join for a mapping child: the child key alone when the running
/// prefix is empty, else the prefix, a double underscore, and the key.
pub open spec fn join_key(prefix: Seq<char>, k: Seq<char>) -> Seq<char> {
    if prefix.len() == 0 {
        k
    } else {
        prefix + "__"@ + k
    }
}

/// Key-path join for a sequence element: always a double underscore and the
/// decimal index, even when the running prefix is empty.
pub open spec fn join_index(prefix: Seq<char>, i: nat) -> Seq<char> {
    prefix + "__"@ + dec_chars(i)
}

/// The flattened (path, value) pairs of `t` under `prefix`, in depth-first
/// order, duplicates included.
pub open spec fn flat_pairs(t: Tree, prefix: Seq<char>) -> Seq<(Seq<char>, LeafV)>
    decreases t,
{
    match t {
        Tree::Leaf(l) => seq![(prefix, l@)],
        Tree::Obj(es) => obj_pairs(es@, prefix),
        Tree::Arr(es) => arr_pairs(es@, prefix, 0),
    }
}

/// Flattened pairs of the children of a mapping node, in order.
pub open spec fn obj_pairs(es: Seq<(String, Tree)>, prefix: Seq<char>) -> Seq<
    (Seq<char>, LeafV),
>
    decreases es,
{
    if es.len() == 0 {
        Seq::empty()
    } else {
        flat_pairs(es[0].1, join_key(prefix, es[0].0@)) + obj_pairs(es.drop_first(), prefix)
    }
}

/// Flattened pairs of the elements of a sequence node, numbering from `idx`.
pub open spec fn arr_pairs(es: Seq<Tree>, prefix: Seq<char>, idx: nat) -> Seq<
    (Seq<char>, LeafV),
>
    decreases es,
{
    if es.len() == 0 {
        Seq::empty()
    } else {
        flat_pairs(es[0], join_index(prefix, idx)) + arr_pairs(es.drop_first(), prefix, idx + 1)
    }
}

/// Applies `ps` to `m` in order, later pairs overwriting earlier ones.
pub open spec fn apply_pairs(
    m: Map<Seq<char>, LeafV>,
    ps: Seq<(Seq<char>, LeafV)>,
) -> Map<Seq<char>, LeafV>
    decreases ps.len(),
{
    if ps.len() == 0 {
        m
    } else {
        apply_pairs(m.insert(ps[0].0, ps[0].1), ps.drop_first())
    }
}

/// The flat map of a whole document: its pairs applied to the empty map,
/// last write winning at any duplicated path.
pub open spec fn flat_map_of(t: Tree) -> Map<Seq<char>, LeafV> {
    apply_pairs(Map::<Seq<char>, LeafV>::empty(), flat_pairs(t, Seq::empty()))
}

/// Applying a concatenation applies the first part, then the second.
pub proof fn lemma_apply_pairs_concat(
    m: Map<Seq<char>, LeafV>,
    a: Seq<(Seq<char>, LeafV)>,
    b: Seq<(Seq<char>, LeafV)>,
)
    ensures
        apply_pairs(m, a + b) == apply_pairs(apply_pairs(m, a), b),
    decreases a.len(),
{
    if a.len() == 0 {
        assert(a + b =~= b);
    } else {
        assert((a + b)[0] == a[0]);
        assert((a + b).drop_first() =~= a.drop_first() + b);
        lemma_apply_pairs_concat(m.insert(a[0].0, a[0].1), a.drop_first(), b);
    }
}

/// A mapping child appended at the end contributes its pairs at the end.
pub proof fn lemma_obj_pairs_push(
    es: Seq<(String, Tree)>,
    x: (String, Tree),
    prefix: Seq<char>,
)
    ensures
        obj_pairs(es.push(x), prefix) == obj_pairs(es, prefix) + flat_pairs(
            x.1,
            join_key(prefix, x.0@),
        ),
    decreases es.len(),
{
    if es.len() == 0 {
        assert(es.push(x)[0] == x);
        assert(es.push(x).drop_first() =~= Seq::<(String, Tree)>::empty());
        assert(obj_pairs(es.push(x).drop_first(), prefix) == Seq::<(Seq<char>, LeafV)>::empty());
        assert(obj_pairs(es.push(x), prefix) =~= obj_pairs(es, prefix) + flat_pairs(
            x.1,
            join_key(prefix, x.0@),
        ));
    } else {
        let h = flat_pairs(es[0].1, join_key(prefix, es[0].0@));
        let f = flat_pairs(x.1, join_key(prefix, x.0@));
        assert(es.push(x)[0] == es[0]);
        assert(es.push(x).drop_first() =~= es.drop_first().push(x));
        assert(es.push(x).len() == es.len() + 1);
        assert(obj_pairs(es.push(x), prefix) == h + obj_pairs(es.drop_first().push(x), prefix));
        lemma_obj_pairs_push(es.drop_first(), x, prefix);
        assert(h + (obj_pairs(es.drop_first(), prefix) + f) =~= (h + obj_pairs(
            es.drop_first(),
            prefix,
        )) + f);
    }
}

/// A sequence element appended at the end contributes its pairs at the end,
/// numbered past the elements before it.
pub proof fn lemma_arr_pairs_push(es: Seq<Tree>, x: Tree, prefix: Seq<char>, idx: nat)
    ensures
        arr_pairs(es.push(x), prefix, idx) == arr_pairs(es, prefix, idx) + flat_pairs(
            x,
            join_index(prefix, idx + es.len()),
        ),
    decreases es.len(),
{
    if es.len() == 0 {
        assert(es.push(x)[0] == x);
        assert(es.push(x).drop_first() =~= Seq::<Tree>::empty());
        assert(arr_pairs(es.push(x).drop_first(), prefix, idx + 1) == Seq::<
            (Seq<char>, LeafV),
        >::empty());
        assert(arr_pairs(es.push(x), prefix, idx) =~= arr_pairs(es, prefix, idx) + flat_pairs(
            x,
            join_index(prefix, idx + es.len()),
        ));
    } else {
        let h = flat_pairs(es[0], join_index(prefix, idx));
        let f = flat_pairs(x, join_index(prefix, idx + es.len()));
        assert(es.push(x)[0] == es[0]);
        assert(es.push(x).drop_first() =~= es.drop_first().push(x));
        assert(es.push(x).len() == es.len() + 1);
        assert(arr_pairs(es.push(x), prefix, idx) == h + arr_pairs(
            es.drop_first().push(x),
            prefix,
            idx + 1,
        ));
        lemma_arr_pairs_push(es.drop_first(), x, prefix, idx + 1);
        assert((idx + 1) + es.drop_first().len() == idx + es.len());
        assert(h + (arr_pairs(es.drop_first(), prefix, idx + 1) + f) =~= (h + arr_pairs(
            es.drop_first(),
            prefix,
            idx + 1,
        )) + f);
    }
}

} // verus!
