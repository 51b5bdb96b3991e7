//! Depth-first flattening of a document tree into a flat key/value map.
use vstd::prelude::*;
use vstd::string::*;
use crate::flatmap::FlatMap;
use crate::strutil::usize_to_string;
use crate::tree::{
    apply_pairs, arr_pairs, clone_leaf, flat_map_of, flat_pairs, join_index, join_key,
    lemma_apply_pairs_concat, lemma_arr_pairs_push, lemma_obj_pairs_push, obj_pairs, LeafV, Tree,
};

verus! {

/// Joins the running prefix with a mapping key: the key alone when the
/// prefix is empty, else prefix, double underscore, key.
pub fn join_key_exec(prefix: &str, k: &str) -> (r: String)
    ensures
        r@ == join_key(prefix@, k@),
{
    if prefix.unicode_len() == 0 {
        k.to_owned()
    } else {
        let mut s = prefix.to_owned();
        s.append("__");
        s.append(k);
        s
    }
}

/// Joins the running prefix with a sequence index: always a double
/// underscore and the decimal index, even under an empty prefix.
pub fn join_index_exec(prefix: &str, i: usize) -> (r: String)
    ensures
        r@ == join_index(prefix@, i as nat),
{
    let mut s = prefix.to_owned();
    s.append("__");
    let d = usize_to_string(i);
    s.append(d.as_str());
    s
}

/// Flattens `t` beneath `prefix` into `fm`, later leaves overwriting
/// earlier ones at the same flattened path.
pub fn flatten_into(t: &Tree, prefix: &str, fm: &mut FlatMap)
    requires
        old(fm).wf(),
    ensures
        final(fm).wf(),
        final(fm)@ == apply_pairs(old(fm)@, flat_pairs(*t, prefix@)),
    decreases *t,
{
    match t {
        Tree::Leaf(l) => {
            let ghost q = flat_pairs(*t, prefix@);
            fm.insert(prefix.to_owned(), clone_leaf(l));
            proof {
                assert(q[0] == (prefix@, l@));
                assert(q.drop_first() =~= Seq::<(Seq<char>, LeafV)>::empty());
                assert(apply_pairs(old(fm)@.insert(prefix@, l@), q.drop_first()) == old(
                    fm,
                )@.insert(prefix@, l@));
                assert(apply_pairs(old(fm)@, q) == old(fm)@.insert(prefix@, l@));
            }
        },
        Tree::Obj(es) => {
            let ghost fm0 = *fm;
            let n = es.len();
            let mut i: usize = 0;
            while i < n
                invariant
                    *t == Tree::Obj(*es),
                    fm.wf(),
                    n == es@.len(),
                    i <= n,
                    fm@ == apply_pairs(fm0@, obj_pairs(es@.take(i as int), prefix@)),
                decreases n - i,
            {
                let pair = &es[i];
                let np = join_key_exec(prefix, pair.0.as_str());
                proof {
                    assert(decreases_to!(*t => t->Obj_0));
                    assert(t->Obj_0 == *es);
                    assert(decreases_to!(*es => es@));
                    assert(decreases_to!(es@ => es@[i as int]));
                    assert(decreases_to!(es@[i as int] => es@[i as int].1));
                }
                flatten_into(&pair.1, np.as_str(), fm);
                proof {
                    assert(es@.take(i + 1) =~= es@.take(i as int).push(es@[i as int]));
                    lemma_obj_pairs_push(es@.take(i as int), es@[i as int], prefix@);
                    lemma_apply_pairs_concat(
                        fm0@,
                        obj_pairs(es@.take(i as int), prefix@),
                        flat_pairs(es@[i as int].1, join_key(prefix@, es@[i as int].0@)),
                    );
                }
                i = i + 1;
            }
            proof {
                assert(es@.take(n as int) =~= es@);
            }
        },
        Tree::Arr(es) => {
            let ghost fm0 = *fm;
            let n = es.len();
            let mut i: usize = 0;
            while i < n
                invariant
                    *t == Tree::Arr(*es),
                    fm.wf(),
                    n == es@.len(),
                    i <= n,
                    fm@ == apply_pairs(fm0@, arr_pairs(es@.take(i as int), prefix@, 0)),
                decreases n - i,
            {
                let np = join_index_exec(prefix, i);
                proof {
                    assert(decreases_to!(*t => t->Arr_0));
                    assert(t->Arr_0 == *es);
                    assert(decreases_to!(*es => es@));
                    assert(decreases_to!(es@ => es@[i as int]));
                }
                flatten_into(&es[i], np.as_str(), fm);
                proof {
                    assert(es@.take(i + 1) =~= es@.take(i as int).push(es@[i as int]));
                    lemma_arr_pairs_push(es@.take(i as int), es@[i as int], prefix@, 0);
                    assert(0 + es@.take(i as int).len() == i as nat);
                    lemma_apply_pairs_concat(
                        fm0@,
                        arr_pairs(es@.take(i as int), prefix@, 0),
                        flat_pairs(es@[i as int], join_index(prefix@, i as nat)),
                    );
                }
                i = i + 1;
            }
            proof {
                assert(es@.take(n as int) =~= es@);
            }
        },
    }
}

/// Flattens a whole document: depth-first traversal from an empty prefix,
/// producing the flat map in which the last write at a path wins.
pub fn flatten(t: &Tree) -> (r: FlatMap)
    ensures
        r.wf(),
        r@ == flat_map_of(*t),
{
    let mut fm = FlatMap::new();
    let e = "";
    proof {
        reveal_strlit("");
        assert(e@ =~= Seq::<char>::empty());
    }
    flatten_into(t, e, &mut fm);
    fm
}

} // verus!
