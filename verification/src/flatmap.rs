//! The flat key/value map a decoder hands to the reconciler: an association
//! list with unique keys whose mathematical value is a `Map` built by
//! last-write-wins insertion.
use vstd::prelude::*;
use vstd::string::*;
use crate::strutil::str_eq;
use crate::tree::{apply_pairs, lemma_apply_pairs_concat, Leaf, LeafV};

verus! {

/// The set of path keys occurring in `ps`.
pub open spec fn keys_of_pairs(ps: Seq<(Seq<char>, LeafV)>) -> Set<Seq<char>> {
    Set::new(|k: Seq<char>| exists|i: int| 0 <= i < ps.len() && (#[trigger] ps[i]).0 == k)
}

/// Keys pairwise distinct.
pub open spec fn unique_keys(ps: Seq<(Seq<char>, LeafV)>) -> bool {
    forall|i: int, j: int|
        0 <= i < j < ps.len() ==> (#[trigger] ps[i]).0 != (#[trigger] ps[j]).0
}

/// If `k` occurs in none of `qs`, applying `qs` commutes with inserting `k`.
proof fn lemma_apply_insert_commute(
    m: Map<Seq<char>, LeafV>,
    qs: Seq<(Seq<char>, LeafV)>,
    k: Seq<char>,
    v: LeafV,
)
    requires
        !keys_of_pairs(qs).contains(k),
    ensures
        apply_pairs(m, qs).insert(k, v) == apply_pairs(m.insert(k, v), qs),
    decreases qs.len(),
{
    if qs.len() == 0 {
    } else {
        assert(qs[0].0 != k);
        assert(!keys_of_pairs(qs.drop_first()).contains(k)) by {
            if keys_of_pairs(qs.drop_first()).contains(k) {
                let i = choose|i: int|
                    0 <= i < qs.drop_first().len() && (#[trigger] qs.drop_first()[i]).0 == k;
                assert(qs[i + 1].0 == k);
            }
        }
        lemma_apply_insert_commute(m.insert(qs[0].0, qs[0].1), qs.drop_first(), k, v);
        assert(m.insert(qs[0].0, qs[0].1).insert(k, v) =~= m.insert(k, v).insert(
            qs[0].0,
            qs[0].1,
        ));
    }
}

/// If `k` occurs in none of `qs`, applying `qs` does not touch `k`.
proof fn lemma_apply_untouched(
    m: Map<Seq<char>, LeafV>,
    qs: Seq<(Seq<char>, LeafV)>,
    k: Seq<char>,
)
    requires
        !keys_of_pairs(qs).contains(k),
    ensures
        apply_pairs(m, qs).contains_key(k) == m.contains_key(k),
        m.contains_key(k) ==> apply_pairs(m, qs)[k] == m[k],
    decreases qs.len(),
{
    if qs.len() == 0 {
    } else {
        assert(qs[0].0 != k);
        assert(!keys_of_pairs(qs.drop_first()).contains(k)) by {
            if keys_of_pairs(qs.drop_first()).contains(k) {
                let i = choose|i: int|
                    0 <= i < qs.drop_first().len() && (#[trigger] qs.drop_first()[i]).0 == k;
                assert(qs[i + 1].0 == k);
            }
        }
        lemma_apply_untouched(m.insert(qs[0].0, qs[0].1), qs.drop_first(), k);
    }
}

/// The domain after applying pairs is the old domain plus the pairs' keys.
pub proof fn lemma_apply_dom(m: Map<Seq<char>, LeafV>, ps: Seq<(Seq<char>, LeafV)>)
    ensures
        apply_pairs(m, ps).dom() =~= m.dom() + keys_of_pairs(ps),
    decreases ps.len(),
{
    if ps.len() == 0 {
        assert(keys_of_pairs(ps) =~= Set::<Seq<char>>::empty());
    } else {
        lemma_apply_dom(m.insert(ps[0].0, ps[0].1), ps.drop_first());
        assert(keys_of_pairs(ps) =~= keys_of_pairs(ps.drop_first()).insert(ps[0].0)) by {
            assert forall|k: Seq<char>| keys_of_pairs(ps).contains(k) implies keys_of_pairs(
                ps.drop_first(),
            ).insert(ps[0].0).contains(k) by {
                let i = choose|i: int| 0 <= i < ps.len() && (#[trigger] ps[i]).0 == k;
                if i > 0 {
                    assert(ps.drop_first()[i - 1].0 == k);
                }
            }
            assert forall|k: Seq<char>|
                keys_of_pairs(ps.drop_first()).insert(ps[0].0).contains(k) implies keys_of_pairs(
                ps,
            ).contains(k) by {
                if k == ps[0].0 {
                    assert(ps[0].0 == k);
                } else {
                    let i = choose|i: int|
                        0 <= i < ps.drop_first().len() && (#[trigger] ps.drop_first()[i]).0 == k;
                    assert(ps[i + 1].0 == k);
                }
            }
        }
    }
}

/// In-place update of the pair at `i` changes the applied map by one insert,
/// provided keys are unique.
proof fn lemma_apply_update(
    m: Map<Seq<char>, LeafV>,
    ps: Seq<(Seq<char>, LeafV)>,
    i: int,
    v: LeafV,
)
    requires
        unique_keys(ps),
        0 <= i < ps.len(),
    ensures
        apply_pairs(m, ps.update(i, (ps[i].0, v))) == apply_pairs(m, ps).insert(ps[i].0, v),
    decreases ps.len(),
{
    let k = ps[i].0;
    if i == 0 {
        assert(!keys_of_pairs(ps.drop_first()).contains(k)) by {
            if keys_of_pairs(ps.drop_first()).contains(k) {
                let j = choose|j: int|
                    0 <= j < ps.drop_first().len() && (#[trigger] ps.drop_first()[j]).0 == k;
                assert(ps[j + 1].0 == k);
            }
        }
        assert(ps.update(0, (k, v)).drop_first() =~= ps.drop_first());
        assert(ps.update(0, (k, v))[0] == (k, v));
        lemma_apply_insert_commute(m.insert(k, ps[0].1), ps.drop_first(), k, v);
        assert(m.insert(k, ps[0].1).insert(k, v) =~= m.insert(k, v));
        assert(apply_pairs(m, ps.update(0, (k, v))) == apply_pairs(
            m.insert(k, v),
            ps.drop_first(),
        ));
    } else {
        assert(ps.update(i, (k, v)).drop_first() =~= ps.drop_first().update(i - 1, (k, v)));
        assert(ps.drop_first()[i - 1] == ps[i]);
        assert(unique_keys(ps.drop_first())) by {
            assert forall|a: int, b: int|
                0 <= a < b < ps.drop_first().len() implies (#[trigger] ps.drop_first()[a]).0 != (
            #[trigger] ps.drop_first()[b]).0 by {
                assert(ps[a + 1].0 != ps[b + 1].0);
            }
        }
        lemma_apply_update(m.insert(ps[0].0, ps[0].1), ps.drop_first(), i - 1, v);
        assert(ps.update(i, (k, v))[0] == ps[0]);
    }
}

/// Looking up a key of `qs` in the applied map yields the value paired with
/// it, provided keys are unique.
pub proof fn lemma_apply_lookup(
    m: Map<Seq<char>, LeafV>,
    qs: Seq<(Seq<char>, LeafV)>,
    i: int,
)
    requires
        unique_keys(qs),
        0 <= i < qs.len(),
    ensures
        apply_pairs(m, qs).contains_key(qs[i].0),
        apply_pairs(m, qs)[qs[i].0] == qs[i].1,
    decreases qs.len(),
{
    if i == 0 {
        assert(!keys_of_pairs(qs.drop_first()).contains(qs[0].0)) by {
            if keys_of_pairs(qs.drop_first()).contains(qs[0].0) {
                let j = choose|j: int|
                    0 <= j < qs.drop_first().len() && (#[trigger] qs.drop_first()[j]).0 == qs[0].0;
                assert(qs[j + 1].0 == qs[0].0);
            }
        }
        lemma_apply_untouched(m.insert(qs[0].0, qs[0].1), qs.drop_first(), qs[0].0);
    } else {
        assert(unique_keys(qs.drop_first())) by {
            assert forall|a: int, b: int|
                0 <= a < b < qs.drop_first().len() implies (#[trigger] qs.drop_first()[a]).0 != (
            #[trigger] qs.drop_first()[b]).0 by {
                assert(qs[a + 1].0 != qs[b + 1].0);
            }
        }
        assert(qs.drop_first()[i - 1] == qs[i]);
        lemma_apply_lookup(m.insert(qs[0].0, qs[0].1), qs.drop_first(), i - 1);
    }
}

/// A well-formed map's value contains exactly the entry keys.
pub proof fn lemma_view_dom(fm: &FlatMap)
    ensures
        fm@.dom() == keys_of_pairs(fm.entries_view()),
{
    lemma_apply_dom(Map::<Seq<char>, LeafV>::empty(), fm.entries_view());
    assert(fm@.dom() =~= keys_of_pairs(fm.entries_view()));
}

/// In a well-formed map, the entry at `i` is what the map holds at its key.
pub proof fn lemma_view_entry(fm: &FlatMap, i: int)
    requires
        fm.wf(),
        0 <= i < fm.entries_view().len(),
    ensures
        fm@.contains_key(fm.entries_view()[i].0),
        fm@[fm.entries_view()[i].0] == fm.entries_view()[i].1,
{
    lemma_apply_lookup(Map::<Seq<char>, LeafV>::empty(), fm.entries_view(), i);
}

/// Flat key/value map with unique keys.
pub struct FlatMap {
    entries: Vec<(String, Leaf)>,
}

impl FlatMap {
    /// The (path, value) pairs held, in order.
    pub closed spec fn entries_view(&self) -> Seq<(Seq<char>, LeafV)> {
        Seq::new(self.entries@.len(), |i: int| (self.entries@[i].0@, self.entries@[i].1@))
    }

    /// Well-formed: no key occurs twice.
    pub open spec fn wf(&self) -> bool {
        unique_keys(self.entries_view())
    }

    /// Creates an empty map.
    pub fn new() -> (r: FlatMap)
        ensures
            r.wf(),
            r@ == Map::<Seq<char>, LeafV>::empty(),
            r.entries_view() == Seq::<(Seq<char>, LeafV)>::empty(),
    {
        let r = FlatMap { entries: Vec::new() };
        proof {
            assert(r.entries_view() =~= Seq::<(Seq<char>, LeafV)>::empty());
        }
        r
    }

    /// How many keys are held.
    pub fn num_entries(&self) -> (n: usize)
        ensures
            n == self.entries_view().len(),
    {
        self.entries.len()
    }

    /// The key at position `i`.
    pub fn entry_key(&self, i: usize) -> (k: &String)
        requires
            i < self.entries_view().len(),
        ensures
            k@ == self.entries_view()[i as int].0,
    {
        &self.entries[i].0
    }

    /// The value at position `i`.
    pub fn entry_leaf(&self, i: usize) -> (l: &Leaf)
        requires
            i < self.entries_view().len(),
        ensures
            l@ == self.entries_view()[i as int].1,
    {
        &self.entries[i].1
    }

    /// Inserts `v` at `k`, overwriting any value already there.
    pub fn insert(&mut self, k: String, v: Leaf)
        requires
            old(self).wf(),
        ensures
            final(self).wf(),
            final(self)@ == old(self)@.insert(k@, v@),
    {
        let n = self.entries.len();
        let ghost ps = self.entries_view();
        let mut j: usize = 0;
        while j < n
            invariant
                *self == *old(self),
                n == self.entries@.len(),
                j <= n,
                ps == self.entries_view(),
                unique_keys(ps),
                forall|t: int| 0 <= t < j ==> (#[trigger] ps[t]).0 != k@,
            decreases n - j,
        {
            if str_eq(self.entries[j].0.as_str(), k.as_str()) {
                let ghost vv = v@;
                let ghost kk = k@;
                proof {
                    assert(ps[j as int].0 == kk);
                }
                self.entries[j] = (k, v);
                proof {
                    assert(self.entries_view() =~= ps.update(j as int, (ps[j as int].0, vv)));
                    lemma_apply_update(Map::<Seq<char>, LeafV>::empty(), ps, j as int, vv);
                    assert(self@ == apply_pairs(Map::<Seq<char>, LeafV>::empty(), ps).insert(
                        kk,
                        vv,
                    ));
                    assert(apply_pairs(Map::<Seq<char>, LeafV>::empty(), ps) == old(self)@);
                    assert(self@ == old(self)@.insert(kk, vv));
                    assert(unique_keys(self.entries_view())) by {
                        assert forall|a: int, b: int|
                            0 <= a < b < self.entries_view().len() implies (
                        #[trigger] self.entries_view()[a]).0 != (
                        #[trigger] self.entries_view()[b]).0 by {
                            assert(self.entries_view()[a].0 == ps[a].0);
                            assert(self.entries_view()[b].0 == ps[b].0);
                        }
                    }
                }
                return ;
            }
            j = j + 1;
        }
        proof {
            assert(!keys_of_pairs(ps).contains(k@)) by {
                if keys_of_pairs(ps).contains(k@) {
                    let t = choose|t: int| 0 <= t < ps.len() && (#[trigger] ps[t]).0 == k@;
                }
            }
        }
        let ghost kk = k@;
        let ghost vv = v@;
        self.entries.push((k, v));
        proof {
            assert(self.entries_view() =~= ps.push((kk, vv)));
            assert(ps.push((kk, vv)) =~= ps + seq![(kk, vv)]);
            lemma_apply_pairs_concat(Map::<Seq<char>, LeafV>::empty(), ps, seq![(kk, vv)]);
            assert(apply_pairs(apply_pairs(Map::<Seq<char>, LeafV>::empty(), ps), seq![(kk, vv)])
                == apply_pairs(Map::<Seq<char>, LeafV>::empty(), ps).insert(kk, vv)) by {
                let q = seq![(kk, vv)];
                let mm = apply_pairs(Map::<Seq<char>, LeafV>::empty(), ps);
                assert(q[0] == (kk, vv));
                assert(q.drop_first() =~= Seq::<(Seq<char>, LeafV)>::empty());
                assert(apply_pairs(mm.insert(kk, vv), q.drop_first()) == mm.insert(kk, vv));
            }
            assert forall|a: int, b: int|
                0 <= a < b < self.entries_view().len() implies (#[trigger] self.entries_view()[a]).0
                != (#[trigger] self.entries_view()[b]).0 by {
                if b < ps.len() {
                } else {
                    assert(self.entries_view()[b].0 == kk);
                }
            }
        }
    }

    /// Looks up `k`.
    pub fn get(&self, k: &str) -> (r: Option<&Leaf>)
        requires
            self.wf(),
        ensures
            match r {
                Some(l) => self@.contains_key(k@) && l@ == self@[k@],
                None => !self@.contains_key(k@),
            },
    {
        let n = self.entries.len();
        let mut j: usize = 0;
        while j < n
            invariant
                self.wf(),
                n == self.entries@.len(),
                j <= n,
                forall|t: int| 0 <= t < j ==> (#[trigger] self.entries_view()[t]).0 != k@,
            decreases n - j,
        {
            if str_eq(self.entries[j].0.as_str(), k) {
                proof {
                    lemma_apply_lookup(
                        Map::<Seq<char>, LeafV>::empty(),
                        self.entries_view(),
                        j as int,
                    );
                }
                return Some(&self.entries[j].1);
            }
            j = j + 1;
        }
        proof {
            lemma_apply_dom(Map::<Seq<char>, LeafV>::empty(), self.entries_view());
            if self@.contains_key(k@) {
                let t = choose|t: int|
                    0 <= t < self.entries_view().len() && (#[trigger] self.entries_view()[t]).0
                        == k@;
            }
        }
        None
    }
}

impl View for FlatMap {
    type V = Map<Seq<char>, LeafV>;

    /// The mathematical map: the entries applied to the empty map.
    closed spec fn view(&self) -> Map<Seq<char>, LeafV> {
        apply_pairs(Map::<Seq<char>, LeafV>::empty(), self.entries_view())
    }
}

} // verus!
