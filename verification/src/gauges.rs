//! The gauge registry reconciler: turns a flat key/value map into
//! create-or-update operations on a shared map of registered gauges.
use vstd::prelude::*;
use vstd::string::*;
use crate::decode::{is_float, parses_float};
use crate::flatmap::FlatMap;
use crate::strutil::{lemma_append_inj, list_contains, str_eq};
use crate::tree::{Leaf, LeafV};

verus! {

broadcast use vstd::set::axiom_set_insert_len;

#[verifier::external_type_specification]
#[verifier::external_body]
pub struct ExRegistry(prometheus::Registry);

/// Owns one `prometheus::Gauge`. The gauge type's generics carry a trait
/// bound Verus cannot declare, so the handle hides it whole.
#[verifier::external_body]
pub struct GaugeHandle {
    g: prometheus::Gauge,
}

/// Whether `prometheus::Gauge::new` accepts this (name, help) pair: a
/// function of the two strings alone, per the descriptor validation.
pub uninterp spec fn gauge_name_ok(name: Seq<char>, help: Seq<char>) -> bool;

/// Relies on `prometheus::Gauge::new`: a fresh unregistered gauge, or
/// nothing when the metric name or help text is rejected; acceptance
/// depends on the name and help alone.
#[verifier::external_body]
fn new_gauge(name: &str, help: &str) -> (r: Option<GaugeHandle>)
    ensures
        (r is Some) == gauge_name_ok(name@, help@),
{
    match prometheus::Gauge::new(name, help) {
        Ok(g) => Some(GaugeHandle { g }),
        Err(_) => None,
    }
}

/// Relies on `prometheus::Registry::register`: whether the collector was
/// accepted; it is refused on a conflicting earlier registration.
#[verifier::external_body]
fn register_gauge(registry: &prometheus::Registry, h: &GaugeHandle) -> (ok: bool) {
    registry.register(Box::new(h.g.clone())).is_ok()
}

/// Relies on `str::parse` to a 64-bit float and `prometheus::Gauge::set`:
/// sets the gauge to the parsed value and reports whether `s` parsed; the
/// gauge is left unchanged when it did not.
#[verifier::external_body]
fn gauge_set_str(h: &GaugeHandle, s: &str) -> (ok: bool)
    ensures
        ok == parses_float(s@),
{
    match s.parse() {
        Ok(v) => {
            h.g.set(v);
            true
        },
        Err(_) => false,
    }
}

/// The shared map of registered gauges, keyed by full metric name. Each
/// entry keeps, beside the gauge, the text its value was last set from.
/// The reconciler is its only writer.
pub struct GaugeMap {
    entries: Vec<(String, GaugeHandle)>,
    texts: Vec<String>,
}

impl GaugeMap {
    /// The metric names held, in insertion order.
    pub closed spec fn names_seq(&self) -> Seq<Seq<char>> {
        Seq::new(self.entries@.len(), |i: int| self.entries@[i].0@)
    }

    /// The text each gauge's value was last set from, in the same order.
    pub closed spec fn texts_seq(&self) -> Seq<Seq<char>> {
        Seq::new(self.texts@.len(), |i: int| self.texts@[i]@)
    }

    /// The set of metric names that own a registered gauge.
    pub closed spec fn names(&self) -> Set<Seq<char>> {
        Set::new(|k: Seq<char>| self.names_seq().contains(k))
    }

    /// The position of `name` among the entries.
    pub closed spec fn index_of(&self, name: Seq<char>) -> int {
        choose|i: int| 0 <= i < self.names_seq().len() && self.names_seq()[i] == name
    }

    /// The text the gauge under `name` was last set from.
    pub closed spec fn value_text(&self, name: Seq<char>) -> Seq<char> {
        self.texts_seq()[self.index_of(name)]
    }

    /// Well-formed: one gauge per metric name, one text per gauge.
    pub closed spec fn wf(&self) -> bool {
        &&& forall|i: int, j: int|
            0 <= i < j < self.names_seq().len() ==> self.names_seq()[i] != self.names_seq()[j]
        &&& self.texts@.len() == self.entries@.len()
    }

    /// Creates an empty gauge map.
    pub fn new() -> (r: GaugeMap)
        ensures
            r.wf(),
            r.names() == Set::<Seq<char>>::empty(),
    {
        let r = GaugeMap { entries: Vec::new(), texts: Vec::new() };
        proof {
            assert(r.names() =~= Set::<Seq<char>>::empty());
        }
        r
    }

    /// Whether a gauge is registered under `name`.
    pub fn has_name(&self, name: &str) -> (r: bool)
        ensures
            r == self.names().contains(name@),
    {
        let n = self.entries.len();
        let mut i: usize = 0;
        while i < n
            invariant
                n == self.entries@.len(),
                i <= n,
                forall|j: int| 0 <= j < i ==> self.names_seq()[j] != name@,
            decreases n - i,
        {
            if str_eq(self.entries[i].0.as_str(), name) {
                proof {
                    assert(self.names_seq()[i as int] == name@);
                }
                return true;
            }
            i = i + 1;
        }
        proof {
            if self.names().contains(name@) {
                let j = choose|j: int|
                    0 <= j < self.names_seq().len() && self.names_seq()[j] == name@;
            }
        }
        false
    }

    /// The position of the gauge registered under `name`, if any.
    fn find_idx(&self, name: &str) -> (r: Option<usize>)
        ensures
            match r {
                Some(i) => i < self.names_seq().len() && self.names_seq()[i as int] == name@
                    && self.names().contains(name@),
                None => !self.names().contains(name@),
            },
    {
        let n = self.entries.len();
        let mut i: usize = 0;
        while i < n
            invariant
                n == self.entries@.len(),
                i <= n,
                forall|j: int| 0 <= j < i ==> self.names_seq()[j] != name@,
            decreases n - i,
        {
            if str_eq(self.entries[i].0.as_str(), name) {
                proof {
                    assert(self.names_seq()[i as int] == name@);
                }
                return Some(i);
            }
            i = i + 1;
        }
        proof {
            if self.names().contains(name@) {
                let j = choose|j: int|
                    0 <= j < self.names_seq().len() && self.names_seq()[j] == name@;
            }
        }
        None
    }

    /// Sets the gauge at position `i` from `s`, recording the text when
    /// the parse succeeds; the gauge and its text stay as they were when
    /// it does not.
    fn set_value(&mut self, i: usize, s: &str) -> (ok: bool)
        requires
            old(self).wf(),
            i < old(self).names_seq().len(),
        ensures
            final(self).wf(),
            final(self).names_seq() == old(self).names_seq(),
            ok == parses_float(s@),
            ok ==> final(self).texts_seq() == old(self).texts_seq().update(i as int, s@),
            !ok ==> final(self).texts_seq() == old(self).texts_seq(),
    {
        let ok = gauge_set_str(&self.entries[i].1, s);
        if ok {
            self.texts[i] = s.to_owned();
        }
        proof {
            assert(self.names_seq() =~= old(self).names_seq());
            if ok {
                assert(self.texts_seq() =~= old(self).texts_seq().update(i as int, s@));
            } else {
                assert(self.texts_seq() =~= old(self).texts_seq());
            }
        }
        ok
    }

    /// Adds a gauge under a name not yet held, set last from `text`.
    fn insert_new(&mut self, name: String, g: GaugeHandle, text: String)
        requires
            old(self).wf(),
            !old(self).names().contains(name@),
        ensures
            final(self).wf(),
            final(self).names() == old(self).names().insert(name@),
            final(self).names_seq() == old(self).names_seq().push(name@),
            final(self).texts_seq() == old(self).texts_seq().push(text@),
    {
        let ghost nv = name@;
        self.entries.push((name, g));
        self.texts.push(text);
        proof {
            assert(self.names_seq() =~= old(self).names_seq().push(nv));
            assert(self.texts_seq() =~= old(self).texts_seq().push(text@));
            assert forall|i: int, j: int|
                0 <= i < j < self.names_seq().len() implies self.names_seq()[i]
                != self.names_seq()[j] by {
                if j < old(self).names_seq().len() {
                } else {
                    assert(self.names_seq()[j] == nv);
                    if self.names_seq()[i] == nv {
                        assert(old(self).names_seq()[i] == nv);
                        assert(old(self).names().contains(nv));
                    }
                }
            }
            assert(self.names() =~= old(self).names().insert(nv)) by {
                assert forall|k: Seq<char>| self.names().contains(k) implies old(
                    self,
                ).names().insert(nv).contains(k) by {
                    let t = choose|t: int|
                        0 <= t < self.names_seq().len() && self.names_seq()[t] == k;
                    if t < old(self).names_seq().len() {
                        assert(old(self).names_seq()[t] == k);
                    }
                }
                assert forall|k: Seq<char>|
                    old(self).names().insert(nv).contains(k) implies self.names().contains(k) by {
                    if k == nv {
                        assert(self.names_seq()[self.names_seq().len() - 1] == nv);
                    } else {
                        let t = choose|t: int|
                            0 <= t < old(self).names_seq().len() && old(self).names_seq()[t] == k;
                        assert(self.names_seq()[t] == k);
                    }
                }
            }
        }
    }
}

/// In a well-formed map, the entry at `i` is where its own name is found.
proof fn lemma_index_at(gm: &GaugeMap, i: int)
    requires
        gm.wf(),
        0 <= i < gm.names_seq().len(),
    ensures
        gm.index_of(gm.names_seq()[i]) == i,
        gm.names().contains(gm.names_seq()[i]),
{
    let n = gm.names_seq()[i];
    assert(0 <= i < gm.names_seq().len() && gm.names_seq()[i] == n);
    let t = gm.index_of(n);
    assert(0 <= t < gm.names_seq().len() && gm.names_seq()[t] == n);
    if t != i {
        assert(gm.names_seq()[t] != gm.names_seq()[i]);
    }
}

/// A leaf that can feed a gauge: a number, or a string parsing as one.
pub open spec fn leaf_numeric(l: LeafV) -> bool {
    match l {
        LeafV::Num(s) => parses_float(s),
        LeafV::Str(s) => parses_float(s),
        LeafV::Bool(_) => false,
        LeafV::Null => false,
    }
}

/// The text a leaf's gauge is set from: the number's or string's own text.
pub open spec fn leaf_text(l: LeafV) -> Seq<char> {
    match l {
        LeafV::Num(s) => s,
        LeafV::Str(s) => s,
        LeafV::Bool(_) => Seq::empty(),
        LeafV::Null => Seq::empty(),
    }
}

/// A key of `m` that should produce a gauge update: not ignored, with a
/// numeric value.
pub open spec fn eligible(m: Map<Seq<char>, LeafV>, ig: Seq<Seq<char>>, k: Seq<char>) -> bool {
    m.dom().contains(k) && !ig.contains(k) && leaf_numeric(m[k])
}

/// The metric names the eligible keys of `m` map to under `prefix`.
pub open spec fn prefixed_eligible(
    m: Map<Seq<char>, LeafV>,
    ig: Seq<Seq<char>>,
    prefix: Seq<char>,
) -> Set<Seq<char>> {
    Set::new(|n: Seq<char>| exists|k: Seq<char>| #[trigger] eligible(m, ig, k) && n == prefix + k)
}

/// The keys of `m` whose gauge update succeeded: eligible, with their
/// metric name present in `names` afterwards.
pub open spec fn counted_keys(
    m: Map<Seq<char>, LeafV>,
    ig: Seq<Seq<char>>,
    prefix: Seq<char>,
    names: Set<Seq<char>>,
) -> Set<Seq<char>> {
    Set::new(|k: Seq<char>| eligible(m, ig, k) && names.contains(prefix + k))
}

/// Creates the gauge for `name` or updates the one already held, setting
/// it from `s`. `help` is the unprefixed key. Fails only for a fresh name
/// that the name check or the registry refuses.
fn upsert(
    gm: &mut GaugeMap,
    registry: &prometheus::Registry,
    name: String,
    help: &str,
    s: &str,
) -> (ok: bool)
    requires
        old(gm).wf(),
        parses_float(s@),
    ensures
        final(gm).wf(),
        ok == final(gm).names().contains(name@),
        old(gm).names().contains(name@) ==> ok,
        ok ==> final(gm).names() == old(gm).names().insert(name@),
        !ok ==> final(gm).names() == old(gm).names(),
        ok ==> final(gm).value_text(name@) == s@,
        forall|nn: Seq<char>|
            old(gm).names().contains(nn) && nn != name@ ==> final(gm).names().contains(nn)
                && final(gm).value_text(nn) == old(gm).value_text(nn),
        !old(gm).names().contains(name@) && !gauge_name_ok(name@, help@) ==> !ok,
{
    let ghost nv = name@;
    match gm.find_idx(name.as_str()) {
        Some(idx) => {
            let _set = gm.set_value(idx, s);
            proof {
                assert(gm.names() =~= old(gm).names()) by {
                    assert forall|k: Seq<char>|
                        gm.names().contains(k) == old(gm).names().contains(k) by {
                        assert(gm.names_seq() == old(gm).names_seq());
                    }
                }
                assert(old(gm).names().insert(nv) =~= old(gm).names());
                lemma_index_at(gm, idx as int);
                assert(gm.value_text(nv) == s@);
                assert forall|nn: Seq<char>|
                    old(gm).names().contains(nn) && nn != nv implies gm.names().contains(nn)
                    && gm.value_text(nn) == old(gm).value_text(nn) by {
                    let t = choose|t: int|
                        0 <= t < old(gm).names_seq().len() && old(gm).names_seq()[t] == nn;
                    lemma_index_at(old(gm), t);
                    lemma_index_at(gm, t);
                    assert(t != idx);
                    assert(gm.texts_seq()[t] == old(gm).texts_seq()[t]);
                }
            }
            true
        },
        None => {
            match new_gauge(name.as_str(), help) {
                Some(h) => {
                    let _set = gauge_set_str(&h, s);
                    if register_gauge(registry, &h) {
                        gm.insert_new(name, h, s.to_owned());
                        proof {
                            let last = gm.names_seq().len() - 1;
                            assert(gm.names_seq()[last] == nv);
                            lemma_index_at(gm, last);
                            assert(gm.value_text(nv) == s@);
                            assert forall|nn: Seq<char>|
                                old(gm).names().contains(nn) && nn != nv implies gm.names(
                            ).contains(nn) && gm.value_text(nn) == old(gm).value_text(nn) by {
                                let t = choose|t: int|
                                    0 <= t < old(gm).names_seq().len() && old(gm).names_seq()[t]
                                        == nn;
                                lemma_index_at(old(gm), t);
                                assert(gm.names_seq()[t] == nn);
                                lemma_index_at(gm, t);
                                assert(gm.texts_seq()[t] == old(gm).texts_seq()[t]);
                            }
                        }
                        true
                    } else {
                        false
                    }
                },
                None => false,
            }
        },
    }
}

/// Creates or updates one gauge per eligible key of `flat` under exclusive
/// access to the gauge map, and returns how many keys produced a gauge
/// update. A key is skipped silently when ignored, with a dropped warning
/// when its value is not numeric, and without counting when a fresh gauge
/// is refused by the name check or the registry.
pub fn reconcile(
    gm: &mut GaugeMap,
    registry: &prometheus::Registry,
    flat: &FlatMap,
    ignore: &Vec<String>,
    prefix: &str,
) -> (count: usize)
    requires
        old(gm).wf(),
        flat.wf(),
    ensures
        final(gm).wf(),
        old(gm).names().subset_of(final(gm).names()),
        final(gm).names().subset_of(
            old(gm).names().union(prefixed_eligible(flat@, ignore.deep_view(), prefix@)),
        ),
        counted_keys(flat@, ignore.deep_view(), prefix@, final(gm).names()).finite(),
        count == counted_keys(flat@, ignore.deep_view(), prefix@, final(gm).names()).len(),
        forall|k: Seq<char>|
            #[trigger] counted_keys(flat@, ignore.deep_view(), prefix@, final(gm).names()).contains(
                k,
            ) ==> final(gm).value_text(prefix@ + k) == leaf_text(flat@[k]),
        forall|k: Seq<char>|
            #[trigger] eligible(flat@, ignore.deep_view(), k) && !gauge_name_ok(prefix@ + k, k)
                ==> (final(gm).names().contains(prefix@ + k) == old(gm).names().contains(
                prefix@ + k,
            )),
{
    let ghost m = flat@;
    let ghost ig = ignore.deep_view();
    let ghost p = prefix@;
    let ghost es = flat.entries_view();
    let ghost g0 = *old(gm);
    let n = flat.num_entries();
    let mut count: usize = 0;
    let ghost mut cs = Set::<Seq<char>>::empty();
    let mut i: usize = 0;
    while i < n
        invariant
            gm.wf(),
            flat.wf(),
            m == flat@,
            ig == ignore.deep_view(),
            p == prefix@,
            es == flat.entries_view(),
            n == es.len(),
            i <= n,
            g0.names().subset_of(gm.names()),
            cs.finite(),
            count == cs.len(),
            count <= i,
            forall|k: Seq<char>|
                cs.contains(k) ==> exists|j: int| 0 <= j < i && (#[trigger] es[j]).0 == k,
            forall|nn: Seq<char>|
                #[trigger] gm.names().contains(nn) ==> g0.names().contains(nn) || (exists|k:
                    Seq<char>| #[trigger] cs.contains(k) && nn == p + k),
            forall|j: int|
                0 <= j < i && eligible(m, ig, (#[trigger] es[j]).0) ==> (cs.contains(es[j].0)
                    <==> gm.names().contains(p + es[j].0)),
            forall|j: int|
                0 <= j < i && !eligible(m, ig, (#[trigger] es[j]).0) ==> !cs.contains(es[j].0),
            forall|j: int|
                0 <= j < i && eligible(m, ig, (#[trigger] es[j]).0) && cs.contains(es[j].0)
                    ==> gm.value_text(p + es[j].0) == leaf_text(m[es[j].0]),
            forall|j: int|
                0 <= j < i && eligible(m, ig, (#[trigger] es[j]).0) && !gauge_name_ok(
                    p + es[j].0,
                    es[j].0,
                ) ==> (gm.names().contains(p + es[j].0) == g0.names().contains(p + es[j].0)),
        decreases n - i,
    {
        let ghost kk = es[i as int].0;
        proof {
            crate::flatmap::lemma_view_entry(flat, i as int);
        }
        let key = flat.entry_key(i);
        let leaf = flat.entry_leaf(i);
        let ghost cs_before = cs;
        let ghost gm_before = *gm;
        if !list_contains(ignore, key.as_str()) {
            let val: Option<&String> = match leaf {
                Leaf::Num(s) => Some(s),
                Leaf::Str(s) => Some(s),
                Leaf::Bool(_) => None,
                Leaf::Null => None,
            };
            match val {
                Some(s) => {
                    if is_float(s.as_str()) {
                        proof {
                            assert(leaf_numeric(m[kk]));
                            assert(eligible(m, ig, kk));
                            assert(leaf_text(m[kk]) == s@);
                        }
                        let mut nm = prefix.to_owned();
                        nm.append(key.as_str());
                        proof {
                            assert(nm@ == p + kk);
                            assert(!cs.contains(kk)) by {
                                if cs.contains(kk) {
                                    let j = choose|j: int|
                                        0 <= j < i && (#[trigger] es[j]).0 == kk;
                                }
                            }
                        }
                        let ok = upsert(gm, registry, nm, key.as_str(), s.as_str());
                        if ok {
                            count = count + 1;
                            proof {
                                cs = cs.insert(kk);
                            }
                        }
                        proof {
                            assert forall|nn: Seq<char>|
                                #[trigger] gm.names().contains(nn) implies g0.names().contains(nn)
                                || (exists|k: Seq<char>| #[trigger] cs.contains(k) && nn == p + k)
                                by {
                                if nn == p + kk && ok {
                                    assert(cs.contains(kk) && nn == p + kk);
                                } else {
                                    assert(gm_before.names().contains(nn));
                                    if !g0.names().contains(nn) {
                                        let k = choose|k: Seq<char>|
                                            #[trigger] cs_before.contains(k) && nn == p + k;
                                        assert(cs.contains(k) && nn == p + k);
                                    }
                                }
                            }
                            assert forall|j: int|
                                0 <= j < i + 1 && eligible(m, ig, (#[trigger] es[j]).0) implies (
                            cs.contains(es[j].0) <==> gm.names().contains(p + es[j].0)) by {
                                if j < i {
                                    assert(es[j].0 != kk);
                                    if p + es[j].0 == p + kk {
                                        lemma_append_inj(p, es[j].0, kk);
                                    }
                                } else {
                                    assert(es[j].0 == kk);
                                }
                            }
                            assert forall|j: int|
                                0 <= j < i + 1 && eligible(m, ig, (#[trigger] es[j]).0)
                                    && cs.contains(es[j].0) implies gm.value_text(p + es[j].0)
                                == leaf_text(m[es[j].0]) by {
                                if j < i {
                                    assert(es[j].0 != kk);
                                    if p + es[j].0 == p + kk {
                                        lemma_append_inj(p, es[j].0, kk);
                                    }
                                    assert(gm_before.names().contains(p + es[j].0));
                                }
                            }
                            assert forall|j: int|
                                0 <= j < i + 1 && eligible(m, ig, (#[trigger] es[j]).0)
                                    && !gauge_name_ok(p + es[j].0, es[j].0) implies (
                            gm.names().contains(p + es[j].0) == g0.names().contains(
                                p + es[j].0,
                            )) by {
                                if j < i {
                                    assert(es[j].0 != kk);
                                    if p + es[j].0 == p + kk {
                                        lemma_append_inj(p, es[j].0, kk);
                                    }
                                } else {
                                    assert(es[j].0 == kk);
                                    if !gauge_name_ok(p + kk, kk) {
                                        if gm_before.names().contains(p + kk) {
                                            if !g0.names().contains(p + kk) {
                                                let k = choose|k: Seq<char>|
                                                    #[trigger] cs_before.contains(k) && p + kk == p
                                                        + k;
                                                lemma_append_inj(p, kk, k);
                                            }
                                        } else {
                                            assert(!ok);
                                        }
                                    }
                                }
                            }
                        }
                    } else {
                        proof {
                            assert(!leaf_numeric(m[kk]));
                            assert(!eligible(m, ig, kk));
                        }
                    }
                },
                None => {
                    proof {
                        assert(!leaf_numeric(m[kk]));
                        assert(!eligible(m, ig, kk));
                    }
                },
            }
        } else {
            proof {
                assert(ig.contains(kk));
                assert(!eligible(m, ig, kk));
            }
        }
        proof {
            assert forall|k: Seq<char>| cs.contains(k) implies exists|j: int|
                0 <= j < i + 1 && (#[trigger] es[j]).0 == k by {
                if cs_before.contains(k) {
                    let j = choose|j: int| 0 <= j < i && (#[trigger] es[j]).0 == k;
                } else {
                    assert(es[i as int].0 == k);
                }
            }
        }
        i = i + 1;
    }
    proof {
        crate::flatmap::lemma_view_dom(flat);
        assert forall|k: Seq<char>| cs.contains(k) implies eligible(m, ig, k) by {
            let j = choose|j: int| 0 <= j < n && (#[trigger] es[j]).0 == k;
            if !eligible(m, ig, k) {
            }
        }
        assert(gm.names().subset_of(g0.names().union(prefixed_eligible(m, ig, p)))) by {
            assert forall|nn: Seq<char>| gm.names().contains(nn) implies g0.names().union(
                prefixed_eligible(m, ig, p),
            ).contains(nn) by {
                if !g0.names().contains(nn) {
                    let k = choose|k: Seq<char>| #[trigger] cs.contains(k) && nn == p + k;
                    assert(eligible(m, ig, k) && nn == p + k);
                }
            }
        }
        assert(counted_keys(m, ig, p, gm.names()) =~= cs) by {
            assert forall|k: Seq<char>|
                counted_keys(m, ig, p, gm.names()).contains(k) implies cs.contains(k) by {
                assert(crate::flatmap::keys_of_pairs(es).contains(k));
                let j = choose|j: int| 0 <= j < es.len() && (#[trigger] es[j]).0 == k;
            }
            assert forall|k: Seq<char>| cs.contains(k) implies counted_keys(
                m,
                ig,
                p,
                gm.names(),
            ).contains(k) by {
                let j = choose|j: int| 0 <= j < n && (#[trigger] es[j]).0 == k;
            }
        }
        assert forall|k: Seq<char>|
            #[trigger] counted_keys(m, ig, p, gm.names()).contains(k) implies gm.value_text(
            p + k,
        ) == leaf_text(m[k]) by {
            let j = choose|j: int| 0 <= j < n && (#[trigger] es[j]).0 == k;
        }
        assert forall|k: Seq<char>|
            #[trigger] eligible(m, ig, k) && !gauge_name_ok(p + k, k) implies (gm.names().contains(
            p + k,
        ) == g0.names().contains(p + k)) by {
            assert(m.dom().contains(k));
            assert(crate::flatmap::keys_of_pairs(es).contains(k));
            let j = choose|j: int| 0 <= j < es.len() && (#[trigger] es[j]).0 == k;
        }
    }
    count
}

} // verus!
