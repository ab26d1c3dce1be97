//! An ordered key-value store: entries kept sorted by key, with the point
//! operations of a storage bucket and its ordered range reads.

use vstd::prelude::*;
use crate::keys::StoreKey;

verus! {

/// Entries sorted strictly by key.
pub struct OrdMap<K, V> {
    entries: Vec<(K, V)>,
}

impl<K: StoreKey, V> OrdMap<K, V> {
    /// The keys in ascending order.
    pub closed spec fn keys(&self) -> Seq<K::Kv> {
        Seq::new(self.entries@.len(), |i: int| self.entries@[i].0.kv())
    }

    pub closed spec fn value_at(&self, i: int) -> V {
        self.entries@[i].1
    }

    pub closed spec fn wf(&self) -> bool {
        forall|i: int, j: int|
            0 <= i < j < self.entries@.len() ==> K::kv_lt(#[trigger] self.keys()[i], #[trigger] self.keys()[j])
    }

    pub open spec fn has(&self, k: K::Kv) -> bool {
        exists|i: int| 0 <= i < self.keys().len() && self.keys()[i] == k
    }

    pub open spec fn index_of(&self, k: K::Kv) -> int {
        choose|i: int| 0 <= i < self.keys().len() && self.keys()[i] == k
    }

    pub open spec fn view(&self) -> Map<K::Kv, V> {
        Map::new(|k: K::Kv| self.has(k), |k: K::Kv| self.value_at(self.index_of(k)))
    }

    /// `p` splits the keys at `s`: those before `p` are not greater than `s`,
    /// those from `p` on are.
    pub open spec fn is_split_after(&self, s: K::Kv, p: int) -> bool {
        &&& 0 <= p <= self.keys().len()
        &&& forall|i: int| 0 <= i < p ==> !K::kv_lt(s, #[trigger] self.keys()[i])
        &&& forall|i: int| p <= i < self.keys().len() ==> K::kv_lt(s, #[trigger] self.keys()[i])
    }

    /// `q` splits the keys at `s`: those before `q` are less than `s`, those
    /// from `q` on are not.
    pub open spec fn is_split_before(&self, s: K::Kv, q: int) -> bool {
        &&& 0 <= q <= self.keys().len()
        &&& forall|i: int| 0 <= i < q ==> K::kv_lt(#[trigger] self.keys()[i], s)
        &&& forall|i: int| q <= i < self.keys().len() ==> !K::kv_lt(#[trigger] self.keys()[i], s)
    }

    pub open spec fn split_after(&self, s: K::Kv) -> int {
        choose|p: int| #[trigger] self.is_split_after(s, p)
    }

    pub open spec fn split_before(&self, s: K::Kv) -> int {
        choose|q: int| #[trigger] self.is_split_before(s, q)
    }

    /// The keys that a range read returns: ascending, the keys greater than
    /// `start_after`; descending, the keys less than it; at most `limit` of them,
    /// nearest first.
    pub open spec fn range_keys(&self, start_after: Option<K::Kv>, limit: nat, ascending: bool) -> Seq<K::Kv> {
        let n = self.keys().len() as int;
        if ascending {
            let p = match start_after {
                Some(s) => self.split_after(s),
                None => 0,
            };
            let e = if p + limit < n { p + limit } else { n };
            self.keys().subrange(p, e)
        } else {
            let q = match start_after {
                Some(s) => self.split_before(s),
                None => n,
            };
            let b = if q - limit > 0 { q - limit } else { 0 };
            self.keys().subrange(b, q).reverse()
        }
    }

    proof fn lemma_index(&self, i: int)
        requires
            self.wf(),
            0 <= i < self.keys().len(),
        ensures
            self.has(self.keys()[i]),
            self.index_of(self.keys()[i]) == i,
            self@.contains_key(self.keys()[i]),
            self@[self.keys()[i]] == self.value_at(i),
    {
        let k = self.keys()[i];
        assert(self.has(k));
        let j = self.index_of(k);
        if j < i {
            assert(K::kv_lt(self.keys()[j], self.keys()[i]));
            K::lemma_irreflexive(k);
        }
        if j > i {
            assert(K::kv_lt(self.keys()[i], self.keys()[j]));
            K::lemma_irreflexive(k);
        }
    }

    /// Every key in the store is a key of the sorted key sequence, and back.
    pub proof fn lemma_keys_domain(&self)
        requires
            self.wf(),
        ensures
            forall|k: K::Kv| self@.contains_key(k) <==> self.keys().contains(k),
            forall|i: int| 0 <= i < self.keys().len() ==> #[trigger] self@[self.keys()[i]] == self.value_at(i),
            forall|i: int, j: int| 0 <= i < j < self.keys().len() ==> K::kv_lt(#[trigger] self.keys()[i], #[trigger] self.keys()[j]),
    {
        assert forall|i: int| 0 <= i < self.keys().len() implies #[trigger] self@[self.keys()[i]] == self.value_at(i) by {
            self.lemma_index(i);
        }
    }

    pub fn new() -> (m: Self)
        ensures
            m.wf(),
            m@ == Map::<K::Kv, V>::empty(),
            m.keys() == Seq::<K::Kv>::empty(),
    {
        let m = OrdMap { entries: Vec::new() };
        assert(m@ =~= Map::<K::Kv, V>::empty());
        assert(m.keys() =~= Seq::<K::Kv>::empty());
        m
    }

    pub fn len(&self) -> (n: usize)
        requires
            self.wf(),
        ensures
            n == self.keys().len(),
            n == self@.len(),
    {
        proof {
            self.lemma_len();
        }
        self.entries.len()
    }

    proof fn lemma_len(&self)
        requires
            self.wf(),
        ensures
            self@.dom().len() == self.keys().len(),
            self@.dom().finite(),
    {
        self.lemma_keys_domain();
        let ks = self.keys();
        assert(ks.no_duplicates()) by {
            assert forall|i: int, j: int| 0 <= i < ks.len() && 0 <= j < ks.len() && i != j implies ks[i] != ks[j] by {
                if i < j {
                    assert(K::kv_lt(ks[i], ks[j]));
                } else {
                    assert(K::kv_lt(ks[j], ks[i]));
                }
                K::lemma_irreflexive(ks[i]);
            }
        }
        assert(self@.dom() =~= ks.to_set());
        ks.unique_seq_to_set();
    }

    /// Position of `k`: the first index whose key is not less than `k`, and
    /// whether that key is `k`.
    fn position(&self, k: &K) -> (r: (usize, bool))
        requires
            self.wf(),
        ensures
            r.0 <= self.keys().len(),
            forall|i: int| 0 <= i < r.0 ==> K::kv_lt(#[trigger] self.keys()[i], k.kv()),
            forall|i: int| r.0 <= i < self.keys().len() ==> !K::kv_lt(#[trigger] self.keys()[i], k.kv()),
            r.1 == (r.0 < self.keys().len() && self.keys()[r.0 as int] == k.kv()),
            r.1 == self@.contains_key(k.kv()),
            r.1 ==> self.index_of(k.kv()) == r.0,
    {
        let n = self.entries.len();
        let mut p: usize = 0;
        while p < n && self.entries[p].0.less(k)
            invariant
                self.wf(),
                n == self.entries@.len(),
                p <= n,
                forall|i: int| 0 <= i < p ==> K::kv_lt(#[trigger] self.keys()[i], k.kv()),
            decreases n - p,
        {
            p = p + 1;
        }
        proof {
            assert forall|i: int| p <= i < self.keys().len() implies !K::kv_lt(#[trigger] self.keys()[i], k.kv()) by {
                if K::kv_lt(self.keys()[i], k.kv()) {
                    if i > p {
                        assert(K::kv_lt(self.keys()[p as int], self.keys()[i]));
                        K::lemma_transitive(self.keys()[p as int], self.keys()[i], k.kv());
                    }
                }
            }
        }
        let found = p < n && self.entries[p].0.same(k);
        proof {
            if found {
                self.lemma_index(p as int);
            } else if self.has(k.kv()) {
                let j = choose|j: int| 0 <= j < self.keys().len() && self.keys()[j] == k.kv();
                K::lemma_irreflexive(k.kv());
                if j > p {
                    assert(!K::kv_lt(self.keys()[p as int], k.kv()));
                    assert(K::kv_lt(self.keys()[p as int], self.keys()[j]));
                    if self.keys()[p as int] != k.kv() {
                        K::lemma_total(self.keys()[p as int], k.kv());
                    }
                }
            }
        }
        (p, found)
    }

    pub fn contains_key(&self, k: &K) -> (b: bool)
        requires
            self.wf(),
        ensures
            b == self@.contains_key(k.kv()),
    {
        self.position(k).1
    }

    pub fn get(&self, k: &K) -> (r: Option<&V>)
        requires
            self.wf(),
        ensures
            r == (if self@.contains_key(k.kv()) { Some(&self@[k.kv()]) } else { None }),
    {
        let (p, found) = self.position(k);
        if found {
            proof {
                self.lemma_index(p as int);
            }
            Some(&self.entries[p].1)
        } else {
            None
        }
    }

    /// Stores `v` under `k`, replacing what was there.
    pub fn insert(&mut self, k: K, v: V)
        requires
            old(self).wf(),
        ensures
            final(self).wf(),
            final(self)@ == old(self)@.insert(k.kv(), v),
    {
        let (p, found) = self.position(&k);
        let ghost kk = k.kv();
        let ghost old_keys = self.keys();
        let ghost old_map = self@;
        if found {
            let _ = self.entries.remove(p);
        }
        let ghost mid_keys = self.keys();
        proof {
            if found {
                assert(mid_keys =~= old_keys.remove(p as int));
            } else {
                assert(mid_keys =~= old_keys);
            }
        }
        self.entries.insert(p, (k, v));
        proof {
            let nk = self.keys();
            if found {
                assert(nk =~= old_keys.update(p as int, kk));
            } else {
                assert(nk =~= old_keys.insert(p as int, kk));
            }
            assert forall|i: int, j: int| 0 <= i < j < nk.len() implies K::kv_lt(#[trigger] nk[i], #[trigger] nk[j]) by {
                if found {
                    if i == p {
                        assert(old_keys[p as int] == kk);
                        assert(K::kv_lt(old_keys[i], old_keys[j]));
                    } else if j == p {
                        assert(K::kv_lt(old_keys[i], old_keys[j]));
                    } else {
                        assert(K::kv_lt(old_keys[i], old_keys[j]));
                    }
                } else {
                    if i == p {
                        assert(!K::kv_lt(old_keys[j - 1], kk));
                        if old_keys[j - 1] != kk {
                            K::lemma_total(old_keys[j - 1], kk);
                        } else {
                            assert(old_keys[p as int] == kk || p < j - 1);
                            if j - 1 == p {
                                assert(false);
                            } else {
                                assert(!K::kv_lt(old_keys[p as int], kk));
                                assert(K::kv_lt(old_keys[p as int], old_keys[j - 1]));
                                if old_keys[p as int] != kk {
                                    K::lemma_total(old_keys[p as int], kk);
                                    K::lemma_transitive(kk, old_keys[p as int], old_keys[j - 1]);
                                    K::lemma_irreflexive(kk);
                                }
                            }
                        }
                    } else if j == p {
                        assert(K::kv_lt(old_keys[i], kk));
                    } else if i < p && j > p {
                        assert(K::kv_lt(old_keys[i], old_keys[j - 1]));
                    } else if j < p {
                        assert(K::kv_lt(old_keys[i], old_keys[j]));
                    } else {
                        assert(K::kv_lt(old_keys[i - 1], old_keys[j - 1]));
                    }
                }
            }
            assert(self.wf());
            assert forall|key: K::Kv| #[trigger] self@.contains_key(key) == old_map.insert(kk, v).contains_key(key) by {
                if old_map.contains_key(key) && key != kk {
                    let j = old_map_index(old_keys, key);
                    if found {
                        assert(nk[j] == key);
                    } else if j < p {
                        assert(nk[j] == key);
                    } else {
                        assert(nk[j + 1] == key);
                    }
                }
                if key == kk {
                    assert(nk[p as int] == kk);
                }
                if self@.contains_key(key) && key != kk {
                    let j = old_map_index(nk, key);
                    if found {
                        assert(old_keys[j] == key);
                    } else if j < p {
                        assert(old_keys[j] == key);
                    } else {
                        assert(j != p);
                        assert(old_keys[j - 1] == key);
                    }
                }
            }
            assert forall|key: K::Kv| #[trigger] self@.contains_key(key) implies self@[key] == old_map.insert(kk, v)[key] by {
                let j = self.index_of(key);
                self.lemma_index(j);
                if key != kk {
                    if found {
                        old(self).lemma_index(j);
                    } else if j < p {
                        old(self).lemma_index(j);
                    } else {
                        old(self).lemma_index(j - 1);
                    }
                }
            }
            assert(self@ =~= old_map.insert(kk, v));
        }
    }

    /// Removes the entry under `k`, handing back its value.
    pub fn take(&mut self, k: &K) -> (r: Option<V>)
        requires
            old(self).wf(),
        ensures
            final(self).wf(),
            final(self)@ == old(self)@.remove(k.kv()),
            r == (if old(self)@.contains_key(k.kv()) { Some(old(self)@[k.kv()]) } else { None }),
            r is None ==> *final(self) == *old(self),
    {
        let (p, found) = self.position(k);
        let ghost old_keys = self.keys();
        let ghost old_map = self@;
        if !found {
            assert(self@ =~= old_map.remove(k.kv()));
            return None;
        }
        proof {
            self.lemma_index(p as int);
        }
        let (_, v) = self.entries.remove(p);
        proof {
            let nk = self.keys();
            let kk = k.kv();
            assert(nk =~= old_keys.remove(p as int));
            assert forall|i: int, j: int| 0 <= i < j < nk.len() implies K::kv_lt(#[trigger] nk[i], #[trigger] nk[j]) by {
                if j < p {
                    assert(K::kv_lt(old_keys[i], old_keys[j]));
                } else if i < p {
                    assert(K::kv_lt(old_keys[i], old_keys[j + 1]));
                } else {
                    assert(K::kv_lt(old_keys[i + 1], old_keys[j + 1]));
                }
            }
            assert(self.wf());
            assert forall|key: K::Kv| #[trigger] self@.contains_key(key) == old_map.remove(kk).contains_key(key) by {
                if old_map.contains_key(key) && key != kk {
                    let j = old_map_index(old_keys, key);
                    if j < p {
                        assert(nk[j] == key);
                    } else {
                        assert(j != p);
                        assert(nk[j - 1] == key);
                    }
                }
                if self@.contains_key(key) {
                    let j = old_map_index(nk, key);
                    if j < p {
                        assert(old_keys[j] == key);
                        assert(K::kv_lt(old_keys[j], old_keys[p as int]));
                    } else {
                        assert(old_keys[j + 1] == key);
                        assert(K::kv_lt(old_keys[p as int], old_keys[j + 1]));
                    }
                    if key == kk {
                        K::lemma_irreflexive(kk);
                    }
                }
            }
            assert forall|key: K::Kv| #[trigger] self@.contains_key(key) implies self@[key] == old_map.remove(kk)[key] by {
                let j = self.index_of(key);
                self.lemma_index(j);
                if j < p {
                    old(self).lemma_index(j);
                } else {
                    old(self).lemma_index(j + 1);
                }
            }
            assert(self@ =~= old_map.remove(kk));
        }
        Some(v)
    }

    proof fn lemma_split_after_unique(&self, s: K::Kv, p: int)
        requires
            self.is_split_after(s, p),
        ensures
            self.split_after(s) == p,
    {
        let c = self.split_after(s);
        assert(self.is_split_after(s, c));
        if c < p {
            assert(K::kv_lt(s, self.keys()[c]));
        } else if c > p {
            assert(K::kv_lt(s, self.keys()[p]));
        }
    }

    proof fn lemma_split_before_unique(&self, s: K::Kv, q: int)
        requires
            self.is_split_before(s, q),
        ensures
            self.split_before(s) == q,
    {
        let c = self.split_before(s);
        assert(self.is_split_before(s, c));
        if c < q {
            assert(K::kv_lt(self.keys()[c], s));
        } else if c > q {
            assert(K::kv_lt(self.keys()[q], s));
        }
    }

    proof fn lemma_split_after_prefix(&self, s: K::Kv, n: int) -> (p: int)
        requires
            self.wf(),
            0 <= n <= self.keys().len(),
        ensures
            0 <= p <= n,
            forall|i: int| 0 <= i < p ==> !K::kv_lt(s, #[trigger] self.keys()[i]),
            forall|i: int| p <= i < n ==> K::kv_lt(s, #[trigger] self.keys()[i]),
        decreases n,
    {
        if n == 0 {
            0
        } else {
            let p0 = self.lemma_split_after_prefix(s, n - 1);
            if K::kv_lt(s, self.keys()[n - 1]) {
                p0
            } else {
                if p0 < n - 1 {
                    assert(K::kv_lt(self.keys()[p0], self.keys()[n - 1]));
                    K::lemma_transitive(s, self.keys()[p0], self.keys()[n - 1]);
                }
                n
            }
        }
    }

    proof fn lemma_split_before_prefix(&self, s: K::Kv, n: int) -> (q: int)
        requires
            self.wf(),
            0 <= n <= self.keys().len(),
        ensures
            0 <= q <= n,
            forall|i: int| 0 <= i < q ==> K::kv_lt(#[trigger] self.keys()[i], s),
            forall|i: int| q <= i < n ==> !K::kv_lt(#[trigger] self.keys()[i], s),
        decreases n,
    {
        if n == 0 {
            0
        } else {
            let q0 = self.lemma_split_before_prefix(s, n - 1);
            if K::kv_lt(self.keys()[n - 1], s) {
                if q0 < n - 1 {
                    assert(K::kv_lt(self.keys()[q0], self.keys()[n - 1]));
                    K::lemma_transitive(self.keys()[q0], self.keys()[n - 1], s);
                }
                n
            } else {
                q0
            }
        }
    }

    /// What a range read returns: at most `limit` stored keys, in key order
    /// (ascending or descending as asked), all after `start_after` in the
    /// direction of the read.
    pub proof fn lemma_range_keys(&self, start_after: Option<K::Kv>, limit: nat, ascending: bool)
        requires
            self.wf(),
        ensures
            ({
                let rk = self.range_keys(start_after, limit, ascending);
                &&& rk.len() <= limit
                &&& forall|j: int| 0 <= j < rk.len() ==> self@.contains_key(#[trigger] rk[j])
                &&& ascending ==> forall|i: int, j: int| 0 <= i < j < rk.len() ==> K::kv_lt(#[trigger] rk[i], #[trigger] rk[j])
                &&& !ascending ==> forall|i: int, j: int| 0 <= i < j < rk.len() ==> K::kv_lt(#[trigger] rk[j], #[trigger] rk[i])
                &&& (ascending && start_after is Some) ==> forall|j: int| 0 <= j < rk.len() ==> K::kv_lt(start_after->0, #[trigger] rk[j])
                &&& (!ascending && start_after is Some) ==> forall|j: int| 0 <= j < rk.len() ==> K::kv_lt(#[trigger] rk[j], start_after->0)
            }),
    {
        let n = self.keys().len() as int;
        let ks = self.keys();
        assert forall|i: int| 0 <= i < n implies self@.contains_key(ks[i]) by {
            self.lemma_index(i);
        }
        if let Some(s) = start_after {
            let p = self.lemma_split_after_prefix(s, n);
            assert(self.is_split_after(s, p));
            let q = self.lemma_split_before_prefix(s, n);
            assert(self.is_split_before(s, q));
            self.lemma_split_after_unique(s, p);
            self.lemma_split_before_unique(s, q);
        }
        let rk = self.range_keys(start_after, limit, ascending);
        if ascending {
            let p = match start_after {
                Some(s) => self.split_after(s),
                None => 0,
            };
            let e = if p + limit < n { p + limit } else { n };
            assert(rk == ks.subrange(p, e));
            assert forall|j: int| 0 <= j < rk.len() implies self@.contains_key(#[trigger] rk[j]) by {
                assert(rk[j] == ks[p + j]);
            }
            assert forall|i: int, j: int| 0 <= i < j < rk.len() implies K::kv_lt(#[trigger] rk[i], #[trigger] rk[j]) by {
                assert(rk[i] == ks[p + i] && rk[j] == ks[p + j]);
            }
            if let Some(s) = start_after {
                assert forall|j: int| 0 <= j < rk.len() implies K::kv_lt(s, #[trigger] rk[j]) by {
                    assert(rk[j] == ks[p + j]);
                }
            }
        } else {
            let q = match start_after {
                Some(s) => self.split_before(s),
                None => n,
            };
            let b = if q - limit > 0 { q - limit } else { 0 };
            assert(rk == ks.subrange(b, q).reverse());
            assert forall|j: int| 0 <= j < rk.len() implies self@.contains_key(#[trigger] rk[j]) by {
                assert(rk[j] == ks[q - 1 - j]);
            }
            assert forall|i: int, j: int| 0 <= i < j < rk.len() implies K::kv_lt(#[trigger] rk[j], #[trigger] rk[i]) by {
                assert(rk[i] == ks[q - 1 - i] && rk[j] == ks[q - 1 - j]);
            }
            if let Some(s) = start_after {
                assert forall|j: int| 0 <= j < rk.len() implies K::kv_lt(#[trigger] rk[j], s) by {
                    assert(rk[j] == ks[q - 1 - j]);
                }
            }
        }
    }

    /// Reads up to `limit` entries in key order: ascending, those with keys
    /// greater than `start_after`; descending, those with keys less than it;
    /// the nearest first.
    pub fn range(&self, start_after: &Option<K>, limit: usize, ascending: bool) -> (r: Vec<&(K, V)>)
        requires
            self.wf(),
        ensures
            r@.len() == self.range_keys(opt_kv(start_after), limit as nat, ascending).len(),
            forall|j: int|
                0 <= j < r@.len() ==> (#[trigger] r@[j]).0.kv() == self.range_keys(opt_kv(start_after), limit as nat, ascending)[j]
                    && self@.contains_key(r@[j].0.kv()) && r@[j].1 == self@[r@[j].0.kv()],
    {
        let n = self.entries.len();
        let ghost ks = self.keys();
        let ghost rk = self.range_keys(opt_kv(start_after), limit as nat, ascending);
        let mut out: Vec<&(K, V)> = Vec::new();
        if ascending {
            let mut p: usize = 0;
            match start_after {
                Some(s) => {
                    while p < n && !s.less(&self.entries[p].0)
                        invariant
                            self.wf(),
                            n == self.entries@.len(),
                            p <= n,
                            forall|i: int| 0 <= i < p ==> !K::kv_lt(s.kv(), #[trigger] self.keys()[i]),
                        decreases n - p,
                    {
                        p = p + 1;
                    }
                    proof {
                        assert forall|i: int| p <= i < self.keys().len() implies K::kv_lt(s.kv(), #[trigger] self.keys()[i]) by {
                            if i > p {
                                assert(K::kv_lt(self.keys()[p as int], self.keys()[i]));
                                K::lemma_transitive(s.kv(), self.keys()[p as int], self.keys()[i]);
                            }
                        }
                        assert(self.is_split_after(s.kv(), p as int));
                        self.lemma_split_after_unique(s.kv(), p as int);
                    }
                },
                None => {},
            }
            let e: usize = if limit < n - p { p + limit } else { n };
            assert(rk =~= ks.subrange(p as int, e as int));
            let mut j: usize = p;
            while j < e
                invariant
                    self.wf(),
                    n == self.entries@.len(),
                    p <= j <= e <= n,
                    ks == self.keys(),
                    out@.len() == j - p,
                    forall|t: int| 0 <= t < out@.len() ==> (#[trigger] out@[t]) == &self.entries@[p + t],
                decreases e - j,
            {
                out.push(&self.entries[j]);
                j = j + 1;
            }
            proof {
                assert forall|t: int| 0 <= t < out@.len() implies (#[trigger] out@[t]).0.kv() == rk[t]
                    && self@.contains_key(out@[t].0.kv()) && out@[t].1 == self@[out@[t].0.kv()] by {
                    self.lemma_index(p + t);
                }
            }
        } else {
            let mut q: usize = 0;
            match start_after {
                Some(s) => {
                    while q < n && self.entries[q].0.less(s)
                        invariant
                            self.wf(),
                            n == self.entries@.len(),
                            q <= n,
                            forall|i: int| 0 <= i < q ==> K::kv_lt(#[trigger] self.keys()[i], s.kv()),
                        decreases n - q,
                    {
                        q = q + 1;
                    }
                    proof {
                        assert forall|i: int| q <= i < self.keys().len() implies !K::kv_lt(#[trigger] self.keys()[i], s.kv()) by {
                            if i > q && K::kv_lt(self.keys()[i], s.kv()) {
                                assert(K::kv_lt(self.keys()[q as int], self.keys()[i]));
                                K::lemma_transitive(self.keys()[q as int], self.keys()[i], s.kv());
                            }
                        }
                        assert(self.is_split_before(s.kv(), q as int));
                        self.lemma_split_before_unique(s.kv(), q as int);
                    }
                },
                None => {
                    q = n;
                },
            }
            let b: usize = if limit < q { q - limit } else { 0 };
            assert(rk =~= ks.subrange(b as int, q as int).reverse());
            let mut j: usize = q;
            while j > b
                invariant
                    self.wf(),
                    n == self.entries@.len(),
                    b <= j <= q <= n,
                    ks == self.keys(),
                    out@.len() == q - j,
                    forall|t: int| 0 <= t < out@.len() ==> (#[trigger] out@[t]) == &self.entries@[q - 1 - t],
                decreases j - b,
            {
                j = j - 1;
                out.push(&self.entries[j]);
            }
            proof {
                assert forall|t: int| 0 <= t < out@.len() implies (#[trigger] out@[t]).0.kv() == rk[t]
                    && self@.contains_key(out@[t].0.kv()) && out@[t].1 == self@[out@[t].0.kv()] by {
                    self.lemma_index(q - 1 - t);
                }
            }
        }
        out
    }
}

/// The key value of an optional key.
pub open spec fn opt_kv<K: StoreKey>(o: &Option<K>) -> Option<K::Kv> {
    match o {
        Some(k) => Some(k.kv()),
        None => None,
    }
}

/// Some index of `k` in `ks`, where `k` occurs.
pub open spec fn old_map_index<T>(ks: Seq<T>, k: T) -> int {
    choose|i: int| 0 <= i < ks.len() && ks[i] == k
}

} // verus!

verus! {

/// A store of stores: an outer key picks an inner store.
pub open spec fn nested_wf<K1: StoreKey, K2: StoreKey, V>(outer: &OrdMap<K1, OrdMap<K2, V>>) -> bool {
    &&& outer.wf()
    &&& forall|k: K1::Kv| #[trigger] outer@.contains_key(k) ==> outer@[k].wf()
}

/// The inner store under `k1`, as a map; empty where there is none.
pub open spec fn inner<K1: StoreKey, K2: StoreKey, V>(outer: &OrdMap<K1, OrdMap<K2, V>>, k1: K1::Kv) -> Map<K2::Kv, V> {
    if outer@.contains_key(k1) {
        outer@[k1]@
    } else {
        Map::empty()
    }
}

/// Reads the value under `k2` in the inner store under `k1`.
pub fn nested_get<'a, K1: StoreKey, K2: StoreKey, V>(outer: &'a OrdMap<K1, OrdMap<K2, V>>, k1: &K1, k2: &K2) -> (r: Option<&'a V>)
    requires
        nested_wf(outer),
    ensures
        r == (if inner(outer, k1.kv()).contains_key(k2.kv()) { Some(&inner(outer, k1.kv())[k2.kv()]) } else { None }),
{
    match outer.get(k1) {
        Some(m) => m.get(k2),
        None => None,
    }
}

/// Stores `v` under `k2` in the inner store under `k1`.
pub fn nested_insert<K1: StoreKey, K2: StoreKey, V>(outer: &mut OrdMap<K1, OrdMap<K2, V>>, k1: K1, k2: K2, v: V)
    requires
        nested_wf(old(outer)),
    ensures
        nested_wf(final(outer)),
        forall|k: K1::Kv| #[trigger] inner(final(outer), k) == if k == k1.kv() {
            inner(old(outer), k).insert(k2.kv(), v)
        } else {
            inner(old(outer), k)
        },
{
    let ghost kk = k1.kv();
    let mut m = match outer.take(&k1) {
        Some(m) => m,
        None => OrdMap::new(),
    };
    m.insert(k2, v);
    outer.insert(k1, m);
    assert forall|k: K1::Kv| #[trigger] inner(final(outer), k) == if k == kk {
        inner(old(outer), k).insert(k2.kv(), v)
    } else {
        inner(old(outer), k)
    } by {
        if k == kk {
            assert(inner(final(outer), k) =~= inner(old(outer), k).insert(k2.kv(), v));
        }
    }
}

/// Removes the value under `k2` in the inner store under `k1`.
pub fn nested_remove<K1: StoreKey, K2: StoreKey, V>(outer: &mut OrdMap<K1, OrdMap<K2, V>>, k1: &K1, k2: &K2)
    requires
        nested_wf(old(outer)),
    ensures
        nested_wf(final(outer)),
        forall|k: K1::Kv| #[trigger] inner(final(outer), k) == if k == k1.kv() {
            inner(old(outer), k).remove(k2.kv())
        } else {
            inner(old(outer), k)
        },
{
    let ghost kk = k1.kv();
    match outer.take(k1) {
        Some(mut m) => {
            let _ = m.take(k2);
            outer.insert(k1.duplicate(), m);
            assert forall|k: K1::Kv| #[trigger] inner(final(outer), k) == if k == kk {
                inner(old(outer), k).remove(k2.kv())
            } else {
                inner(old(outer), k)
            } by {
                if k == kk {
                    assert(inner(final(outer), k) =~= inner(old(outer), k).remove(k2.kv()));
                }
            }
        },
        None => {
            assert forall|k: K1::Kv| #[trigger] inner(final(outer), k) == if k == kk {
                inner(old(outer), k).remove(k2.kv())
            } else {
                inner(old(outer), k)
            } by {
                if k == kk {
                    assert(inner(final(outer), k) =~= inner(old(outer), k).remove(k2.kv()));
                }
            }
        },
    }
}

} // verus!
