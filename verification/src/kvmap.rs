//! The store's backing map: an association list keyed by `u64`
//! identifiers, with unique keys, viewed as a `Map<u64, T>`.
use vstd::prelude::*;

verus! {

/// The mathematical content of an entry list: later entries win, though
/// the invariant keeps keys unique.
pub open spec fn map_of<T>(s: Seq<(u64, T)>) -> Map<u64, T>
    decreases s.len(),
{
    if s.len() == 0 {
        Map::empty()
    } else {
        map_of(s.drop_last()).insert(s.last().0, s.last().1)
    }
}

pub open spec fn unique_keys<T>(s: Seq<(u64, T)>) -> bool {
    forall|i: int, j: int| 0 <= i < j < s.len() ==> (#[trigger] s[i]).0 != (#[trigger] s[j]).0
}

pub proof fn lemma_map_of_contains<T>(s: Seq<(u64, T)>, k: u64)
    ensures
        map_of(s).contains_key(k) <==> exists|i: int| 0 <= i < s.len() && (#[trigger] s[i]).0 == k,
    decreases s.len(),
{
    if s.len() > 0 {
        lemma_map_of_contains(s.drop_last(), k);
        if s.last().0 == k {
            assert((s[s.len() - 1]).0 == k);
        } else if map_of(s).contains_key(k) {
            let i = choose|i: int| 0 <= i < s.drop_last().len() && (#[trigger] s.drop_last()[i]).0
                == k;
            assert((s[i]).0 == k);
        } else {
            if exists|i: int| 0 <= i < s.len() && (#[trigger] s[i]).0 == k {
                let i = choose|i: int| 0 <= i < s.len() && (#[trigger] s[i]).0 == k;
                assert(s.drop_last()[i].0 == k);
            }
        }
    }
}

pub proof fn lemma_map_of_get<T>(s: Seq<(u64, T)>, i: int)
    requires
        unique_keys(s),
        0 <= i < s.len(),
    ensures
        map_of(s).contains_key(s[i].0),
        map_of(s)[s[i].0] == s[i].1,
    decreases s.len(),
{
    if i == s.len() - 1 {
    } else {
        assert(unique_keys(s.drop_last())) by {
            assert(forall|a: int, b: int|
                0 <= a < b < s.drop_last().len() ==> (#[trigger] s.drop_last()[a]).0 != (
                #[trigger] s.drop_last()[b]).0);
        }
        assert(s.drop_last()[i] == s[i]);
        lemma_map_of_get(s.drop_last(), i);
        assert(s.last().0 != s[i].0);
    }
}

pub proof fn lemma_map_of_update<T>(s: Seq<(u64, T)>, i: int, k: u64, v: T)
    requires
        unique_keys(s),
        0 <= i < s.len(),
        s[i].0 == k,
    ensures
        map_of(s.update(i, (k, v))) == map_of(s).insert(k, v),
    decreases s.len(),
{
    let t = s.update(i, (k, v));
    if i == s.len() - 1 {
        assert(t.drop_last() =~= s.drop_last());
        assert(map_of(t) == map_of(s.drop_last()).insert(k, v));
        assert(map_of(s.drop_last()).insert(s.last().0, s.last().1).insert(k, v)
            =~= map_of(s.drop_last()).insert(k, v));
    } else {
        assert(unique_keys(s.drop_last())) by {
            assert(forall|a: int, b: int|
                0 <= a < b < s.drop_last().len() ==> (#[trigger] s.drop_last()[a]).0 != (
                #[trigger] s.drop_last()[b]).0);
        }
        assert(s.drop_last()[i] == s[i]);
        lemma_map_of_update(s.drop_last(), i, k, v);
        assert(t.drop_last() =~= s.drop_last().update(i, (k, v)));
        assert(t.last() == s.last());
        assert(s.last().0 != k);
        assert(map_of(s.drop_last()).insert(k, v).insert(s.last().0, s.last().1)
            =~= map_of(s.drop_last()).insert(s.last().0, s.last().1).insert(k, v));
    }
}

pub proof fn lemma_map_of_remove<T>(s: Seq<(u64, T)>, i: int)
    requires
        unique_keys(s),
        0 <= i < s.len(),
    ensures
        map_of(s.remove(i)) == map_of(s).remove(s[i].0),
    decreases s.len(),
{
    let k = s[i].0;
    if i == s.len() - 1 {
        assert(s.remove(i) =~= s.drop_last());
        assert(forall|a: int, b: int|
            0 <= a < b < s.drop_last().len() ==> (#[trigger] s.drop_last()[a]).0 != (
            #[trigger] s.drop_last()[b]).0);
        lemma_map_of_contains(s.drop_last(), k);
        assert(forall|a: int| 0 <= a < s.len() - 1 ==> (#[trigger] s[a]).0 != k);
        assert(!map_of(s.drop_last()).contains_key(k)) by {
            if map_of(s.drop_last()).contains_key(k) {
                let a = choose|a: int|
                    0 <= a < s.drop_last().len() && (#[trigger] s.drop_last()[a]).0 == k;
                assert((s[a]).0 == k);
            }
        }
        assert(map_of(s.drop_last()).insert(k, s.last().1).remove(k) =~= map_of(s.drop_last()));
    } else {
        assert(unique_keys(s.drop_last())) by {
            assert(forall|a: int, b: int|
                0 <= a < b < s.drop_last().len() ==> (#[trigger] s.drop_last()[a]).0 != (
                #[trigger] s.drop_last()[b]).0);
        }
        assert(s.drop_last()[i] == s[i]);
        lemma_map_of_remove(s.drop_last(), i);
        assert(s.remove(i).drop_last() =~= s.drop_last().remove(i));
        assert(s.remove(i).last() == s.last());
        assert(s.last().0 != k);
        assert(map_of(s.drop_last()).remove(k).insert(s.last().0, s.last().1)
            =~= map_of(s.drop_last()).insert(s.last().0, s.last().1).remove(k));
        assert(map_of(s.remove(i)) == map_of(s.drop_last()).remove(k).insert(
            s.last().0,
            s.last().1,
        ));
    }
}

pub proof fn lemma_map_of_dom_len<T>(s: Seq<(u64, T)>)
    requires
        unique_keys(s),
    ensures
        map_of(s).dom().finite(),
        map_of(s).dom().len() == s.len(),
    decreases s.len(),
{
    if s.len() > 0 {
        assert(unique_keys(s.drop_last())) by {
            assert(forall|a: int, b: int|
                0 <= a < b < s.drop_last().len() ==> (#[trigger] s.drop_last()[a]).0 != (
                #[trigger] s.drop_last()[b]).0);
        }
        lemma_map_of_dom_len(s.drop_last());
        let k = s.last().0;
        lemma_map_of_contains(s.drop_last(), k);
        assert(!map_of(s.drop_last()).contains_key(k)) by {
            if map_of(s.drop_last()).contains_key(k) {
                let a = choose|a: int|
                    0 <= a < s.drop_last().len() && (#[trigger] s.drop_last()[a]).0 == k;
                assert((s[a]).0 == k);
                assert((s[s.len() - 1]).0 == k);
            }
        }
        assert(map_of(s).dom() =~= map_of(s.drop_last()).dom().insert(k));
    }
}

/// An insertion-ordered map with `u64` keys, the shape of every record
/// table in the persistent store.
pub struct KvMap<T> {
    pairs: Vec<(u64, T)>,
}

impl<T> View for KvMap<T> {
    type V = Map<u64, T>;

    closed spec fn view(&self) -> Map<u64, T> {
        map_of(self.pairs@)
    }
}

impl<T> KvMap<T> {
    /// Keys are unique; every operation preserves this.
    pub closed spec fn wf(&self) -> bool {
        unique_keys(self.pairs@)
    }

    /// The entries in insertion order; the view forgets this order.
    pub closed spec fn entries(&self) -> Seq<(u64, T)> {
        self.pairs@
    }

    /// The view is the mathematical content of the entry list.
    pub proof fn lemma_view_entries(&self)
        ensures
            self@ == map_of(self.entries()),
            self.wf() ==> unique_keys(self.entries()),
    {
    }

    pub fn entry_len(&self) -> (r: usize)
        ensures
            r == self.entries().len(),
    {
        self.pairs.len()
    }

    pub fn entry_at(&self, i: usize) -> (r: (u64, &T))
        requires
            i < self.entries().len(),
        ensures
            r.0 == self.entries()[i as int].0,
            *r.1 == self.entries()[i as int].1,
    {
        let p = &self.pairs[i];
        (p.0, &p.1)
    }

    pub fn new() -> (r: Self)
        ensures
            r@ == Map::<u64, T>::empty(),
            r.entries() == Seq::<(u64, T)>::empty(),
            r.wf(),
    {
        let r = KvMap { pairs: Vec::new() };
        proof {
            assert(r.entries() =~= Seq::<(u64, T)>::empty());
        }
        r
    }

    pub fn contains_key(&self, k: u64) -> (r: bool)
        requires
            self.wf(),
        ensures
            r == self@.contains_key(k),
    {
        let n = self.pairs.len();
        let mut i: usize = 0;
        while i < n
            invariant
                n == self.pairs@.len(),
                i <= n,
                unique_keys(self.pairs@),
                forall|m: int| 0 <= m < i ==> (#[trigger] self.pairs@[m]).0 != k,
            decreases n - i,
        {
            if self.pairs[i].0 == k {
                proof {
                    lemma_map_of_get(self.pairs@, i as int);
                }
                return true;
            }
            i += 1;
        }
        proof {
            lemma_map_of_contains(self.pairs@, k);
        }
        false
    }

    pub fn get(&self, k: u64) -> (r: Option<&T>)
        requires
            self.wf(),
        ensures
            match r {
                Some(v) => self@.contains_key(k) && *v == self@[k],
                None => !self@.contains_key(k),
            },
    {
        let n = self.pairs.len();
        let mut i: usize = 0;
        while i < n
            invariant
                n == self.pairs@.len(),
                i <= n,
                unique_keys(self.pairs@),
                forall|m: int| 0 <= m < i ==> (#[trigger] self.pairs@[m]).0 != k,
            decreases n - i,
        {
            if self.pairs[i].0 == k {
                proof {
                    lemma_map_of_get(self.pairs@, i as int);
                }
                return Some(&self.pairs[i].1);
            }
            i += 1;
        }
        proof {
            lemma_map_of_contains(self.pairs@, k);
        }
        None
    }

    pub fn insert(&mut self, k: u64, v: T)
        requires
            old(self).wf(),
        ensures
            final(self)@ == old(self)@.insert(k, v),
            final(self).wf(),
            !old(self)@.contains_key(k) ==> final(self).entries() == old(self).entries().push(
                (k, v),
            ),
    {
        let n = self.pairs.len();
        let mut i: usize = 0;
        while i < n
            invariant
                n == self.pairs@.len(),
                i <= n,
                unique_keys(self.pairs@),
                self.pairs@ == old(self).pairs@,
                forall|m: int| 0 <= m < i ==> (#[trigger] self.pairs@[m]).0 != k,
            decreases n - i,
        {
            if self.pairs[i].0 == k {
                proof {
                    lemma_map_of_get(self.pairs@, i as int);
                    lemma_map_of_update(self.pairs@, i as int, k, v);
                }
                self.pairs.set(i, (k, v));
                proof {
                    assert(unique_keys(self.pairs@)) by {
                        assert(forall|a: int|
                            0 <= a < self.pairs@.len() && a != i ==> (#[trigger] self.pairs@[a]).0
                                == old(self).pairs@[a].0);
                    }
                }
                return ;
            }
            i += 1;
        }
        proof {
            lemma_map_of_contains(self.pairs@, k);
        }
        self.pairs.push((k, v));
        proof {
            assert(self.pairs@.drop_last() =~= old(self).pairs@);
            assert(unique_keys(self.pairs@)) by {
                assert(forall|a: int|
                    0 <= a < old(self).pairs@.len() ==> self.pairs@[a] == old(self).pairs@[a]);
            }
        }
    }

    pub fn remove(&mut self, k: u64)
        requires
            old(self).wf(),
        ensures
            final(self)@ == old(self)@.remove(k),
            final(self).wf(),
    {
        let n = self.pairs.len();
        let mut i: usize = 0;
        while i < n
            invariant
                n == self.pairs@.len(),
                i <= n,
                unique_keys(self.pairs@),
                self.pairs@ == old(self).pairs@,
                forall|m: int| 0 <= m < i ==> (#[trigger] self.pairs@[m]).0 != k,
            decreases n - i,
        {
            if self.pairs[i].0 == k {
                proof {
                    lemma_map_of_remove(self.pairs@, i as int);
                }
                self.pairs.remove(i);
                proof {
                    assert(unique_keys(self.pairs@)) by {
                        assert(forall|a: int, b: int|
                            0 <= a < b < self.pairs@.len() ==> exists|a2: int, b2: int|
                                0 <= a2 < b2 < old(self).pairs@.len() && (#[trigger] self.pairs@[a])
                                    == old(self).pairs@[a2] && (#[trigger] self.pairs@[b]) == old(
                                    self,
                                ).pairs@[b2]) by {
                            assert(forall|a: int|
                                0 <= a < i ==> (#[trigger] self.pairs@[a]) == old(
                                    self,
                                ).pairs@[a]);
                            assert(forall|a: int|
                                i <= a < self.pairs@.len() ==> (#[trigger] self.pairs@[a]) == old(
                                    self,
                                ).pairs@[a + 1]);
                        }
                    }
                }
                return ;
            }
            i += 1;
        }
        proof {
            lemma_map_of_contains(self.pairs@, k);
            assert(map_of(self.pairs@).remove(k) =~= map_of(self.pairs@));
        }
    }

    pub fn len(&self) -> (r: usize)
        requires
            self.wf(),
        ensures
            r == self@.dom().len(),
            self@.dom().finite(),
    {
        proof {
            lemma_map_of_dom_len(self.pairs@);
        }
        self.pairs.len()
    }
}

/// `x` occurs among the strings of `s`.
pub open spec fn seq_has_string(s: Seq<String>, x: Seq<char>) -> bool {
    exists|i: int| 0 <= i < s.len() && (#[trigger] s[i])@ == x
}

/// `x` is one of the values stored in `m`.
pub open spec fn map_has_string(m: Map<u64, String>, x: Seq<char>) -> bool {
    exists|k: u64| #[trigger] m.contains_key(k) && m[k]@ == x
}

impl KvMap<String> {
    /// The stored strings, one per key, in insertion order.
    pub fn values(&self) -> (r: Vec<String>)
        requires
            self.wf(),
        ensures
            r@.len() == self@.dom().len(),
            r@.len() == self.entries().len(),
            forall|i: int| 0 <= i < r@.len() ==> (#[trigger] r@[i])@ == self.entries()[i].1@,
            forall|k: u64| #[trigger] self@.contains_key(k) ==> seq_has_string(r@, self@[k]@),
            forall|i: int| 0 <= i < r@.len() ==> map_has_string(self@, (#[trigger] r@[i])@),
    {
        proof {
            lemma_map_of_dom_len(self.pairs@);
        }
        let n = self.pairs.len();
        let mut out: Vec<String> = Vec::new();
        let mut i: usize = 0;
        while i < n
            invariant
                n == self.pairs@.len(),
                i <= n,
                unique_keys(self.pairs@),
                out@.len() == i,
                forall|m: int| 0 <= m < i ==> (#[trigger] out@[m])@ == self.pairs@[m].1@,
                forall|m: int|
                    0 <= m < i ==> (#[trigger] out@[m])@ == map_of(self.pairs@)[self.pairs@[m].0]@,
            decreases n - i,
        {
            proof {
                lemma_map_of_get(self.pairs@, i as int);
            }
            out.push(self.pairs[i].1.clone());
            i += 1;
        }
        proof {
            assert forall|k: u64| #[trigger] self@.contains_key(k) implies seq_has_string(
                out@,
                self@[k]@,
            ) by {
                lemma_map_of_contains(self.pairs@, k);
                let i = choose|i: int| 0 <= i < self.pairs@.len() && (#[trigger] self.pairs@[i]).0
                    == k;
                assert(0 <= i < out@.len() && out@[i]@ == self@[k]@);
            }
            assert forall|i: int| 0 <= i < out@.len() implies map_has_string(
                self@,
                out@[i]@,
            ) by {
                lemma_map_of_get(self.pairs@, i);
                let k0 = self.pairs@[i].0;
                assert(self@.contains_key(k0) && self@[k0]@ == out@[i]@);
            }
        }
        out
    }
}

} // verus!
