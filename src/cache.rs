use vstd::prelude::*;

use crate::types::CacheKey;

verus! {

/// Position of `x` in `s`, when `s` has no duplicates and holds `x`.
pub proof fn lemma_remove_value_at<T>(s: Seq<T>, i: int)
    requires
        s.no_duplicates(),
        0 <= i < s.len(),
    ensures
        s.remove_value(s[i]) == s.remove(i),
        s.remove(i).no_duplicates(),
        !s.remove(i).contains(s[i]),
        forall|y: T| y != s[i] ==> (s.remove(i).contains(y) <==> s.contains(y)),
{
    s.index_of_first_ensures(s[i]);
    let r = s.remove(i);
    assert forall|a: int, b: int| 0 <= a < r.len() && 0 <= b < r.len() && a != b implies r[a]
        != r[b] by {
        let sa = if a < i { a } else { a + 1 };
        let sb = if b < i { b } else { b + 1 };
        assert(r[a] == s[sa]);
        assert(r[b] == s[sb]);
    }
    assert forall|y: T| y != s[i] implies (r.contains(y) <==> s.contains(y)) by {
        if r.contains(y) {
            let k = choose|k: int| 0 <= k < r.len() && r[k] == y;
            let sk = if k < i { k } else { k + 1 };
            assert(s[sk] == y);
        }
        if s.contains(y) {
            let k = choose|k: int| 0 <= k < s.len() && s[k] == y;
            assert(k != i);
            let rk = if k < i { k } else { k - 1 };
            assert(r[rk] == y);
        }
    }
    if r.contains(s[i]) {
        let k = choose|k: int| 0 <= k < r.len() && r[k] == s[i];
        let sk = if k < i { k } else { k + 1 };
        assert(s[sk] == s[i]);
    }
}

/// The elements of `s` at the positions where `keep` is true, in order.
pub open spec fn kept<T>(s: Seq<T>, keep: Seq<bool>) -> Seq<T>
    decreases s.len(),
{
    if s.len() == 0 || keep.len() == 0 {
        Seq::empty()
    } else {
        let rest = kept(s.drop_last(), keep.drop_last());
        if keep.last() {
            rest.push(s.last())
        } else {
            rest
        }
    }
}

/// What `kept` selects is drawn from `s`, no longer than it, and free of duplicates
/// when `s` is.
pub proof fn lemma_kept_subseq<T>(s: Seq<T>, keep: Seq<bool>)
    requires
        keep.len() == s.len(),
    ensures
        forall|e: T| kept(s, keep).contains(e) ==> s.contains(e),
        kept(s, keep).len() <= s.len(),
        s.no_duplicates() ==> kept(s, keep).no_duplicates(),
    decreases s.len(),
{
    if s.len() > 0 {
        lemma_kept_subseq(s.drop_last(), keep.drop_last());
        let rest = kept(s.drop_last(), keep.drop_last());
        let r = kept(s, keep);
        assert forall|e: T| r.contains(e) implies s.contains(e) by {
            let idx = choose|idx: int| 0 <= idx < r.len() && r[idx] == e;
            if idx < rest.len() {
                assert(rest[idx] == e);
                assert(s.drop_last().contains(e));
                let k = choose|k: int| 0 <= k < s.drop_last().len() && s.drop_last()[k] == e;
                assert(s[k] == e);
            } else {
                assert(s[s.len() - 1] == e);
            }
        }
        if s.no_duplicates() && keep.last() {
            assert(s.drop_last().no_duplicates());
            assert forall|a: int, b: int|
                0 <= a < r.len() && 0 <= b < r.len() && a != b implies r[a] != r[b] by {
                if a == r.len() - 1 || b == r.len() - 1 {
                    let o = if a == r.len() - 1 { b } else { a };
                    assert(rest[o] == r[o]);
                    assert(s.drop_last().contains(r[o]));
                    let k = choose|k: int| 0 <= k < s.drop_last().len() && s.drop_last()[k] == r[o];
                    assert(s[k] == r[o]);
                    assert(k != s.len() - 1);
                } else {
                    assert(r[a] == rest[a]);
                    assert(r[b] == rest[b]);
                }
            }
        }
    }
}

/// Touching `x` in a recency sequence bounded by `cap`: moved to the end when present,
/// appended when new, with the first (least recent) element evicted when full.
pub open spec fn lru_insert<T>(s: Seq<T>, x: T, cap: nat) -> Seq<T> {
    if s.contains(x) {
        s.remove_value(x).push(x)
    } else if s.len() < cap {
        s.push(x)
    } else {
        s.drop_first().push(x)
    }
}

/// The element that touching `x` evicts, if any.
pub open spec fn lru_evicted<T>(s: Seq<T>, x: T, cap: nat) -> Option<T> {
    if !s.contains(x) && s.len() >= cap && s.len() > 0 {
        Some(s[0])
    } else {
        None
    }
}

/// A capacity-bounded set that remembers the order in which its members were last
/// touched. When it is full, inserting a new member evicts the least recently touched
/// one.
#[derive(Debug)]
pub struct LruCache<T> {
    limit: usize,
    inner: Vec<T>,
}

impl<T: CacheKey> View for LruCache<T> {
    /// The members, least recently touched first.
    type V = Seq<T>;

    closed spec fn view(&self) -> Seq<T> {
        self.inner@
    }
}

impl<T: CacheKey> LruCache<T> {
    /// The largest number of members the cache holds.
    pub closed spec fn capacity(&self) -> nat {
        self.limit as nat
    }

    pub open spec fn wf(&self) -> bool {
        &&& 0 < self.capacity()
        &&& self@.len() <= self.capacity()
        &&& self@.no_duplicates()
    }

    /// An empty cache that holds at most `limit` members.
    pub fn new(limit: usize) -> (r: Self)
        requires
            limit > 0,
        ensures
            r.wf(),
            r@ == Seq::<T>::empty(),
            r.capacity() == limit,
    {
        LruCache { limit, inner: Vec::new() }
    }

    pub fn len(&self) -> (r: usize)
        ensures
            r == self@.len(),
    {
        self.inner.len()
    }

    /// The member at position `i`, counting from the least recently touched.
    pub fn get(&self, i: usize) -> (r: T)
        requires
            i < self@.len(),
        ensures
            r == self@[i as int],
    {
        self.inner[i]
    }

    fn position(&self, x: &T) -> (r: Option<usize>)
        ensures
            match r {
                Some(i) => i < self@.len() && self@[i as int] == *x,
                None => !self@.contains(*x),
            },
    {
        let mut i: usize = 0;
        while i < self.inner.len()
            invariant
                i <= self.inner@.len(),
                forall|j: int| 0 <= j < i ==> self.inner@[j] != *x,
            decreases self.inner@.len() - i,
        {
            if self.inner[i].same(x) {
                return Some(i);
            }
            i += 1;
        }
        None
    }

    pub fn contains(&self, x: &T) -> (r: bool)
        ensures
            r == self@.contains(*x),
    {
        self.position(x).is_some()
    }

    /// Removes `x`; returns whether it was a member.
    pub fn remove(&mut self, x: &T) -> (r: bool)
        requires
            old(self).wf(),
        ensures
            final(self).wf(),
            final(self).capacity() == old(self).capacity(),
            r == old(self)@.contains(*x),
            final(self)@ == old(self)@.remove_value(*x),
            !final(self)@.contains(*x),
            forall|y: T| y != *x ==> (final(self)@.contains(y) <==> old(self)@.contains(y)),
    {
        match self.position(x) {
            Some(i) => {
                proof {
                    lemma_remove_value_at(self@, i as int);
                }
                self.inner.remove(i);
                true
            },
            None => {
                proof {
                    self@.index_of_first_ensures(*x);
                }
                false
            },
        }
    }

    /// Keeps the members at the positions where `keep` is true, in order.
    pub fn retain_marked(&mut self, keep: &Vec<bool>)
        requires
            old(self).wf(),
            keep@.len() == old(self)@.len(),
        ensures
            final(self).wf(),
            final(self).capacity() == old(self).capacity(),
            final(self)@ == kept(old(self)@, keep@),
    {
        let mut out: Vec<T> = Vec::new();
        let mut i: usize = 0;
        while i < self.inner.len()
            invariant
                i <= self.inner@.len(),
                keep@.len() == self.inner@.len(),
                self.inner@ == old(self)@,
                out@ == kept(self.inner@.take(i as int), keep@.take(i as int)),
            decreases self.inner@.len() - i,
        {
            proof {
                assert(self.inner@.take(i + 1).drop_last() =~= self.inner@.take(i as int));
                assert(keep@.take(i + 1).drop_last() =~= keep@.take(i as int));
            }
            if keep[i] {
                out.push(self.inner[i]);
            }
            i += 1;
        }
        proof {
            assert(self.inner@.take(i as int) =~= self.inner@);
            assert(keep@.take(i as int) =~= keep@);
            lemma_kept_subseq(old(self)@, keep@);
        }
        self.inner = out;
    }

    /// Touches `x`, inserting it when it is new. When a new member does not fit, the
    /// least recently touched member is evicted and returned. The first component
    /// tells whether `x` is new.
    pub fn insert_and_get_evicted(&mut self, x: T) -> (r: (bool, Option<T>))
        requires
            old(self).wf(),
        ensures
            final(self).wf(),
            final(self).capacity() == old(self).capacity(),
            old(self)@.contains(x) ==> r == (false, None::<T>) && final(self)@ == old(
                self,
            )@.remove_value(x).push(x),
            !old(self)@.contains(x) && old(self)@.len() < old(self).capacity() ==> r == (
                true,
                None::<T>,
            ) && final(self)@ == old(self)@.push(x),
            !old(self)@.contains(x) && old(self)@.len() == old(self).capacity() ==> r == (
                true,
                Some(old(self)@[0]),
            ) && final(self)@ == old(self)@.drop_first().push(x),
            final(self)@ == lru_insert(old(self)@, x, old(self).capacity()),
            r.1 == lru_evicted(old(self)@, x, old(self).capacity()),
    {
        match self.position(&x) {
            Some(i) => {
                proof {
                    lemma_remove_value_at(self@, i as int);
                }
                self.inner.remove(i);
                self.inner.push(x);
                (false, None)
            },
            None => {
                if self.inner.len() < self.limit {
                    self.inner.push(x);
                    proof {
                        assert forall|a: int, b: int|
                            0 <= a < self@.len() && 0 <= b < self@.len() && a != b implies self@[a]
                            != self@[b] by {
                            if a == self@.len() - 1 {
                                assert(old(self)@.contains(self@[b]));
                            } else if b == self@.len() - 1 {
                                assert(old(self)@.contains(self@[a]));
                            }
                        }
                    }
                    (true, None)
                } else {
                    let evicted = self.inner.remove(0);
                    proof {
                        lemma_remove_value_at(old(self)@, 0);
                    }
                    self.inner.push(x);
                    proof {
                        assert(old(self)@.remove(0) =~= old(self)@.drop_first());
                        let mid = old(self)@.remove(0);
                        assert forall|a: int, b: int|
                            0 <= a < self@.len() && 0 <= b < self@.len() && a != b implies self@[a]
                            != self@[b] by {
                            if a == self@.len() - 1 {
                                assert(mid[b] == self@[b]);
                                assert(old(self)@.contains(mid[b]));
                            } else if b == self@.len() - 1 {
                                assert(mid[a] == self@[a]);
                                assert(old(self)@.contains(mid[a]));
                            }
                        }
                    }
                    (true, Some(evicted))
                }
            },
        }
    }

    /// Touches `x`, inserting it when it is new (evicting the least recently touched
    /// member when full); returns whether `x` is new.
    pub fn insert(&mut self, x: T) -> (r: bool)
        requires
            old(self).wf(),
        ensures
            final(self).wf(),
            final(self).capacity() == old(self).capacity(),
            r == !old(self)@.contains(x),
            old(self)@.contains(x) ==> final(self)@ == old(self)@.remove_value(x).push(x),
            !old(self)@.contains(x) && old(self)@.len() < old(self).capacity() ==> final(self)@
                == old(self)@.push(x),
            !old(self)@.contains(x) && old(self)@.len() == old(self).capacity() ==> final(self)@
                == old(self)@.drop_first().push(x),
            final(self)@ == lru_insert(old(self)@, x, old(self).capacity()),
    {
        self.insert_and_get_evicted(x).0
    }
}

} // verus!
