//! A small string-keyed map backed by an association vector, with a
//! `Map` view. Keys are unique; iteration order is insertion order.

use vstd::prelude::*;

verus! {

/// Whether the text of `a` equals the text of `b`.
pub fn str_eq(a: &str, b: &str) -> (r: bool)
    ensures
        r == (a@ == b@),
{
    let n = a.unicode_len();
    let m = b.unicode_len();
    if n != m {
        return false;
    }
    let mut i: usize = 0;
    while i < n
        invariant
            0 <= i <= n,
            n == a@.len(),
            n == b@.len(),
            forall|j: int| 0 <= j < i ==> a@[j] == b@[j],
        decreases n - i,
    {
        if a.get_char(i) != b.get_char(i) {
            return false;
        }
        i = i + 1;
    }
    assert(a@ =~= b@);
    true
}

pub struct StrMap<V> {
    pub entries: Vec<(String, V)>,
}

impl<V: View> StrMap<V> {
    /// Keys are pairwise distinct.
    pub open spec fn wf(self) -> bool {
        forall|i: int, j: int|
            0 <= i < j < self.entries@.len() ==> (#[trigger] self.entries@[i]).0@
                != (#[trigger] self.entries@[j]).0@
    }

    /// The abstract map this association vector holds.
    pub open spec fn as_map_of(s: Seq<(String, V)>) -> Map<Seq<char>, V::V>
        decreases s.len(),
    {
        if s.len() == 0 {
            Map::empty()
        } else {
            Self::as_map_of(s.drop_last()).insert(s.last().0@, s.last().1@)
        }
    }

    pub open spec fn as_map(self) -> Map<Seq<char>, V::V> {
        Self::as_map_of(self.entries@)
    }

    /// The map contains exactly the keys present in the vector.
    pub proof fn lemma_contains(s: Seq<(String, V)>, k: Seq<char>)
        ensures
            Self::as_map_of(s).contains_key(k) <==> exists|i: int|
                0 <= i < s.len() && (#[trigger] s[i]).0@ == k,
        decreases s.len(),
    {
        if s.len() > 0 {
            Self::lemma_contains(s.drop_last(), k);
            if Self::as_map_of(s).contains_key(k) {
                if s.last().0@ == k {
                    assert((s[s.len() - 1]).0@ == k);
                } else {
                    let i = choose|i: int|
                        0 <= i < s.drop_last().len() && (#[trigger] s.drop_last()[i]).0@ == k;
                    assert((s[i]).0@ == k);
                }
            }
            if exists|i: int| 0 <= i < s.len() && (#[trigger] s[i]).0@ == k {
                let i = choose|i: int| 0 <= i < s.len() && (#[trigger] s[i]).0@ == k;
                if i < s.len() - 1 {
                    assert((s.drop_last()[i]).0@ == k);
                }
            }
        }
    }

    /// With unique keys, the entry at `i` gives the map's value at its key.
    pub proof fn lemma_lookup(s: Seq<(String, V)>, i: int)
        requires
            0 <= i < s.len(),
            forall|x: int, y: int|
                0 <= x < y < s.len() ==> (#[trigger] s[x]).0@ != (#[trigger] s[y]).0@,
        ensures
            Self::as_map_of(s).contains_key((s[i]).0@),
            Self::as_map_of(s)[(s[i]).0@] == (s[i]).1@,
        decreases s.len(),
    {
        if i == s.len() - 1 {
        } else {
            assert(forall|x: int, y: int|
                0 <= x < y < s.drop_last().len() ==> (#[trigger] s.drop_last()[x]).0@
                    != (#[trigger] s.drop_last()[y]).0@);
            Self::lemma_lookup(s.drop_last(), i);
            assert((s[i]).0@ != s.last().0@);
        }
    }

    /// Removing the entry at `i` removes exactly its key from the map.
    pub proof fn lemma_remove(s: Seq<(String, V)>, i: int)
        requires
            0 <= i < s.len(),
            forall|x: int, y: int|
                0 <= x < y < s.len() ==> (#[trigger] s[x]).0@ != (#[trigger] s[y]).0@,
        ensures
            Self::as_map_of(s.remove(i)) =~= Self::as_map_of(s).remove((s[i]).0@),
        decreases s.len(),
    {
        let k = (s[i]).0@;
        if i == s.len() - 1 {
            assert(s.remove(i) =~= s.drop_last());
            Self::lemma_contains(s.drop_last(), k);
            assert(forall|j: int| 0 <= j < s.drop_last().len() ==> (#[trigger] s.drop_last()[j]).0@
                != k);
            assert(!Self::as_map_of(s.drop_last()).contains_key(k));
            assert(Self::as_map_of(s.drop_last()) =~= Self::as_map_of(
                s.drop_last(),
            ).insert(k, (s[i]).1@).remove(k));
        } else {
            let t = s.remove(i);
            assert(t.drop_last() =~= s.drop_last().remove(i));
            assert(t.last() == s.last());
            assert(forall|x: int, y: int|
                0 <= x < y < s.drop_last().len() ==> (#[trigger] s.drop_last()[x]).0@
                    != (#[trigger] s.drop_last()[y]).0@);
            Self::lemma_remove(s.drop_last(), i);
            assert((s.drop_last()[i]).0 == (s[i]).0);
            assert(k != s.last().0@);
            assert(Self::as_map_of(t) == Self::as_map_of(t.drop_last()).insert(
                s.last().0@,
                s.last().1@,
            ));
            assert(Self::as_map_of(s.drop_last()).remove(k).insert(s.last().0@, s.last().1@)
                =~= Self::as_map_of(s.drop_last()).insert(s.last().0@, s.last().1@).remove(k));
        }
    }

    pub fn new() -> (r: Self)
        ensures
            r.wf(),
            r.as_map() =~= Map::<Seq<char>, V::V>::empty(),
            r.entries@.len() == 0,
    {
        StrMap { entries: Vec::new() }
    }

    /// Index of the entry holding `k`, if any.
    fn find(&self, k: &str) -> (r: Option<usize>)
        ensures
            r matches Some(i) ==> i < self.entries@.len() && (self.entries@[i as int]).0@ == k@,
            r is None ==> forall|i: int|
                0 <= i < self.entries@.len() ==> (#[trigger] self.entries@[i]).0@ != k@,
    {
        let mut i: usize = 0;
        while i < self.entries.len()
            invariant
                0 <= i <= self.entries@.len(),
                forall|j: int| 0 <= j < i ==> (#[trigger] self.entries@[j]).0@ != k@,
            decreases self.entries@.len() - i,
        {
            if str_eq(self.entries[i].0.as_str(), k) {
                return Some(i);
            }
            i = i + 1;
        }
        None
    }

    /// Whether `k` is present.
    pub fn contains(&self, k: &str) -> (r: bool)
        ensures
            r == self.as_map().contains_key(k@),
    {
        proof {
            Self::lemma_contains(self.entries@, k@);
        }
        match self.find(k) {
            Some(_) => true,
            None => false,
        }
    }

    /// The value stored under `k`, if any.
    pub fn get(&self, k: &str) -> (r: Option<&V>)
        requires
            self.wf(),
        ensures
            match r {
                Some(v) => self.as_map().contains_key(k@) && v@ == self.as_map()[k@],
                None => !self.as_map().contains_key(k@),
            },
    {
        proof {
            Self::lemma_contains(self.entries@, k@);
        }
        match self.find(k) {
            Some(i) => {
                proof {
                    Self::lemma_lookup(self.entries@, i as int);
                }
                Some(&self.entries[i].1)
            },
            None => None,
        }
    }

    /// Insert or replace the value under `k`.
    pub fn insert(&mut self, k: String, v: V)
        requires
            old(self).wf(),
        ensures
            final(self).wf(),
            final(self).as_map() =~= old(self).as_map().insert(k@, v@),
    {
        proof {
            Self::lemma_contains(self.entries@, k@);
        }
        match self.find(k.as_str()) {
            Some(i) => {
                proof {
                    Self::lemma_remove(self.entries@, i as int);
                }
                let ghost before = self.entries@;
                self.entries.remove(i);
                assert(self.entries@ =~= before.remove(i as int));
                assert(forall|x: int, y: int|
                    0 <= x < y < self.entries@.len() ==> (#[trigger] self.entries@[x]).0@
                        != (#[trigger] self.entries@[y]).0@) by {
                    assert(forall|x: int|
                        0 <= x < before.remove(i as int).len() ==> #[trigger] before.remove(
                            i as int,
                        )[x] == if x < i { before[x] } else { before[x + 1] });
                }
                proof {
                    Self::lemma_contains(self.entries@, k@);
                }
                self.push_absent(k, v);
            },
            None => {
                self.push_absent(k, v);
            },
        }
    }

    /// Push an entry whose key is known to be absent.
    fn push_absent(&mut self, k: String, v: V)
        requires
            old(self).wf(),
            forall|i: int|
                0 <= i < old(self).entries@.len() ==> (#[trigger] old(self).entries@[i]).0@ != k@,
        ensures
            final(self).wf(),
            final(self).as_map() =~= old(self).as_map().insert(k@, v@),
            final(self).entries@.len() == old(self).entries@.len() + 1,
    {
        let ghost before = self.entries@;
        let ghost kk = k@;
        let ghost vv = v@;
        self.entries.push((k, v));
        proof {
            assert(self.entries@.drop_last() =~= before);
            assert((self.entries@.last()).0@ == kk);
            assert((self.entries@.last()).1@ == vv);
            assert(forall|i: int| 0 <= i < before.len() ==> #[trigger] self.entries@[i]
                == before[i]);
        }
    }

    /// Remove `k`; reports whether it was present.
    pub fn remove(&mut self, k: &str) -> (r: bool)
        requires
            old(self).wf(),
        ensures
            final(self).wf(),
            final(self).as_map() =~= old(self).as_map().remove(k@),
            r == old(self).as_map().contains_key(k@),
    {
        proof {
            Self::lemma_contains(self.entries@, k@);
        }
        match self.find(k) {
            Some(i) => {
                proof {
                    Self::lemma_remove(self.entries@, i as int);
                    Self::lemma_lookup(self.entries@, i as int);
                }
                let ghost before = self.entries@;
                self.entries.remove(i);
                assert(self.entries@ =~= before.remove(i as int));
                assert(forall|x: int, y: int|
                    0 <= x < y < self.entries@.len() ==> (#[trigger] self.entries@[x]).0@
                        != (#[trigger] self.entries@[y]).0@) by {
                    assert(forall|x: int|
                        0 <= x < before.remove(i as int).len() ==> #[trigger] before.remove(
                            i as int,
                        )[x] == if x < i { before[x] } else { before[x + 1] });
                }
                true
            },
            None => {
                assert(self.as_map() =~= self.as_map().remove(k@));
                false
            },
        }
    }

    /// Remove every entry.
    pub fn clear(&mut self)
        ensures
            final(self).wf(),
            final(self).as_map() =~= Map::<Seq<char>, V::V>::empty(),
            final(self).entries@.len() == 0,
    {
        self.entries = Vec::new();
    }
}

} // verus!
