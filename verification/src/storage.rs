//! The storage facade: a multi-database keyspace with single-key
//! get/set/delete/exists, modelled as a sequence of maps.

use vstd::prelude::*;
use crate::strmap::StrMap;

verus! {

/// Copy a byte vector.
pub fn copy_bytes(v: &Vec<u8>) -> (r: Vec<u8>)
    ensures
        r@ == v@,
{
    let mut out: Vec<u8> = Vec::new();
    let mut i: usize = 0;
    while i < v.len()
        invariant
            0 <= i <= v@.len(),
            out@ =~= v@.subrange(0, i as int),
        decreases v@.len() - i,
    {
        out.push(v[i]);
        i = i + 1;
    }
    assert(out@ =~= v@);
    out
}

pub struct StorageAdapter {
    pub dbs: Vec<StrMap<Vec<u8>>>,
}

impl StorageAdapter {
    /// Every database's key index is well formed.
    pub open spec fn wf(self) -> bool {
        forall|i: int| 0 <= i < self.dbs@.len() ==> (#[trigger] self.dbs@[i]).wf()
    }

    /// The keyspaces, one map per database.
    pub open spec fn view(self) -> Seq<Map<Seq<char>, Seq<u8>>> {
        Seq::new(self.dbs@.len(), |i: int| self.dbs@[i].as_map())
    }

    /// A fresh adapter with `n` empty databases.
    pub fn with_db_count(n: usize) -> (r: Self)
        ensures
            r.wf(),
            r.view().len() == n,
            forall|i: int| 0 <= i < n ==> #[trigger] r.view()[i] =~= Map::<Seq<char>, Seq<u8>>::empty(),
    {
        let mut dbs: Vec<StrMap<Vec<u8>>> = Vec::new();
        let mut i: usize = 0;
        while i < n
            invariant
                0 <= i <= n,
                dbs@.len() == i,
                forall|j: int| 0 <= j < i ==> (#[trigger] dbs@[j]).wf() && dbs@[j].as_map()
                    =~= Map::<Seq<char>, Seq<u8>>::empty(),
            decreases n - i,
        {
            dbs.push(StrMap::new());
            i = i + 1;
        }
        StorageAdapter { dbs }
    }

    /// How many databases there are.
    pub fn db_count(&self) -> (r: usize)
        ensures
            r == self.view().len(),
    {
        self.dbs.len()
    }

    /// The value stored under `key` in database `db`, if any.
    pub fn get_from_db(&self, db: usize, key: &str) -> (r: Option<Vec<u8>>)
        requires
            self.wf(),
            db < self.view().len(),
        ensures
            match r {
                Some(v) => self.view()[db as int].contains_key(key@) && v@
                    == self.view()[db as int][key@],
                None => !self.view()[db as int].contains_key(key@),
            },
    {
        match self.dbs[db].get(key) {
            Some(v) => Some(copy_bytes(v)),
            None => None,
        }
    }

    /// Store `value` under `key` in database `db`.
    pub fn set_in_db(&mut self, db: usize, key: String, value: Vec<u8>)
        requires
            old(self).wf(),
            db < old(self).view().len(),
        ensures
            final(self).wf(),
            final(self).view().len() == old(self).view().len(),
            final(self).view()[db as int] =~= old(self).view()[db as int].insert(key@, value@),
            forall|i: int| 0 <= i < old(self).view().len() && i != db
                ==> #[trigger] final(self).view()[i] == old(self).view()[i],
    {
        let ghost before = self.dbs@;
        let mut m = self.dbs.remove(db);
        m.insert(key, value);
        self.dbs.insert(db, m);
        proof {
            assert(forall|i: int| 0 <= i < before.len() && i != db
                ==> #[trigger] self.dbs@[i] == before[i]);
        }
    }

    /// Remove `key` from database `db`; reports whether a key was removed.
    pub fn delete_from_db(&mut self, db: usize, key: &str) -> (r: bool)
        requires
            old(self).wf(),
            db < old(self).view().len(),
        ensures
            final(self).wf(),
            final(self).view().len() == old(self).view().len(),
            final(self).view()[db as int] =~= old(self).view()[db as int].remove(key@),
            forall|i: int| 0 <= i < old(self).view().len() && i != db
                ==> #[trigger] final(self).view()[i] == old(self).view()[i],
            r == old(self).view()[db as int].contains_key(key@),
    {
        let ghost before = self.dbs@;
        let mut m = self.dbs.remove(db);
        let r = m.remove(key);
        self.dbs.insert(db, m);
        proof {
            assert(forall|i: int| 0 <= i < before.len() && i != db
                ==> #[trigger] self.dbs@[i] == before[i]);
        }
        r
    }

    /// Whether `key` exists in database `db`.
    pub fn exists_in_db(&self, db: usize, key: &str) -> (r: bool)
        requires
            self.wf(),
            db < self.view().len(),
        ensures
            r == self.view()[db as int].contains_key(key@),
    {
        self.dbs[db].contains(key)
    }
}

} // verus!
