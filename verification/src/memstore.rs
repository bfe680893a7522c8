//! An in-memory variable store, for exercising the manager without firmware.

use crate::error::StoreError;
use crate::store::{StoreContents, VarId, VarStore};
use vstd::pervasive::VecAdditionalExecFns;
use vstd::prelude::*;
use vstd::slice::slice_to_vec;

verus! {

/// One stored variable.
struct MemVar {
    id: VarId,
    value: Vec<u8>,
    attributes: u32,
}

/// The contents of an entry list, folded into a map; later entries shadow
/// earlier ones with the same identifier.
spec fn map_of_entries(s: Seq<MemVar>) -> StoreContents
    decreases s.len(),
{
    if s.len() == 0 {
        Map::empty()
    } else {
        map_of_entries(s.drop_last()).insert(
            s.last().id@,
            (s.last().value@, s.last().attributes),
        )
    }
}

/// No two entries share an identifier.
spec fn distinct_ids(s: Seq<MemVar>) -> bool {
    forall|i: int, j: int| 0 <= i < j < s.len() ==> s[i].id@ != s[j].id@
}

proof fn lemma_map_of_entries_absent(s: Seq<MemVar>, k: (Seq<char>, u128))
    requires
        forall|i: int| 0 <= i < s.len() ==> s[i].id@ != k,
    ensures
        !map_of_entries(s).contains_key(k),
    decreases s.len(),
{
    if s.len() > 0 {
        assert(forall|i: int| 0 <= i < s.drop_last().len() ==> s.drop_last()[i] == s[i]);
        lemma_map_of_entries_absent(s.drop_last(), k);
    }
}

proof fn lemma_map_of_entries_get(s: Seq<MemVar>, i: int)
    requires
        distinct_ids(s),
        0 <= i < s.len(),
    ensures
        map_of_entries(s).contains_key(s[i].id@),
        map_of_entries(s)[s[i].id@] == (s[i].value@, s[i].attributes),
    decreases s.len(),
{
    if i < s.len() - 1 {
        assert(forall|m: int| 0 <= m < s.drop_last().len() ==> s.drop_last()[m] == s[m]);
        lemma_map_of_entries_get(s.drop_last(), i);
        assert(s.last().id@ != s[i].id@);
    }
}

proof fn lemma_map_of_entries_update(s: Seq<MemVar>, i: int, e: MemVar)
    requires
        distinct_ids(s),
        0 <= i < s.len(),
        e.id@ == s[i].id@,
    ensures
        map_of_entries(s.update(i, e)) == map_of_entries(s).insert(
            e.id@,
            (e.value@, e.attributes),
        ),
    decreases s.len(),
{
    let t = s.update(i, e);
    if i == s.len() - 1 {
        assert(t.drop_last() =~= s.drop_last());
        assert(t.last() == e);
        assert(map_of_entries(t) =~= map_of_entries(s).insert(e.id@, (e.value@, e.attributes)));
    } else {
        assert(t.drop_last() =~= s.drop_last().update(i, e));
        assert(t.last() == s.last());
        assert(forall|m: int| 0 <= m < s.drop_last().len() ==> s.drop_last()[m] == s[m]);
        lemma_map_of_entries_update(s.drop_last(), i, e);
        assert(s.last().id@ != e.id@);
        assert(map_of_entries(t) =~= map_of_entries(s).insert(e.id@, (e.value@, e.attributes)));
    }
}

proof fn lemma_map_of_entries_remove(s: Seq<MemVar>, i: int)
    requires
        distinct_ids(s),
        0 <= i < s.len(),
    ensures
        map_of_entries(s.remove(i)) == map_of_entries(s).remove(s[i].id@),
    decreases s.len(),
{
    let t = s.remove(i);
    if i == s.len() - 1 {
        assert(t =~= s.drop_last());
        assert(forall|m: int| 0 <= m < s.drop_last().len() ==> s.drop_last()[m] == s[m]);
        lemma_map_of_entries_absent(s.drop_last(), s[i].id@);
        assert(map_of_entries(t) =~= map_of_entries(s).remove(s[i].id@));
    } else {
        assert(t.drop_last() =~= s.drop_last().remove(i));
        assert(t.last() == s.last());
        assert(forall|m: int| 0 <= m < s.drop_last().len() ==> s.drop_last()[m] == s[m]);
        lemma_map_of_entries_remove(s.drop_last(), i);
        assert(s.last().id@ != s[i].id@);
        assert(map_of_entries(t) =~= map_of_entries(s).remove(s[i].id@));
    }
}

/// A variable store held in memory, keyed by identifier.
pub struct MemStore {
    entries: Vec<MemVar>,
}

impl MemStore {
    #[verifier::type_invariant]
    spec fn well_formed(self) -> bool {
        distinct_ids(self.entries@)
    }

    /// Creates an empty store.
    pub fn new() -> (r: MemStore)
        ensures
            r.vars() == StoreContents::empty(),
    {
        MemStore { entries: Vec::new() }
    }

    /// Returns the position of `id`, if it is stored.
    fn find(&self, id: &VarId) -> (r: Option<usize>)
        ensures
            match r {
                Some(i) => i < self.entries@.len() && self.entries@[i as int].id@ == id@,
                None => forall|i: int| 0 <= i < self.entries@.len() ==> self.entries@[i].id@ != id@,
            },
    {
        let mut i: usize = 0;
        while i < self.entries.len()
            invariant
                i <= self.entries@.len(),
                forall|m: int| 0 <= m < i ==> self.entries@[m].id@ != id@,
            decreases self.entries@.len() - i,
        {
            let e = &self.entries[i];
            if e.id.name == id.name && e.id.vendor == id.vendor {
                return Some(i);
            }
            i = i + 1;
        }
        None
    }
}

impl VarStore for MemStore {
    closed spec fn vars(&self) -> StoreContents {
        map_of_entries(self.entries@)
    }

    fn read(&self, id: &VarId, buf: &mut Vec<u8>) -> (r: Result<(usize, u32), StoreError>) {
        proof {
            use_type_invariant(self);
        }
        let i = match self.find(id) {
            Some(i) => i,
            None => {
                proof {
                    lemma_map_of_entries_absent(self.entries@, id@);
                }
                return Err(StoreError::NotFound);
            },
        };
        proof {
            lemma_map_of_entries_get(self.entries@, i as int);
        }
        let len = self.entries[i].value.len();
        if len > buf.len() {
            return Err(StoreError::BufferTooSmall);
        }
        let mut k: usize = 0;
        while k < len
            invariant
                k <= len,
                i < self.entries@.len(),
                len == self.entries@[i as int].value@.len(),
                len <= buf@.len(),
                buf@.len() == old(buf)@.len(),
                forall|m: int| 0 <= m < k ==> buf@[m] == self.entries@[i as int].value@[m],
                forall|m: int| k <= m < buf@.len() ==> buf@[m] == old(buf)@[m],
            decreases len - k,
        {
            buf.set(k, self.entries[i].value[k]);
            k = k + 1;
        }
        proof {
            assert(buf@ =~= self.entries@[i as int].value@ + old(buf)@.skip(len as int));
        }
        Ok((len, self.entries[i].attributes))
    }

    fn write(&mut self, id: &VarId, attributes: u32, value: &[u8]) -> (r: Result<
        (),
        StoreError,
    >) {
        proof {
            use_type_invariant(&*self);
        }
        let entry = MemVar { id: id.duplicate(), value: slice_to_vec(value), attributes };
        let found = self.find(id);
        let mut es: Vec<MemVar> = Vec::new();
        core::mem::swap(&mut es, &mut self.entries);
        match found {
            Some(i) => {
                proof {
                    lemma_map_of_entries_update(es@, i as int, entry);
                }
                es.set(i, entry);
            },
            None => {
                proof {
                    assert(es@.push(entry).drop_last() =~= es@);
                }
                es.push(entry);
            },
        }
        self.entries = es;
        Ok(())
    }

    fn delete(&mut self, id: &VarId) -> (r: Result<(), StoreError>) {
        proof {
            use_type_invariant(&*self);
        }
        let found = self.find(id);
        let mut es: Vec<MemVar> = Vec::new();
        core::mem::swap(&mut es, &mut self.entries);
        match found {
            Some(i) => {
                proof {
                    lemma_map_of_entries_remove(es@, i as int);
                }
                es.remove(i);
            },
            None => {
                proof {
                    lemma_map_of_entries_absent(es@, id@);
                    assert(map_of_entries(es@) =~= map_of_entries(es@).remove(id@));
                }
            },
        }
        self.entries = es;
        Ok(())
    }
}

} // verus!
