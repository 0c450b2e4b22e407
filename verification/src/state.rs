//! Last-known build status per job.  The store is the association from a
//! job's full name to the status code it had when last observed; updating it
//! returns the previous value, which is what change detection runs on.

use vstd::prelude::*;

verus! {

/// The map held by a sequence of (key, status) entries, later entries
/// winning.  With unique keys this is the obvious association.
pub open spec fn map_of(s: Seq<(String, u8)>) -> Map<Seq<char>, u8>
    decreases s.len(),
{
    if s.len() == 0 {
        Map::empty()
    } else {
        map_of(s.drop_last()).insert(s.last().0@, s.last().1)
    }
}

/// Durable mapping from job identity (`project:jobset:job`) to the
/// last-observed numeric build status.  Entries are created on first
/// observation and overwritten on every later one; nothing deletes them.
pub struct StatusStore {
    entries: Vec<(String, u8)>,
}

impl StatusStore {
    /// Keys are pairwise distinct, so each lookup has one answer.
    pub closed spec fn wf(self) -> bool {
        forall|i: int, j: int|
            0 <= i < j < self.entries@.len() ==> self.entries@[i].0@ != self.entries@[j].0@
    }

    pub closed spec fn view(self) -> Map<Seq<char>, u8> {
        map_of(self.entries@)
    }

    /// A fresh store has never observed any job.
    pub fn new() -> (r: StatusStore)
        ensures
            r.wf(),
            r@ == Map::<Seq<char>, u8>::empty(),
    {
        StatusStore { entries: Vec::new() }
    }

    /// Record the latest status of a job and hand back the previously
    /// stored one: `None` when the job was never observed.  The write
    /// happens whether or not the value changed.
    pub fn update_build_status(&mut self, job_full_name: &String, build_status: u8) -> (r: Option<
        u8,
    >)
        requires
            old(self).wf(),
        ensures
            final(self).wf(),
            final(self)@ == old(self)@.insert(job_full_name@, build_status),
            r == (if old(self)@.contains_key(job_full_name@) {
                Some(old(self)@[job_full_name@])
            } else {
                None::<u8>
            }),
    {
        let found = find_index(&self.entries, job_full_name);
        match found {
            Some(i) => {
                let prev = self.entries[i].1;
                let key = self.entries[i].0.clone();
                proof {
                    lemma_map_of_at(self.entries@, i as int);
                    lemma_map_of_update(self.entries@, i as int, build_status);
                }
                self.entries[i] = (key, build_status);
                Some(prev)
            },
            None => {
                proof {
                    lemma_map_of_absent(self.entries@, job_full_name@);
                    assert(self.entries@.push(
                        (*job_full_name, build_status),
                    ).drop_last() =~= self.entries@);
                }
                self.entries.push((job_full_name.clone(), build_status));
                None
            },
        }
    }
}

/// The index of the entry holding `key`, if any.
fn find_index(entries: &Vec<(String, u8)>, key: &String) -> (r: Option<usize>)
    ensures
        match r {
            Some(i) => i < entries@.len() && entries@[i as int].0@ == key@,
            None => forall|j: int| 0 <= j < entries@.len() ==> entries@[j].0@ != key@,
        },
{
    let mut i: usize = 0;
    while i < entries.len()
        invariant
            i <= entries@.len(),
            forall|j: int| 0 <= j < i ==> entries@[j].0@ != key@,
        decreases entries@.len() - i,
    {
        if entries[i].0 == *key {
            return Some(i);
        }
        i = i + 1;
    }
    None
}

/// A key held by no entry is absent from the map.
proof fn lemma_map_of_absent(s: Seq<(String, u8)>, k: Seq<char>)
    requires
        forall|i: int| 0 <= i < s.len() ==> s[i].0@ != k,
    ensures
        !map_of(s).contains_key(k),
    decreases s.len(),
{
    if s.len() > 0 {
        assert(forall|i: int| 0 <= i < s.drop_last().len() ==> s.drop_last()[i].0@ != k);
        lemma_map_of_absent(s.drop_last(), k);
    }
}

/// An entry whose key recurs nowhere later decides the map at that key.
proof fn lemma_map_of_at(s: Seq<(String, u8)>, i: int)
    requires
        0 <= i < s.len(),
        forall|j: int| i < j < s.len() ==> s[j].0@ != s[i].0@,
    ensures
        map_of(s).contains_key(s[i].0@),
        map_of(s)[s[i].0@] == s[i].1,
    decreases s.len(),
{
    if i < s.len() - 1 {
        assert(forall|j: int|
            i < j < s.drop_last().len() ==> s.drop_last()[j].0@ != s.drop_last()[i].0@);
        lemma_map_of_at(s.drop_last(), i);
    }
}

/// Overwriting the status of an entry whose key is unique inserts at
/// that key.
proof fn lemma_map_of_update(s: Seq<(String, u8)>, i: int, v: u8)
    requires
        0 <= i < s.len(),
        forall|j: int| 0 <= j < s.len() && j != i ==> s[j].0@ != s[i].0@,
    ensures
        map_of(s.update(i, (s[i].0, v))) == map_of(s).insert(s[i].0@, v),
    decreases s.len(),
{
    let t = s.update(i, (s[i].0, v));
    if i == s.len() - 1 {
        assert(t.drop_last() =~= s.drop_last());
        assert(t.last() == (s[i].0, v));
        assert(map_of(t) =~= map_of(s).insert(s[i].0@, v));
    } else {
        assert(forall|j: int|
            0 <= j < s.drop_last().len() && j != i ==> s.drop_last()[j].0@ != s.drop_last()[i].0@);
        lemma_map_of_update(s.drop_last(), i, v);
        assert(t.drop_last() =~= s.drop_last().update(i, (s[i].0, v)));
        assert(t.last() == s.last());
        assert(s.last().0@ != s[i].0@);
        assert(map_of(t) =~= map_of(s).insert(s[i].0@, v));
    }
}

} // verus!
