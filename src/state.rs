//! Reading the state snapshots that contexts are layered over.

use vstd::prelude::*;

verus! {

/// A read of the backing store failed.
#[derive(Clone, Debug, PartialEq, Eq)]
pub struct StateReadError {
    pub message: String,
}

pub open spec fn opt_view(o: Option<String>) -> Option<Seq<char>> {
    match o {
        Some(s) => Some(s@),
        None => None,
    }
}

/// Point reads of a store whose snapshots, named by a state id, never change.
pub trait StateReader {
    /// What `key` holds in the snapshot `state_id`, where the store can read it.
    spec fn snapshot_value(&self, state_id: Seq<char>, key: Seq<char>) -> Option<Seq<char>>;

    /// Reads of the snapshot `state_id` succeed. A store that cannot promise this for a
    /// snapshot says `false` of it.
    spec fn readable(&self, state_id: Seq<char>) -> bool;

    fn read(&self, state_id: &String, key: &String) -> (r: Result<Option<String>, StateReadError>)
        ensures
            r matches Ok(v) ==> opt_view(v) == self.snapshot_value(state_id@, key@),
            self.readable(state_id@) ==> r is Ok,
    ;
}

/// The value of the last entry for `key`.
pub open spec fn entries_value(entries: Seq<(String, String)>, key: Seq<char>) -> Option<Seq<char>>
    decreases entries.len(),
{
    if entries.len() == 0 {
        None
    } else if entries.last().0@ == key {
        Some(entries.last().1@)
    } else {
        entries_value(entries.drop_last(), key)
    }
}

/// The entries of the last snapshot named `state_id`.
pub open spec fn snapshot_entries(
    snapshots: Seq<(String, Vec<(String, String)>)>,
    state_id: Seq<char>,
) -> Option<Seq<(String, String)>>
    decreases snapshots.len(),
{
    if snapshots.len() == 0 {
        None
    } else if snapshots.last().0@ == state_id {
        Some(snapshots.last().1@)
    } else {
        snapshot_entries(snapshots.drop_last(), state_id)
    }
}

proof fn lemma_entries_value(entries: Seq<(String, String)>, key: Seq<char>, i: int)
    requires
        -1 <= i < entries.len(),
        i >= 0 ==> entries[i].0@ == key,
        forall|j: int| i < j < entries.len() ==> entries[j].0@ != key,
    ensures
        entries_value(entries, key) == if i >= 0 { Some(entries[i].1@) } else { None },
    decreases entries.len(),
{
    if entries.len() > 0 && i < entries.len() - 1 {
        lemma_entries_value(entries.drop_last(), key, i);
    }
}

proof fn lemma_snapshot_entries(
    snapshots: Seq<(String, Vec<(String, String)>)>,
    state_id: Seq<char>,
    i: int,
)
    requires
        -1 <= i < snapshots.len(),
        i >= 0 ==> snapshots[i].0@ == state_id,
        forall|j: int| i < j < snapshots.len() ==> snapshots[j].0@ != state_id,
    ensures
        snapshot_entries(snapshots, state_id) == if i >= 0 {
            Some(snapshots[i].1@)
        } else {
            None
        },
    decreases snapshots.len(),
{
    if snapshots.len() > 0 && i < snapshots.len() - 1 {
        lemma_snapshot_entries(snapshots.drop_last(), state_id, i);
    }
}

/// A store held in memory: named snapshots, each a list of entries where a later entry
/// for a key overrides an earlier one.
pub struct MemoryState {
    pub snapshots: Vec<(String, Vec<(String, String)>)>,
}

impl MemoryState {
    pub fn new() -> (r: MemoryState)
        ensures
            r.snapshots@.len() == 0,
    {
        MemoryState { snapshots: Vec::new() }
    }

    /// Adds a snapshot; it hides any earlier one of the same name.
    pub fn add_snapshot(&mut self, state_id: String, entries: Vec<(String, String)>)
        ensures
            final(self).snapshots@ == old(self).snapshots@.push((state_id, entries)),
    {
        self.snapshots.push((state_id, entries));
    }

    /// Fails exactly when no snapshot is named `state_id`.
    pub fn read_snapshot(&self, state_id: &String, key: &String) -> (r: Result<Option<String>, StateReadError>)
        ensures
            r is Err <==> snapshot_entries(self.snapshots@, state_id@) is None,
            r matches Ok(v) ==> opt_view(v) == self.snapshot_value(state_id@, key@),
    {
        let mut i: usize = self.snapshots.len();
        while i > 0
            invariant
                i <= self.snapshots@.len(),
                forall|j: int| i <= j < self.snapshots@.len() ==> self.snapshots@[j].0@ != state_id@,
            decreases i,
        {
            i -= 1;
            if self.snapshots[i].0.eq(state_id) {
                proof {
                    lemma_snapshot_entries(self.snapshots@, state_id@, i as int);
                }
                let entries = &self.snapshots[i].1;
                let mut k: usize = entries.len();
                while k > 0
                    invariant
                        k <= entries@.len(),
                        snapshot_entries(self.snapshots@, state_id@) == Some(entries@),
                        forall|j: int| k <= j < entries@.len() ==> entries@[j].0@ != key@,
                    decreases k,
                {
                    k -= 1;
                    if entries[k].0.eq(key) {
                        proof {
                            lemma_entries_value(entries@, key@, k as int);
                        }
                        return Ok(Some(entries[k].1.clone()));
                    }
                }
                proof {
                    lemma_entries_value(entries@, key@, -1);
                }
                return Ok(None);
            }
        }
        proof {
            lemma_snapshot_entries(self.snapshots@, state_id@, -1);
        }
        Err(StateReadError { message: "no snapshot with this state id".to_string() })
    }
}

impl StateReader for MemoryState {
    open spec fn snapshot_value(&self, state_id: Seq<char>, key: Seq<char>) -> Option<Seq<char>> {
        match snapshot_entries(self.snapshots@, state_id) {
            Some(entries) => entries_value(entries, key),
            None => None,
        }
    }

    open spec fn readable(&self, state_id: Seq<char>) -> bool {
        snapshot_entries(self.snapshots@, state_id) is Some
    }

    fn read(&self, state_id: &String, key: &String) -> (r: Result<Option<String>, StateReadError>) {
        self.read_snapshot(state_id, key)
    }
}

} // verus!
