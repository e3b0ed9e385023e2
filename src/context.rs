//! One transaction's staged state changes, events and data.

use vstd::prelude::*;

verus! {

/// Identifies a context within a `ContextManager`.
pub type ContextId = u128;

/// A change staged by a transaction.
#[derive(Clone, Debug, PartialEq, Eq)]
pub enum StateChange {
    SetValue { key: String, value: String },
    Delete { key: String },
}

impl StateChange {
    /// The key this change is about.
    pub open spec fn key_view(&self) -> Seq<char> {
        match self {
            StateChange::SetValue { key, .. } => key@,
            StateChange::Delete { key } => key@,
        }
    }

    /// The value the key holds after this change; `None` after a delete.
    pub open spec fn effect(&self) -> Option<Seq<char>> {
        match self {
            StateChange::SetValue { value, .. } => Some(value@),
            StateChange::Delete { .. } => None,
        }
    }

    pub fn has_key(&self, key: &String) -> (r: bool)
        ensures
            r == (self.key_view() == key@),
    {
        match self {
            StateChange::SetValue { key: k, .. } => k.eq(key),
            StateChange::Delete { key: k } => k.eq(key),
        }
    }

    pub fn duplicate(&self) -> (r: StateChange)
        ensures
            r == *self,
    {
        match self {
            StateChange::SetValue { key, value } => StateChange::SetValue { key: key.clone(), value: value.clone() },
            StateChange::Delete { key } => StateChange::Delete { key: key.clone() },
        }
    }
}

/// The effect of the most recent change to `key` in `changes`: `None` when no change
/// mentions the key, `Some(None)` when the most recent one deletes it.
pub open spec fn last_change(changes: Seq<StateChange>, key: Seq<char>) -> Option<Option<Seq<char>>>
    decreases changes.len(),
{
    if changes.len() == 0 {
        None
    } else if changes.last().key_view() == key {
        Some(changes.last().effect())
    } else {
        last_change(changes.drop_last(), key)
    }
}

/// Where the change at `i` is the last one about `key`, it decides `last_change`.
pub proof fn lemma_last_change_at(changes: Seq<StateChange>, key: Seq<char>, i: int)
    requires
        0 <= i < changes.len(),
        changes[i].key_view() == key,
        forall|j: int| i < j < changes.len() ==> changes[j].key_view() != key,
    ensures
        last_change(changes, key) == Some(changes[i].effect()),
    decreases changes.len(),
{
    if i < changes.len() - 1 {
        lemma_last_change_at(changes.drop_last(), key, i);
    }
}

/// Where no change is about `key`, there is no last change to it.
pub proof fn lemma_last_change_none(changes: Seq<StateChange>, key: Seq<char>)
    requires
        forall|j: int| 0 <= j < changes.len() ==> changes[j].key_view() != key,
    ensures
        last_change(changes, key) is None,
    decreases changes.len(),
{
    if changes.len() > 0 {
        lemma_last_change_none(changes.drop_last(), key);
    }
}

/// Appending a change about `key` makes it the last change to `key`; other keys keep theirs.
pub proof fn lemma_last_change_push(changes: Seq<StateChange>, c: StateChange, key: Seq<char>)
    ensures
        last_change(changes.push(c), key) == if c.key_view() == key {
            Some(c.effect())
        } else {
            last_change(changes, key)
        },
{
    assert(changes.push(c).drop_last() =~= changes);
}

/// Something a transaction emitted; carried to its receipt unchanged.
#[derive(Clone, Debug, PartialEq, Eq)]
pub struct Event {
    pub event_type: String,
    pub attributes: Vec<(String, String)>,
    pub data: Vec<u8>,
}

pub fn copy_bytes(b: &Vec<u8>) -> (r: Vec<u8>)
    ensures
        r@ == b@,
{
    let mut r: Vec<u8> = Vec::new();
    let mut i: usize = 0;
    while i < b.len()
        invariant
            i <= b.len(),
            r@ == b@.subrange(0, i as int),
        decreases b.len() - i,
    {
        r.push(b[i]);
        i += 1;
    }
    assert(r@ =~= b@);
    r
}

impl Event {
    pub fn new(event_type: String, attributes: Vec<(String, String)>, data: Vec<u8>) -> (r: Event)
        ensures
            r.event_type == event_type,
            r.attributes == attributes,
            r.data == data,
    {
        Event { event_type, attributes, data }
    }

    pub fn duplicate(&self) -> (r: Event)
        ensures
            r.event_type == self.event_type,
            r.attributes@ == self.attributes@,
            r.data@ == self.data@,
    {
        let mut attributes: Vec<(String, String)> = Vec::new();
        let mut i: usize = 0;
        while i < self.attributes.len()
            invariant
                i <= self.attributes.len(),
                attributes@ == self.attributes@.subrange(0, i as int),
            decreases self.attributes.len() - i,
        {
            let (a, b) = &self.attributes[i];
            attributes.push((a.clone(), b.clone()));
            i += 1;
        }
        assert(attributes@ =~= self.attributes@);
        Event { event_type: self.event_type.clone(), attributes, data: copy_bytes(&self.data) }
    }
}

/// The staged work of one transaction: what it changed, emitted and recorded, over the
/// contexts it reads through (nearest first) and the state snapshot below them.
#[derive(Clone, Debug)]
pub struct Context {
    pub id: ContextId,
    pub state_id: String,
    pub base_contexts: Vec<ContextId>,
    pub state_changes: Vec<StateChange>,
    pub events: Vec<Event>,
    pub data: Vec<Vec<u8>>,
}

impl Context {
    /// What this context alone says of `key`: `None` when it has no change to it.
    pub open spec fn lookup(&self, key: Seq<char>) -> Option<Option<Seq<char>>> {
        last_change(self.state_changes@, key)
    }

    /// All fields but the staged changes are those of `other`.
    pub open spec fn same_but_changes(&self, other: &Context) -> bool {
        &&& self.id == other.id
        &&& self.state_id == other.state_id
        &&& self.base_contexts == other.base_contexts
        &&& self.events == other.events
        &&& self.data == other.data
    }

    pub fn new(id: ContextId, state_id: &str, base_contexts: Vec<ContextId>) -> (r: Context)
        ensures
            r.id == id,
            r.state_id@ == state_id@,
            r.base_contexts == base_contexts,
            r.state_changes@.len() == 0,
            r.events@.len() == 0,
            r.data@.len() == 0,
    {
        Context {
            id,
            state_id: state_id.to_string(),
            base_contexts,
            state_changes: Vec::new(),
            events: Vec::new(),
            data: Vec::new(),
        }
    }

    pub fn id(&self) -> (r: &ContextId)
        ensures
            *r == self.id,
    {
        &self.id
    }

    pub fn state_id(&self) -> (r: &String)
        ensures
            *r == self.state_id,
    {
        &self.state_id
    }

    pub fn base_contexts(&self) -> (r: &Vec<ContextId>)
        ensures
            *r == self.base_contexts,
    {
        &self.base_contexts
    }

    pub fn state_changes(&self) -> (r: &Vec<StateChange>)
        ensures
            *r == self.state_changes,
    {
        &self.state_changes
    }

    pub fn events(&self) -> (r: &Vec<Event>)
        ensures
            *r == self.events,
    {
        &self.events
    }

    pub fn data(&self) -> (r: &Vec<Vec<u8>>)
        ensures
            *r == self.data,
    {
        &self.data
    }

    /// Position of the most recent change to `key`.
    fn last_index(&self, key: &String) -> (r: Option<usize>)
        ensures
            r is None ==> self.lookup(key@) is None,
            r matches Some(i) ==> i < self.state_changes@.len()
                && self.state_changes@[i as int].key_view() == key@
                && self.lookup(key@) == Some(self.state_changes@[i as int].effect()),
    {
        let mut i: usize = self.state_changes.len();
        while i > 0
            invariant
                i <= self.state_changes@.len(),
                forall|j: int| i <= j < self.state_changes@.len()
                    ==> self.state_changes@[j].key_view() != key@,
            decreases i,
        {
            i -= 1;
            if self.state_changes[i].has_key(key) {
                proof {
                    lemma_last_change_at(self.state_changes@, key@, i as int);
                }
                return Some(i);
            }
        }
        proof {
            lemma_last_change_none(self.state_changes@, key@);
        }
        None
    }

    /// Whether any staged change, a set or a delete, is about `key`.
    pub fn contains(&self, key: &String) -> (r: bool)
        ensures
            r == self.lookup(key@) is Some,
    {
        self.last_index(key).is_some()
    }

    /// The value the most recent change to `key` set; `None` when it deleted the key or
    /// no change is about it.
    pub fn get_state(&self, key: &String) -> (r: Option<&String>)
        ensures
            r matches Some(v) ==> self.lookup(key@) == Some(Some(v@)),
            r is None ==> !(self.lookup(key@) matches Some(Some(_))),
    {
        match self.last_index(key) {
            Some(i) => match &self.state_changes[i] {
                StateChange::SetValue { value, .. } => Some(value),
                StateChange::Delete { .. } => None,
            },
            None => None,
        }
    }

    pub fn set_state(&mut self, key: String, value: String)
        ensures
            final(self).same_but_changes(old(self)),
            final(self).state_changes@ == old(self).state_changes@.push(
                StateChange::SetValue { key, value },
            ),
    {
        self.state_changes.push(StateChange::SetValue { key, value });
    }

    /// Stages a delete of `key` and returns the value this context held for it before.
    pub fn delete_state(&mut self, key: String) -> (r: Option<String>)
        ensures
            final(self).same_but_changes(old(self)),
            final(self).state_changes@ == old(self).state_changes@.push(
                StateChange::Delete { key },
            ),
            r matches Some(v) ==> old(self).lookup(key@) == Some(Some(v@)),
            r is None ==> !(old(self).lookup(key@) matches Some(Some(_))),
    {
        let prior = match self.get_state(&key) {
            Some(v) => Some(v.clone()),
            None => None,
        };
        self.state_changes.push(StateChange::Delete { key });
        prior
    }

    pub fn add_event(&mut self, event: Event)
        ensures
            final(self).id == old(self).id,
            final(self).state_id == old(self).state_id,
            final(self).base_contexts == old(self).base_contexts,
            final(self).state_changes == old(self).state_changes,
            final(self).data == old(self).data,
            final(self).events@ == old(self).events@.push(event),
    {
        self.events.push(event);
    }

    pub fn add_data(&mut self, data: Vec<u8>)
        ensures
            final(self).id == old(self).id,
            final(self).state_id == old(self).state_id,
            final(self).base_contexts == old(self).base_contexts,
            final(self).state_changes == old(self).state_changes,
            final(self).events == old(self).events,
            final(self).data@ == old(self).data@.push(data),
    {
        self.data.push(data);
    }
}

} // verus!
