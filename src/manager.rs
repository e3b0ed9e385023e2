//! The context manager: contexts layered over one another and over a state store.

use std::collections::{HashMap, VecDeque};
use vstd::prelude::*;
use crate::context::{copy_bytes, Context, ContextId, Event, StateChange};
use crate::state::{opt_view, StateReadError, StateReader};

verus! {

broadcast use vstd::std_specs::hash::group_hash_axioms;

#[derive(Clone, Debug, PartialEq, Eq)]
pub enum ContextManagerError {
    /// No context has this id.
    MissingContextError(ContextId),
    /// The state store could not be read.
    StateReadError(StateReadError),
    /// The context cannot be dropped: a live context reads through it.
    ContextInUseError(ContextId),
}

/// Where a read of a key through the ancestors of a context ends.
pub enum Reach {
    /// A context on the way holds a change to the key, with this effect.
    Change(Option<Seq<char>>),
    /// An ancestor on the way does not exist.
    MissingAncestor(ContextId),
    /// No context on the way mentions the key: the state store decides.
    Snapshot,
}

/// A transaction's results, copied out of its context.
#[derive(Clone, Debug, PartialEq, Eq)]
pub struct TransactionReceipt {
    pub transaction_id: String,
    pub state_changes: Vec<StateChange>,
    pub events: Vec<Event>,
    pub data: Vec<Vec<u8>>,
}

pub struct ContextManager<R: StateReader> {
    contexts: HashMap<ContextId, Context>,
    /// The ids of the live contexts, oldest first.
    ids: Vec<ContextId>,
    database: R,
    next_id: ContextId,
}

impl<R: StateReader> ContextManager<R> {
    pub closed spec fn contexts_view(&self) -> Map<ContextId, Context> {
        self.contexts@
    }

    pub closed spec fn ids_view(&self) -> Seq<ContextId> {
        self.ids@
    }

    pub closed spec fn database_view(&self) -> R {
        self.database
    }

    pub closed spec fn next_id_view(&self) -> ContextId {
        self.next_id
    }

    /// Each context is stored under its own id, below the next id to hand out, and the
    /// list of live ids holds each of them once.
    pub open spec fn wf(&self) -> bool {
        &&& forall|x: ContextId| #[trigger] self.contexts_view().contains_key(x)
            ==> self.contexts_view()[x].id == x && x < self.next_id_view()
        &&& forall|i: int| 0 <= i < self.ids_view().len()
            ==> self.contexts_view().contains_key(#[trigger] self.ids_view()[i])
        &&& forall|x: ContextId| #[trigger] self.contexts_view().contains_key(x)
            ==> self.ids_view().contains(x)
        &&& forall|i: int, j: int| 0 <= i < j < self.ids_view().len()
            ==> #[trigger] self.ids_view()[i] != #[trigger] self.ids_view()[j]
    }

    pub open spec fn has_context(&self, id: ContextId) -> bool {
        self.contexts_view().contains_key(id)
    }

    pub open spec fn context(&self, id: ContextId) -> Context {
        self.contexts_view()[id]
    }

    /// Breadth-first search for a change to `key` through the contexts in `queue` and
    /// their ancestors, each context visited once.
    pub open spec fn search(&self, queue: Seq<ContextId>, visited: Set<ContextId>, key: Seq<char>) -> Reach
        decreases self.contexts_view().len() - visited.len(), queue.len(),
    {
        if queue.len() == 0 {
            Reach::Snapshot
        } else {
            let id = queue[0];
            if visited.contains(id) {
                self.search(queue.drop_first(), visited, key)
            } else if !self.has_context(id) {
                Reach::MissingAncestor(id)
            } else if self.context(id).lookup(key) is Some {
                Reach::Change(self.context(id).lookup(key)->0)
            } else if !visited.finite() || visited.len() >= self.contexts_view().len() {
                Reach::Snapshot
            } else {
                self.search(
                    queue.drop_first() + self.context(id).base_contexts@,
                    visited.insert(id),
                    key,
                )
            }
        }
    }
    /// Where a read of `key` from context `id` ends: the context's own changes first,
    /// then its ancestors, nearest first.
    pub open spec fn visible(&self, id: ContextId, key: Seq<char>) -> Reach {
        match self.context(id).lookup(key) {
            Some(e) => Reach::Change(e),
            None => self.search(self.context(id).base_contexts@, Set::empty(), key),
        }
    }

    /// The value `key` has as seen from context `id`: `Some(None)` where a context deletes
    /// it, `None` where neither a context nor the store has it.
    pub open spec fn resolved(&self, id: ContextId, key: Seq<char>) -> Option<Option<Seq<char>>> {
        match self.visible(id, key) {
            Reach::Change(e) => Some(e),
            Reach::Snapshot => match self.database_view().snapshot_value(
                self.context(id).state_id@,
                key,
            ) {
                Some(v) => Some(Some(v)),
                None => None,
            },
            Reach::MissingAncestor(_) => None,
        }
    }

    /// The pairs `get` returns for `keys`: last key first, keys that nothing holds left out.
    pub open spec fn get_view(&self, id: ContextId, keys: Seq<String>) -> Seq<(Seq<char>, Option<Seq<char>>)>
        decreases keys.len(),
    {
        if keys.len() == 0 {
            Seq::empty()
        } else {
            let rest = self.get_view(id, keys.drop_first());
            match self.resolved(id, keys[0]@) {
                Some(e) => rest.push((keys[0]@, e)),
                None => rest,
            }
        }
    }

    /// The value a delete of `key` from context `id` finds: what a read saw just before.
    pub open spec fn visible_value(&self, id: ContextId, key: Seq<char>) -> Option<Seq<char>> {
        match self.resolved(id, key) {
            Some(Some(v)) => Some(v),
            _ => None,
        }
    }

    /// A read of `key` from context `id` cannot fail: a context settles it, or the store
    /// can read the context's snapshot.
    pub open spec fn settled(&self, id: ContextId, key: Seq<char>) -> bool {
        match self.visible(id, key) {
            Reach::Change(_) => true,
            Reach::Snapshot => self.database_view().readable(self.context(id).state_id@),
            Reach::MissingAncestor(_) => false,
        }
    }

    /// Some live context names `id` among its ancestors.
    pub open spec fn is_ancestor(&self, id: ContextId) -> bool {
        exists|x: ContextId| #[trigger] self.has_context(x) && self.context(x).base_contexts@.contains(id)
    }

    /// The same contexts are live as in `old`, and all but `id` are as they were.
    pub open spec fn keeps_others(&self, old: &Self, id: ContextId) -> bool {
        &&& forall|x: ContextId| #[trigger] self.has_context(x) == old.has_context(x)
        &&& forall|x: ContextId| x != id && old.has_context(x) ==> #[trigger] self.context(x) == old.context(x)
    }

    /// `self` is `old` with at most the context `id` changed, and it keeps its id.
    pub open spec fn others_unchanged(&self, old: &Self, id: ContextId) -> bool {
        &&& old.has_context(id) ==> self.contexts_view() == old.contexts_view().insert(id, self.context(id))
        &&& !old.has_context(id) ==> self.contexts_view() == old.contexts_view()
        &&& self.ids_view() == old.ids_view()
        &&& self.next_id_view() == old.next_id_view()
        &&& self.database_view() == old.database_view()
    }

    /// A finite set of ids of live contexts that leaves out a live one has fewer
    /// elements than there are contexts.
    proof fn lemma_visited_bound(&self, visited: Set<ContextId>, id: ContextId)
        requires
            visited.finite(),
            forall|x: ContextId| visited.contains(x) ==> self.has_context(x),
            self.has_context(id),
            !visited.contains(id),
        ensures
            visited.len() < self.contexts_view().len(),
    {
        assert(self.contexts@.dom().finite());
        assert(visited.insert(id).subset_of(self.contexts_view().dom()));
        vstd::set_lib::lemma_len_subset(visited.insert(id), self.contexts_view().dom());
    }

    /// Replacing the context `id` by one with the same id keeps the manager well formed.
    proof fn lemma_update(&self, old: &Self, id: ContextId)
        requires
            old.wf(),
            old.has_context(id),
            self.contexts_view() == old.contexts_view().insert(id, self.context(id)),
            self.context(id).id == id,
            self.ids_view() == old.ids_view(),
            self.next_id_view() == old.next_id_view(),
        ensures
            self.wf(),
            self.has_context(id),
            self.keeps_others(old, id),
    {
        assert forall|x: ContextId| #[trigger] self.contexts_view().contains_key(x) implies self.contexts_view()[x].id
            == x && x < self.next_id_view() by {
            assert(old.contexts_view().contains_key(x));
        }
        assert forall|x: ContextId| #[trigger] self.contexts_view().contains_key(x) implies self.ids_view().contains(x) by {
            assert(old.contexts_view().contains_key(x));
        }
    }

    /// Runs `search` from `start` with nothing visited: the id of the context holding the
    /// change, `None` for the store, or the id of a missing ancestor.
    fn search_ancestors(&self, start: &Vec<ContextId>, key: &String) -> (r: Result<Option<ContextId>, ContextId>)
        requires
            self.wf(),
        ensures
            match r {
                Ok(Some(c)) => self.has_context(c) && self.context(c).lookup(key@) is Some
                    && self.search(start@, Set::empty(), key@)
                        == Reach::Change(self.context(c).lookup(key@)->0),
                Ok(None) => self.search(start@, Set::empty(), key@) == Reach::Snapshot,
                Err(id) => self.search(start@, Set::empty(), key@) == Reach::MissingAncestor(id),
            },
    {
        let mut queue: VecDeque<ContextId> = VecDeque::new();
        let mut k: usize = 0;
        while k < start.len()
            invariant
                k <= start@.len(),
                queue@ == start@.subrange(0, k as int),
            decreases start@.len() - k,
        {
            queue.push_back(start[k]);
            k += 1;
        }
        assert(queue@ =~= start@);
        let mut visited: Vec<ContextId> = Vec::new();
        let ghost mut seen: Set<ContextId> = Set::empty();
        while queue.len() > 0
            invariant
                self.wf(),
                seen.finite(),
                forall|x: ContextId| seen.contains(x) <==> visited@.contains(x),
                forall|x: ContextId| seen.contains(x) ==> self.has_context(x),
                seen.len() <= self.contexts_view().len(),
                self.search(queue@, seen, key@) == self.search(start@, Set::empty(), key@),
            decreases self.contexts_view().len() - seen.len(), queue@.len(),
        {
            let ghost rest = queue@;
            let id = queue.pop_front().unwrap();
            assert(rest[0] == id);
            assert(rest.drop_first() =~= queue@);
            if !contains_id(&visited, id) {
                match self.contexts.get(&id) {
                    None => {
                        return Err(id);
                    },
                    Some(c) => {
                        if c.contains(key) {
                            return Ok(Some(id));
                        }
                        proof {
                            self.lemma_visited_bound(seen, id);
                        }
                        let ghost old_queue = queue@;
                        let bases = &c.base_contexts;
                        let mut b: usize = 0;
                        while b < bases.len()
                            invariant
                                b <= bases@.len(),
                                queue@ == old_queue + bases@.subrange(0, b as int),
                            decreases bases@.len() - b,
                        {
                            queue.push_back(bases[b]);
                            b += 1;
                        }
                        assert(queue@ =~= rest.drop_first() + self.context(id).base_contexts@);
                        let ghost old_visited = visited@;
                        visited.push(id);
                        proof {
                            seen = seen.insert(id);
                            assert forall|x: ContextId| seen.contains(x) <==> visited@.contains(x) by {
                                if visited@.contains(x) {
                                    let j = choose|j: int| 0 <= j < visited@.len() && visited@[j] == x;
                                    if j < old_visited.len() {
                                        assert(old_visited[j] == x);
                                    }
                                }
                                if old_visited.contains(x) {
                                    let j = choose|j: int| 0 <= j < old_visited.len() && old_visited[j] == x;
                                    assert(visited@[j] == x);
                                }
                                if x == id {
                                    assert(visited@[old_visited.len() as int] == x);
                                }
                            }
                        }
                    },
                }
            }
        }
        Ok(None)
    }

    /// Resolves `key` as seen from the context `id`.
    fn resolve(&self, id: ContextId, key: &String) -> (r: Result<Option<Option<String>>, ContextManagerError>)
        requires
            self.wf(),
            self.has_context(id),
        ensures
            match r {
                Ok(o) => !(self.visible(id, key@) is MissingAncestor)
                    && opt_opt_view(o) == self.resolved(id, key@),
                Err(ContextManagerError::MissingContextError(x)) => self.visible(id, key@)
                    == Reach::MissingAncestor(x),
                Err(ContextManagerError::StateReadError(_)) => self.visible(id, key@) is Snapshot,
                Err(ContextManagerError::ContextInUseError(_)) => false,
            },
            self.settled(id, key@) ==> r is Ok,
    {
        let c = self.contexts.get(&id).unwrap();
        if c.contains(key) {
            return match c.get_state(key) {
                Some(v) => Ok(Some(Some(v.clone()))),
                None => Ok(Some(None)),
            };
        }
        match self.search_ancestors(&c.base_contexts, key) {
            Ok(Some(i)) => match self.contexts.get(&i).unwrap().get_state(key) {
                Some(v) => Ok(Some(Some(v.clone()))),
                None => Ok(Some(None)),
            },
            Ok(None) => match self.database.read(&c.state_id, key) {
                Ok(Some(v)) => Ok(Some(Some(v))),
                Ok(None) => Ok(None),
                Err(e) => Err(ContextManagerError::StateReadError(e)),
            },
            Err(x) => Err(ContextManagerError::MissingContextError(x)),
        }
    }

    pub fn new(database: R) -> (r: Self)
        ensures
            r.wf(),
            r.contexts_view() == Map::<ContextId, Context>::empty(),
            r.database_view() == database,
            r.next_id_view() == 0,
    {
        ContextManager { contexts: HashMap::new(), ids: Vec::new(), database, next_id: 0 }
    }

    /// Whether a fresh context id is left to hand out.
    pub fn can_create_context(&self) -> (r: bool)
        ensures
            r == (self.next_id_view() < u128::MAX),
    {
        self.next_id < u128::MAX
    }

    /// How many contexts are live.
    pub fn context_count(&self) -> (r: usize)
        ensures
            r == self.contexts_view().len(),
    {
        self.contexts.len()
    }

    pub fn get_context(&self, context_id: &ContextId) -> (r: Result<&Context, ContextManagerError>)
        requires
            self.wf(),
        ensures
            match r {
                Ok(c) => self.has_context(*context_id) && *c == self.context(*context_id),
                Err(e) => !self.has_context(*context_id)
                    && e == ContextManagerError::MissingContextError(*context_id),
            },
    {
        match self.contexts.get(context_id) {
            Some(c) => Ok(c),
            None => Err(ContextManagerError::MissingContextError(*context_id)),
        }
    }

    /// Creates a context over `dependent_contexts` (nearest first) and the snapshot
    /// `state_id`, and returns its fresh id. The ancestors are not checked here: a missing
    /// one is reported by the reads that reach it.
    pub fn create_context(&mut self, dependent_contexts: Vec<ContextId>, state_id: &str) -> (r: ContextId)
        requires
            old(self).wf(),
            old(self).next_id_view() < u128::MAX,
        ensures
            final(self).wf(),
            !old(self).has_context(r),
            final(self).has_context(r),
            final(self).contexts_view() == old(self).contexts_view().insert(r, final(self).context(r)),
            final(self).context(r).id == r,
            final(self).context(r).state_id@ == state_id@,
            final(self).context(r).base_contexts == dependent_contexts,
            final(self).context(r).state_changes@.len() == 0,
            final(self).context(r).events@.len() == 0,
            final(self).context(r).data@.len() == 0,
            final(self).database_view() == old(self).database_view(),
            final(self).next_id_view() == old(self).next_id_view() + 1,
            forall|x: ContextId| #[trigger] old(self).has_context(x) ==> final(self).has_context(x)
                && final(self).context(x) == old(self).context(x),
    {
        let id = self.next_id;
        let c = Context::new(id, state_id, dependent_contexts);
        self.contexts.insert(id, c);
        let ghost old_ids = self.ids@;
        self.ids.push(id);
        self.next_id = id + 1;
        proof {
            assert(!old(self).has_context(id));
            assert forall|x: ContextId| #[trigger] self.contexts_view().contains_key(x) implies self.contexts_view()[x].id
                == x && x < self.next_id_view() by {
                if x != id {
                    assert(old(self).contexts_view().contains_key(x));
                }
            }
            assert forall|i: int| 0 <= i < self.ids_view().len() implies self.contexts_view().contains_key(
                #[trigger] self.ids_view()[i],
            ) by {
                if i < old_ids.len() {
                    assert(old_ids[i] == old(self).ids_view()[i]);
                    assert(old(self).contexts_view().contains_key(old_ids[i]));
                }
            }
            assert forall|x: ContextId| #[trigger] self.contexts_view().contains_key(x) implies self.ids_view().contains(
                x,
            ) by {
                if x == id {
                    assert(self.ids_view()[old_ids.len() as int] == x);
                } else {
                    assert(old(self).contexts_view().contains_key(x));
                    let j = choose|j: int| 0 <= j < old_ids.len() && old_ids[j] == x;
                    assert(self.ids_view()[j] == x);
                }
            }
            assert forall|i: int, j: int| 0 <= i < j < self.ids_view().len() implies #[trigger] self.ids_view()[i]
                != #[trigger] self.ids_view()[j] by {
                if j == old_ids.len() {
                    assert(old_ids[i] == old(self).ids_view()[i]);
                    assert(old(self).contexts_view().contains_key(old_ids[i]));
                } else {
                    assert(old_ids[i] != old_ids[j]);
                }
            }
            assert(self.contexts_view() =~= old(self).contexts_view().insert(id, self.context(id)));
        }
        id
    }

    /// Stages `key` set to `value` in the context.
    pub fn set_state(&mut self, context_id: &ContextId, key: String, value: String) -> (r: Result<(), ContextManagerError>)
        requires
            old(self).wf(),
        ensures
            final(self).wf(),
            final(self).others_unchanged(old(self), *context_id),
            final(self).keeps_others(old(self), *context_id),
            !old(self).has_context(*context_id) ==> r == Err::<(), _>(
                ContextManagerError::MissingContextError(*context_id),
            ),
            old(self).has_context(*context_id) ==> r is Ok
                && final(self).context(*context_id).same_but_changes(&old(self).context(*context_id))
                && final(self).context(*context_id).state_changes@ == old(self).context(
                    *context_id,
                ).state_changes@.push(StateChange::SetValue { key, value }),
    {
        if !self.contexts.contains_key(context_id) {
            return Err(ContextManagerError::MissingContextError(*context_id));
        }
        match self.contexts.remove(context_id) {
            None => Err(ContextManagerError::MissingContextError(*context_id)),
            Some(mut c) => {
                c.set_state(key, value);
                self.contexts.insert(*context_id, c);
                proof {
                    assert(self.contexts_view() =~= old(self).contexts_view().insert(*context_id, self.context(*context_id)));
                    self.lemma_update(old(self), *context_id);
                }
                Ok(())
            },
        }
    }

    /// Stages a delete of `key` in the context, and returns the value that a read from the
    /// context saw just before: from its own changes, then its ancestors breadth first,
    /// then the store. The delete is staged even where that search fails.
    pub fn delete_state(&mut self, context_id: &ContextId, key: String) -> (r: Result<Option<String>, ContextManagerError>)
        requires
            old(self).wf(),
        ensures
            final(self).wf(),
            final(self).others_unchanged(old(self), *context_id),
            final(self).keeps_others(old(self), *context_id),
            !old(self).has_context(*context_id) ==> r == Err::<Option<String>, _>(
                ContextManagerError::MissingContextError(*context_id),
            ),
            old(self).has_context(*context_id) ==> {
                &&& final(self).context(*context_id).same_but_changes(&old(self).context(*context_id))
                &&& final(self).context(*context_id).state_changes@ == old(self).context(
                    *context_id,
                ).state_changes@.push(StateChange::Delete { key })
                &&& match r {
                    Ok(v) => !(old(self).visible(*context_id, key@) is MissingAncestor)
                        && opt_view(v) == old(self).visible_value(*context_id, key@),
                    Err(ContextManagerError::MissingContextError(x)) => old(self).visible(
                        *context_id,
                        key@,
                    ) == Reach::MissingAncestor(x),
                    Err(ContextManagerError::StateReadError(_)) => old(self).visible(
                        *context_id,
                        key@,
                    ) is Snapshot,
                    Err(ContextManagerError::ContextInUseError(_)) => false,
                }
                &&& old(self).settled(*context_id, key@) ==> r is Ok
            },
    {
        if !self.contexts.contains_key(context_id) {
            return Err(ContextManagerError::MissingContextError(*context_id));
        }
        let found = self.resolve(*context_id, &key);
        match self.contexts.remove(context_id) {
            None => Err(ContextManagerError::MissingContextError(*context_id)),
            Some(mut c) => {
                c.delete_state(key);
                self.contexts.insert(*context_id, c);
                proof {
                    assert(self.contexts_view() =~= old(self).contexts_view().insert(*context_id, self.context(*context_id)));
                    self.lemma_update(old(self), *context_id);
                }
                match found {
                    Ok(Some(Some(v))) => Ok(Some(v)),
                    Ok(_) => Ok(None),
                    Err(e) => Err(e),
                }
            },
        }
    }

    /// Records an event in the context.
    pub fn add_event(&mut self, context_id: &ContextId, event: Event) -> (r: Result<(), ContextManagerError>)
        requires
            old(self).wf(),
        ensures
            final(self).wf(),
            final(self).others_unchanged(old(self), *context_id),
            final(self).keeps_others(old(self), *context_id),
            !old(self).has_context(*context_id) ==> r == Err::<(), _>(
                ContextManagerError::MissingContextError(*context_id),
            ),
            old(self).has_context(*context_id) ==> {
                let (n, o) = (final(self).context(*context_id), old(self).context(*context_id));
                &&& r is Ok
                &&& n.events@ == o.events@.push(event)
                &&& n.id == o.id && n.state_id == o.state_id && n.base_contexts == o.base_contexts
                &&& n.state_changes == o.state_changes && n.data == o.data
            },
    {
        if !self.contexts.contains_key(context_id) {
            return Err(ContextManagerError::MissingContextError(*context_id));
        }
        match self.contexts.remove(context_id) {
            None => Err(ContextManagerError::MissingContextError(*context_id)),
            Some(mut c) => {
                c.add_event(event);
                self.contexts.insert(*context_id, c);
                proof {
                    assert(self.contexts_view() =~= old(self).contexts_view().insert(*context_id, self.context(*context_id)));
                    self.lemma_update(old(self), *context_id);
                }
                Ok(())
            },
        }
    }

    /// Records data in the context.
    pub fn add_data(&mut self, context_id: &ContextId, data: Vec<u8>) -> (r: Result<(), ContextManagerError>)
        requires
            old(self).wf(),
        ensures
            final(self).wf(),
            final(self).others_unchanged(old(self), *context_id),
            final(self).keeps_others(old(self), *context_id),
            !old(self).has_context(*context_id) ==> r == Err::<(), _>(
                ContextManagerError::MissingContextError(*context_id),
            ),
            old(self).has_context(*context_id) ==> {
                let (n, o) = (final(self).context(*context_id), old(self).context(*context_id));
                &&& r is Ok
                &&& n.data@ == o.data@.push(data)
                &&& n.id == o.id && n.state_id == o.state_id && n.base_contexts == o.base_contexts
                &&& n.state_changes == o.state_changes && n.events == o.events
            },
    {
        if !self.contexts.contains_key(context_id) {
            return Err(ContextManagerError::MissingContextError(*context_id));
        }
        match self.contexts.remove(context_id) {
            None => Err(ContextManagerError::MissingContextError(*context_id)),
            Some(mut c) => {
                c.add_data(data);
                self.contexts.insert(*context_id, c);
                proof {
                    assert(self.contexts_view() =~= old(self).contexts_view().insert(*context_id, self.context(*context_id)));
                    self.lemma_update(old(self), *context_id);
                }
                Ok(())
            },
        }
    }

    /// Reads `keys` as seen from the context, last key first. A key that a context
    /// deletes comes back with `None`; one that neither a context nor the store holds is
    /// left out.
    pub fn get(&self, context_id: &ContextId, keys: &[String]) -> (r: Result<Vec<(String, Option<String>)>, ContextManagerError>)
        requires
            self.wf(),
        ensures
            !self.has_context(*context_id) ==> r == Err::<Vec<(String, Option<String>)>, _>(
                ContextManagerError::MissingContextError(*context_id),
            ),
            r matches Ok(v) ==> self.has_context(*context_id)
                && pairs_view(v@) == self.get_view(*context_id, keys@)
                && forall|j: int| 0 <= j < keys@.len()
                    ==> !(#[trigger] self.visible(*context_id, keys@[j]@) is MissingAncestor),
            r matches Err(ContextManagerError::MissingContextError(x)) ==> (!self.has_context(*context_id)
                && x == *context_id) || exists|j: int| 0 <= j < keys@.len()
                && #[trigger] self.visible(*context_id, keys@[j]@) == Reach::MissingAncestor(x),
            r matches Err(ContextManagerError::StateReadError(_)) ==> exists|j: int| 0 <= j < keys@.len()
                && #[trigger] self.visible(*context_id, keys@[j]@) is Snapshot,
            !(r matches Err(ContextManagerError::ContextInUseError(_))),
            self.has_context(*context_id) && (forall|j: int| 0 <= j < keys@.len()
                ==> #[trigger] self.settled(*context_id, keys@[j]@)) ==> r is Ok,
    {
        if !self.contexts.contains_key(context_id) {
            return Err(ContextManagerError::MissingContextError(*context_id));
        }
        let mut key_values: Vec<(String, Option<String>)> = Vec::new();
        let mut i: usize = keys.len();
        while i > 0
            invariant
                self.wf(),
                self.has_context(*context_id),
                i <= keys@.len(),
                pairs_view(key_values@) == self.get_view(*context_id, keys@.subrange(i as int, keys@.len() as int)),
                forall|j: int| i <= j < keys@.len()
                    ==> !(#[trigger] self.visible(*context_id, keys@[j]@) is MissingAncestor),
            decreases i,
        {
            i -= 1;
            let ghost sub = keys@.subrange(i as int, keys@.len() as int);
            assert(sub.drop_first() =~= keys@.subrange(i + 1, keys@.len() as int));
            assert(sub[0] == keys@[i as int]);
            let key = &keys[i];
            match self.resolve(*context_id, key) {
                Ok(Some(e)) => {
                    key_values.push((key.clone(), e));
                    assert(pairs_view(key_values@) =~= self.get_view(*context_id, sub));
                },
                Ok(None) => {},
                Err(e) => {
                    assert(!self.settled(*context_id, keys@[i as int]@));
                    return Err(e);
                },
            }
        }
        assert(keys@.subrange(0, keys@.len() as int) =~= keys@);
        Ok(key_values)
    }

    /// A receipt for `transaction_id` holding copies of what the context staged, emitted
    /// and recorded so far. The context is left as it is.
    pub fn get_transaction_receipt(&self, context_id: &ContextId, transaction_id: &str) -> (r: Result<TransactionReceipt, ContextManagerError>)
        requires
            self.wf(),
        ensures
            !self.has_context(*context_id) ==> r == Err::<TransactionReceipt, _>(
                ContextManagerError::MissingContextError(*context_id),
            ),
            self.has_context(*context_id) ==> (r matches Ok(t) && receipt_of(
                t,
                self.context(*context_id),
                transaction_id@,
            )),
    {
        match self.contexts.get(context_id) {
            None => Err(ContextManagerError::MissingContextError(*context_id)),
            Some(c) => {
                let mut state_changes: Vec<StateChange> = Vec::new();
                let mut k: usize = 0;
                while k < c.state_changes.len()
                    invariant
                        k <= c.state_changes@.len(),
                        state_changes@ == c.state_changes@.subrange(0, k as int),
                    decreases c.state_changes@.len() - k,
                {
                    state_changes.push(c.state_changes[k].duplicate());
                    k += 1;
                }
                let mut events: Vec<Event> = Vec::new();
                let mut k: usize = 0;
                while k < c.events.len()
                    invariant
                        k <= c.events@.len(),
                        events@.len() == k,
                        forall|j: int| 0 <= j < k ==> same_event(#[trigger] events@[j], c.events@[j]),
                    decreases c.events@.len() - k,
                {
                    events.push(c.events[k].duplicate());
                    k += 1;
                }
                let mut data: Vec<Vec<u8>> = Vec::new();
                let mut k: usize = 0;
                while k < c.data.len()
                    invariant
                        k <= c.data@.len(),
                        data@.len() == k,
                        forall|j: int| 0 <= j < k ==> (#[trigger] data@[j])@ == c.data@[j]@,
                    decreases c.data@.len() - k,
                {
                    data.push(copy_bytes(&c.data[k]));
                    k += 1;
                }
                assert(state_changes@ =~= c.state_changes@);
                Ok(TransactionReceipt { transaction_id: transaction_id.to_string(), state_changes, events, data })
            },
        }
    }

    /// Drops the context. A context that a live context names among its ancestors stays.
    pub fn drop_context(&mut self, context_id: ContextId) -> (r: Result<(), ContextManagerError>)
        requires
            old(self).wf(),
        ensures
            final(self).wf(),
            final(self).database_view() == old(self).database_view(),
            final(self).next_id_view() == old(self).next_id_view(),
            !old(self).has_context(context_id) ==> r == Err::<(), _>(
                ContextManagerError::MissingContextError(context_id),
            ),
            old(self).has_context(context_id) && old(self).is_ancestor(context_id) ==> r == Err::<(), _>(
                ContextManagerError::ContextInUseError(context_id),
            ),
            r is Err ==> final(self).contexts_view() == old(self).contexts_view(),
            old(self).has_context(context_id) && !old(self).is_ancestor(context_id) ==> {
                &&& r is Ok
                &&& final(self).contexts_view() == old(self).contexts_view().remove(context_id)
            },
    {
        if !self.contexts.contains_key(&context_id) {
            return Err(ContextManagerError::MissingContextError(context_id));
        }
        let mut k: usize = 0;
        while k < self.ids.len()
            invariant
                *self == *old(self),
                self.wf(),
                self.has_context(context_id),
                k <= self.ids_view().len(),
                forall|j: int| 0 <= j < k ==> !self.context(#[trigger] self.ids_view()[j]).base_contexts@.contains(
                    context_id,
                ),
            decreases self.ids_view().len() - k,
        {
            let ghost x = self.ids_view()[k as int];
            assert(self.contexts_view().contains_key(x));
            let c = self.contexts.get(&self.ids[k]).unwrap();
            if contains_id(&c.base_contexts, context_id) {
                assert(self.has_context(x) && self.context(x).base_contexts@.contains(context_id));
                return Err(ContextManagerError::ContextInUseError(context_id));
            }
            k += 1;
        }
        proof {
            assert forall|x: ContextId| #[trigger] self.has_context(x) implies !self.context(x).base_contexts@.contains(
                context_id,
            ) by {
                assert(self.ids_view().contains(x));
                let j = choose|j: int| 0 <= j < self.ids_view().len() && self.ids_view()[j] == x;
                assert(!self.context(self.ids_view()[j]).base_contexts@.contains(context_id));
            }
        }
        let mut p: usize = 0;
        while p < self.ids.len() && self.ids[p] != context_id
            invariant
                *self == *old(self),
                self.wf(),
                self.has_context(context_id),
                p <= self.ids_view().len(),
                forall|j: int| 0 <= j < p ==> self.ids_view()[j] != context_id,
            decreases self.ids_view().len() - p,
        {
            p += 1;
        }
        assert(p < self.ids_view().len()) by {
            assert(self.ids_view().contains(context_id));
        }
        let ghost old_ids = self.ids@;
        self.ids.remove(p);
        self.contexts.remove(&context_id);
        proof {
            let ids = self.ids_view();
            assert(ids =~= old_ids.remove(p as int));
            assert(self.contexts_view() =~= old(self).contexts_view().remove(context_id));
            assert forall|i: int| 0 <= i < ids.len() implies self.contexts_view().contains_key(#[trigger] ids[i]) by {
                let i2 = if i < p { i } else { i + 1 };
                assert(old_ids[i2] == ids[i]);
                assert(old(self).contexts_view().contains_key(old_ids[i2]));
                if i2 < p {
                    assert(old_ids[i2] != old_ids[p as int]);
                } else {
                    assert(old_ids[p as int] != old_ids[i2]);
                }
            }
            assert forall|x: ContextId| #[trigger] self.contexts_view().contains_key(x) implies ids.contains(x) by {
                assert(old(self).contexts_view().contains_key(x));
                assert(old_ids.contains(x));
                let j = choose|j: int| 0 <= j < old_ids.len() && old_ids[j] == x;
                let j2 = if j < p { j } else { j - 1 };
                assert(ids[j2] == x);
            }
            assert forall|a: int, b: int| 0 <= a < b < ids.len() implies #[trigger] ids[a] != #[trigger] ids[b] by {
                let a2 = if a < p { a } else { a + 1 };
                let b2 = if b < p { b } else { b + 1 };
                assert(old_ids[a2] != old_ids[b2]);
            }
            assert forall|x: ContextId| #[trigger] self.contexts_view().contains_key(x) implies self.contexts_view()[x].id
                == x && x < self.next_id_view() by {
                assert(old(self).contexts_view().contains_key(x));
            }
        }
        Ok(())
    }
}

/// A read of one key shows the layered rule: a set found through the context or its
/// ancestors comes back with its value, a delete with `None`, and a key that neither a
/// context nor the store holds is left out.
pub proof fn lemma_layered_read<R: StateReader>(m: &ContextManager<R>, id: ContextId, key: String)
    requires
        m.wf(),
        m.has_context(id),
    ensures
        m.visible(id, key@) is Change ==> m.settled(id, key@),
        m.visible(id, key@) is Snapshot && m.database_view().readable(m.context(id).state_id@)
            ==> m.settled(id, key@),
        m.visible(id, key@) matches Reach::Change(Some(v)) ==> m.get_view(id, seq![key]) == seq![
            (key@, Some(v)),
        ],
        m.visible(id, key@) == Reach::Change(None) ==> m.get_view(id, seq![key]) == seq![
            (key@, None::<Seq<char>>),
        ],
        m.visible(id, key@) is Snapshot && m.database_view().snapshot_value(
            m.context(id).state_id@,
            key@,
        ) is None ==> m.get_view(id, seq![key]).len() == 0,
{
    let keys = seq![key];
    assert(keys.drop_first() =~= Seq::<String>::empty());
    assert(keys[0] == key);
    assert(m.get_view(id, keys.drop_first()) == Seq::<(Seq<char>, Option<Seq<char>>)>::empty());
    assert(Seq::<(Seq<char>, Option<Seq<char>>)>::empty().push((key@, None::<Seq<char>>)) =~= seq![
        (key@, None::<Seq<char>>),
    ]);
    if let Reach::Change(Some(v)) = m.visible(id, key@) {
        assert(Seq::<(Seq<char>, Option<Seq<char>>)>::empty().push((key@, Some(v))) =~= seq![
            (key@, Some(v)),
        ]);
    }
}

/// Deleting a key that neither the context's chain nor the store holds finds no value,
/// and afterwards reads from the context see the key as deleted.
pub proof fn lemma_delete_absent<R: StateReader>(
    before: &ContextManager<R>,
    after: &ContextManager<R>,
    id: ContextId,
    key: String,
)
    requires
        before.wf(),
        after.wf(),
        before.has_context(id),
        before.resolved(id, key@) is None,
        after.has_context(id),
        after.context(id).state_changes@ == before.context(id).state_changes@.push(
            StateChange::Delete { key },
        ),
    ensures
        before.visible_value(id, key@) is None,
        before.visible(id, key@) is Snapshot && before.database_view().readable(
            before.context(id).state_id@,
        ) ==> before.settled(id, key@),
        after.visible(id, key@) == Reach::Change(None),
        after.resolved(id, key@) == Some(None::<Seq<char>>),
        after.get_view(id, seq![key]) == seq![(key@, None::<Seq<char>>)],
{
    crate::context::lemma_last_change_push(
        before.context(id).state_changes@,
        StateChange::Delete { key },
        key@,
    );
    lemma_layered_read(after, id, key);
}

pub open spec fn pairs_view(v: Seq<(String, Option<String>)>) -> Seq<(Seq<char>, Option<Seq<char>>)> {
    v.map_values(|p: (String, Option<String>)| (p.0@, opt_view(p.1)))
}

pub open spec fn same_event(a: Event, b: Event) -> bool {
    a.event_type == b.event_type && a.attributes@ == b.attributes@ && a.data@ == b.data@
}

/// `t` is the receipt for `transaction_id` of what `c` holds.
pub open spec fn receipt_of(t: TransactionReceipt, c: Context, transaction_id: Seq<char>) -> bool {
    &&& t.transaction_id@ == transaction_id
    &&& t.state_changes@ == c.state_changes@
    &&& t.events@.len() == c.events@.len()
    &&& forall|j: int| 0 <= j < c.events@.len() ==> same_event(#[trigger] t.events@[j], c.events@[j])
    &&& t.data@.len() == c.data@.len()
    &&& forall|j: int| 0 <= j < c.data@.len() ==> (#[trigger] t.data@[j])@ == c.data@[j]@
}

pub open spec fn opt_opt_view(o: Option<Option<String>>) -> Option<Option<Seq<char>>> {
    match o {
        Some(Some(v)) => Some(Some(v@)),
        Some(None) => Some(None),
        None => None,
    }
}

fn contains_id(v: &Vec<ContextId>, id: ContextId) -> (r: bool)
    ensures
        r == v@.contains(id),
{
    let mut i: usize = 0;
    while i < v.len()
        invariant
            i <= v@.len(),
            forall|j: int| 0 <= j < i ==> v@[j] != id,
        decreases v@.len() - i,
    {
        if v[i] == id {
            return true;
        }
        i += 1;
    }
    false
}

} // verus!
