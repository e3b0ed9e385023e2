use transact::context::{Context, StateChange};
use transact::manager::{ContextManager, ContextManagerError};
use transact::state::{MemoryState, StateReadError, StateReader};

fn s(x: &str) -> String {
    x.to_string()
}

fn manager_with(entries: Vec<(String, String)>) -> ContextManager<MemoryState> {
    let mut state = MemoryState::new();
    state.add_snapshot(s("root"), entries);
    ContextManager::new(state)
}

#[test]
fn layered_get_scenario() {
    let mut m = manager_with(vec![(s("K1"), s("V1"))]);
    let a = m.create_context(vec![], "root");
    m.set_state(&a, s("K2"), s("V2")).unwrap();
    let b = m.create_context(vec![a], "root");
    m.set_state(&b, s("K3"), s("V3")).unwrap();
    assert_eq!(m.delete_state(&b, s("K4")).unwrap(), None);
    let keys = vec![s("K1"), s("K2"), s("K4"), s("K5")];
    let got = m.get(&b, &keys).unwrap();
    // K4 was deleted in b, so it comes back as deleted; K5 is held by nothing.
    assert_eq!(
        got,
        vec![
            (s("K4"), None),
            (s("K2"), Some(s("V2"))),
            (s("K1"), Some(s("V1"))),
        ]
    );
}

#[test]
fn delete_returns_ancestor_value_scenario() {
    let mut m = manager_with(vec![(s("K1"), s("V1"))]);
    let a = m.create_context(vec![], "root");
    m.set_state(&a, s("K2"), s("V2")).unwrap();
    let b = m.create_context(vec![a], "root");
    m.set_state(&b, s("K3"), s("V3")).unwrap();
    m.set_state(&b, s("K4"), s("V4")).unwrap();
    assert_eq!(m.delete_state(&b, s("K1")).unwrap(), Some(s("V1")));
    assert_eq!(m.delete_state(&b, s("K2")).unwrap(), Some(s("V2")));
    assert_eq!(m.delete_state(&b, s("K3")).unwrap(), Some(s("V3")));
    assert_eq!(m.delete_state(&b, s("K5")).unwrap(), None);
}

#[test]
fn delete_of_absent_key_reads_as_deleted_afterwards() {
    let mut m = manager_with(vec![]);
    let a = m.create_context(vec![], "root");
    assert_eq!(m.delete_state(&a, s("K")).unwrap(), None);
    let changes = m.get_context(&a).unwrap().state_changes().clone();
    assert_eq!(changes, vec![StateChange::Delete { key: s("K") }]);
    assert_eq!(m.get(&a, &[s("K")]).unwrap(), vec![(s("K"), None)]);
}

#[test]
fn delete_shadows_store_and_further_ancestors() {
    let mut m = manager_with(vec![(s("K"), s("store"))]);
    let far = m.create_context(vec![], "root");
    m.set_state(&far, s("K"), s("far")).unwrap();
    let near = m.create_context(vec![far], "root");
    m.delete_state(&near, s("K")).unwrap();
    let c = m.create_context(vec![near], "root");
    assert_eq!(m.get(&c, &[s("K")]).unwrap(), vec![(s("K"), None)]);
    assert_eq!(m.delete_state(&c, s("K")).unwrap(), None);
}

#[test]
fn breadth_first_nearest_ancestor_wins() {
    let mut m = manager_with(vec![]);
    let deep = m.create_context(vec![], "root");
    m.set_state(&deep, s("K"), s("deep")).unwrap();
    let left = m.create_context(vec![deep], "root");
    let right = m.create_context(vec![], "root");
    m.set_state(&right, s("K"), s("right")).unwrap();
    let c = m.create_context(vec![left, right], "root");
    assert_eq!(m.get(&c, &[s("K")]).unwrap(), vec![(s("K"), Some(s("right")))]);
}

#[test]
fn own_change_beats_ancestors() {
    let mut m = manager_with(vec![]);
    let a = m.create_context(vec![], "root");
    m.set_state(&a, s("K"), s("old")).unwrap();
    let b = m.create_context(vec![a], "root");
    m.set_state(&b, s("K"), s("first")).unwrap();
    m.set_state(&b, s("K"), s("second")).unwrap();
    assert_eq!(m.get(&b, &[s("K")]).unwrap(), vec![(s("K"), Some(s("second")))]);
}

#[test]
fn diamond_ancestry_reads_shared_parent() {
    let mut m = manager_with(vec![]);
    let root = m.create_context(vec![], "root");
    m.set_state(&root, s("K"), s("v")).unwrap();
    let l = m.create_context(vec![root], "root");
    let r = m.create_context(vec![root], "root");
    let c = m.create_context(vec![l, r], "root");
    assert_eq!(m.get(&c, &[s("K")]).unwrap(), vec![(s("K"), Some(s("v")))]);
}

#[test]
fn cyclic_ancestry_terminates() {
    let mut m = manager_with(vec![(s("K"), s("store"))]);
    // The first context names the second, which names the first.
    let first = m.create_context(vec![1], "root");
    let second = m.create_context(vec![first], "root");
    assert_eq!(second, 1);
    assert_eq!(m.get(&second, &[s("K")]).unwrap(), vec![(s("K"), Some(s("store")))]);
    assert_eq!(m.get(&second, &[s("Q")]).unwrap(), vec![]);
}

#[test]
fn missing_context_errors() {
    let mut m = manager_with(vec![]);
    let missing = 42u128;
    let err = Err(ContextManagerError::MissingContextError(missing));
    assert_eq!(m.set_state(&missing, s("K"), s("V")), err.clone());
    assert_eq!(m.delete_state(&missing, s("K")), Err(ContextManagerError::MissingContextError(missing)));
    assert_eq!(m.add_data(&missing, vec![1]), err.clone());
    assert_eq!(m.get(&missing, &[]), Err(ContextManagerError::MissingContextError(missing)));
    assert!(m.get_transaction_receipt(&missing, "t").is_err());
    assert_eq!(m.drop_context(missing), err);
    assert!(m.get_context(&missing).is_err());
}

#[test]
fn missing_ancestor_surfaces_at_read() {
    let mut m = manager_with(vec![]);
    let c = m.create_context(vec![99], "root");
    m.set_state(&c, s("Own"), s("v")).unwrap();
    assert_eq!(
        m.get(&c, &[s("K")]),
        Err(ContextManagerError::MissingContextError(99))
    );
    // A key the context itself holds never reaches the missing ancestor.
    assert_eq!(m.get(&c, &[s("Own")]).unwrap(), vec![(s("Own"), Some(s("v")))]);
    assert_eq!(
        m.delete_state(&c, s("K")),
        Err(ContextManagerError::MissingContextError(99))
    );
    // The delete was staged all the same.
    assert!(m.get_context(&c).unwrap().contains(&s("K")));
}

#[test]
fn unreadable_snapshot_is_a_state_read_error() {
    let mut m = manager_with(vec![]);
    let c = m.create_context(vec![], "elsewhere");
    match m.get(&c, &[s("K")]) {
        Err(ContextManagerError::StateReadError(_)) => {}
        other => panic!("expected a state read error, got {:?}", other),
    }
    m.set_state(&c, s("K"), s("v")).unwrap();
    assert_eq!(m.get(&c, &[s("K")]).unwrap(), vec![(s("K"), Some(s("v")))]);
}

#[test]
fn drop_context_refuses_ancestors() {
    let mut m = manager_with(vec![]);
    let a = m.create_context(vec![], "root");
    let b = m.create_context(vec![a], "root");
    assert_eq!(m.drop_context(a), Err(ContextManagerError::ContextInUseError(a)));
    assert_eq!(m.drop_context(b), Ok(()));
    assert!(m.get_context(&b).is_err());
    assert_eq!(m.drop_context(a), Ok(()));
    assert_eq!(m.context_count(), 0);
    // Ids are not reused.
    let c = m.create_context(vec![], "root");
    assert_eq!(c, 2);
}

#[test]
fn receipt_copies_context() {
    let mut m = manager_with(vec![]);
    let a = m.create_context(vec![], "root");
    m.set_state(&a, s("K"), s("V")).unwrap();
    m.add_data(&a, vec![9, 8]).unwrap();
    let r = m.get_transaction_receipt(&a, "txn").unwrap();
    assert_eq!(r.transaction_id, "txn");
    assert_eq!(r.state_changes, vec![StateChange::SetValue { key: s("K"), value: s("V") }]);
    assert!(r.events.is_empty());
    assert_eq!(r.data, vec![vec![9, 8]]);
    // The context is left as it was.
    assert_eq!(m.get_context(&a).unwrap().state_changes().len(), 1);
}

#[test]
fn context_local_reads() {
    let mut c = Context::new(5, "root", vec![1, 2]);
    assert_eq!(*c.id(), 5);
    assert_eq!(c.state_id(), "root");
    assert_eq!(c.base_contexts(), &vec![1, 2]);
    assert!(!c.contains(&s("K")));
    assert_eq!(c.delete_state(s("K")), None);
    assert!(c.contains(&s("K")));
    assert_eq!(c.get_state(&s("K")), None);
    c.set_state(s("K"), s("v"));
    assert_eq!(c.get_state(&s("K")), Some(&s("v")));
    assert_eq!(c.delete_state(s("K")), Some(s("v")));
}

#[test]
fn memory_state_reads_latest_entry() {
    let mut st = MemoryState::new();
    st.add_snapshot(s("a"), vec![(s("K"), s("1")), (s("K"), s("2"))]);
    assert_eq!(st.read(&s("a"), &s("K")), Ok(Some(s("2"))));
    assert_eq!(st.read(&s("a"), &s("Q")), Ok(None));
    assert!(matches!(st.read(&s("b"), &s("K")), Err(StateReadError { .. })));
}
