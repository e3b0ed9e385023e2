use transact::scheduler::{
    BatchExecutionResult, BatchOutcome, BatchPair, CoreStep, ExecutionTask,
    ExecutionTaskCompletionNotification, SchedulerCore, SchedulerError, Shared,
};

fn mock_batch(signature: &str, transactions: usize) -> BatchPair {
    BatchPair {
        header_signature: signature.to_string(),
        transaction_ids: (0..transactions).map(|i| format!("{}-txn{}", signature, i)).collect(),
    }
}

/// Runs the core until it has nothing to do; creates contexts with ids counting from
/// `next_context`, and returns the tasks handed out and the results delivered.
fn run_until_idle(
    core: &mut SchedulerCore,
    shared: &mut Shared,
    next_context: &mut u128,
) -> (Vec<ExecutionTask>, Vec<Option<BatchExecutionResult>>) {
    let mut tasks = Vec::new();
    let mut results = Vec::new();
    loop {
        match core.next_step(shared) {
            CoreStep::Idle => break,
            CoreStep::CreateContext(_) => {
                *next_context += 1;
                tasks.push(core.dispatch(*next_context));
                break;
            }
            CoreStep::BatchDone(r) => results.push(Some(r)),
            CoreStep::EndOfStream => results.push(None),
        }
    }
    (tasks, results)
}

#[test]
fn test_serial_scheduler_add_batch() {
    let mut shared = Shared::new();
    let batch = mock_batch("b1", 1);
    assert!(shared.add_batch(batch.clone()).is_ok());
    assert!(shared.batch_already_queued(&batch));
    assert!(!shared.unscheduled_batches_is_empty());
}

#[test]
fn test_serial_scheduler_cancel() {
    let mut shared = Shared::new();
    let b1 = mock_batch("b1", 1);
    let b2 = mock_batch("b2", 2);
    shared.add_batch(b1.clone()).unwrap();
    shared.add_batch(b2.clone()).unwrap();
    assert_eq!(shared.drain_unscheduled_batches(), vec![b1, b2]);
    assert!(shared.unscheduled_batches_is_empty());
}

#[test]
fn test_serial_scheduler_finalize() {
    let mut shared = Shared::new();
    shared.set_finalized(true);
    assert!(shared.finalized());
    assert_eq!(shared.add_batch(mock_batch("b1", 1)), Err(SchedulerError::SchedulerFinalized));
}

#[test]
fn test_serial_scheduler_flow_with_one_transaction() {
    let mut shared = Shared::new();
    let mut core = SchedulerCore::new();
    let mut ctx = 0u128;
    let batch = mock_batch("b1", 1);
    shared.add_batch(batch.clone()).unwrap();
    let (tasks, results) = run_until_idle(&mut core, &mut shared, &mut ctx);
    assert_eq!(tasks.len(), 1);
    assert!(results.is_empty());
    assert_eq!(tasks[0].transaction_id, "b1-txn0");
    assert_eq!(tasks[0].batch_id, "b1");
    core.on_notification(ExecutionTaskCompletionNotification::Valid(1, "b1-txn0".to_string()))
        .unwrap();
    shared.set_finalized(true);
    let (tasks, results) = run_until_idle(&mut core, &mut shared, &mut ctx);
    assert!(tasks.is_empty());
    assert_eq!(results.len(), 2);
    let result = results[0].clone().unwrap();
    assert_eq!(result.batch, batch);
    match result.outcome {
        BatchOutcome::Valid(v) => {
            assert_eq!(v.len(), 1);
            assert_eq!(v[0].transaction_id, "b1-txn0");
            assert_eq!(v[0].context_id, 1);
        }
        BatchOutcome::Invalid => panic!("batch should be valid"),
    }
    assert!(results[1].is_none());
}

#[test]
fn test_serial_scheduler_flow_with_multiple_transactions() {
    let mut shared = Shared::new();
    let mut core = SchedulerCore::new();
    let mut ctx = 0u128;
    shared.add_batch(mock_batch("b1", 3)).unwrap();
    let mut seen = Vec::new();
    loop {
        let (tasks, results) = run_until_idle(&mut core, &mut shared, &mut ctx);
        if !results.is_empty() {
            assert_eq!(results.len(), 1);
            match &results[0].as_ref().unwrap().outcome {
                BatchOutcome::Valid(v) => assert_eq!(v.len(), 3),
                BatchOutcome::Invalid => panic!("batch should be valid"),
            }
            break;
        }
        assert_eq!(tasks.len(), 1);
        seen.push(tasks[0].transaction_id.clone());
        core.on_notification(ExecutionTaskCompletionNotification::Valid(
            tasks[0].context_id,
            tasks[0].transaction_id.clone(),
        ))
        .unwrap();
    }
    assert_eq!(seen, vec!["b1-txn0", "b1-txn1", "b1-txn2"]);
}

#[test]
fn test_serial_scheduler_invalid_transaction_invalidates_batch() {
    let mut shared = Shared::new();
    let mut core = SchedulerCore::new();
    let mut ctx = 0u128;
    shared.add_batch(mock_batch("b1", 3)).unwrap();
    let (tasks, _) = run_until_idle(&mut core, &mut shared, &mut ctx);
    core.on_notification(ExecutionTaskCompletionNotification::Valid(
        tasks[0].context_id,
        tasks[0].transaction_id.clone(),
    ))
    .unwrap();
    let (tasks, _) = run_until_idle(&mut core, &mut shared, &mut ctx);
    assert_eq!(tasks[0].transaction_id, "b1-txn1");
    core.on_notification(ExecutionTaskCompletionNotification::Invalid(
        "b1-txn1".to_string(),
        "bad".to_string(),
    ))
    .unwrap();
    let (tasks, results) = run_until_idle(&mut core, &mut shared, &mut ctx);
    assert!(tasks.is_empty());
    assert_eq!(results.len(), 1);
    assert_eq!(results[0].as_ref().unwrap().outcome, BatchOutcome::Invalid);
}

#[test]
fn test_serial_scheduler_unexpected_notification() {
    let mut shared = Shared::new();
    let mut core = SchedulerCore::new();
    let mut ctx = 0u128;
    shared.add_batch(mock_batch("b1", 2)).unwrap();
    let (tasks, _) = run_until_idle(&mut core, &mut shared, &mut ctx);
    assert_eq!(tasks.len(), 1);
    let r = core.on_notification(ExecutionTaskCompletionNotification::Valid(
        tasks[0].context_id,
        "not-a-transaction".to_string(),
    ));
    assert_eq!(
        r,
        Err(SchedulerError::UnexpectedNotification("not-a-transaction".to_string()))
    );
    let (tasks, results) = run_until_idle(&mut core, &mut shared, &mut ctx);
    assert!(tasks.is_empty());
    assert_eq!(results[0].as_ref().unwrap().outcome, BatchOutcome::Invalid);
}

#[test]
fn test_serial_scheduler_ordering() {
    let mut shared = Shared::new();
    let mut core = SchedulerCore::new();
    let mut ctx = 0u128;
    let batch = mock_batch("b1", 10);
    shared.add_batch(batch.clone()).unwrap();
    shared.set_finalized(true);
    let mut transaction_ids = batch.transaction_ids.clone().into_iter();
    let (tasks, _) = run_until_idle(&mut core, &mut shared, &mut ctx);
    let mut task = tasks[0].clone();
    loop {
        assert_eq!(transaction_ids.next().expect("Failed to get next transaction"), task.transaction_id);
        // Until the task in flight is reported on, no further task comes.
        let (more, results) = run_until_idle(&mut core, &mut shared, &mut ctx);
        assert!(more.is_empty(), "Returned next task before previous completed");
        assert!(results.is_empty());
        core.on_notification(ExecutionTaskCompletionNotification::Valid(
            task.context_id,
            task.transaction_id.clone(),
        ))
        .unwrap();
        let (more, results) = run_until_idle(&mut core, &mut shared, &mut ctx);
        if more.is_empty() {
            assert_eq!(results.len(), 2);
            assert!(results[1].is_none());
            break;
        }
        task = more[0].clone();
    }
    assert!(transaction_ids.next().is_none());
}

#[test]
fn contexts_chain_within_a_batch() {
    let mut shared = Shared::new();
    let mut core = SchedulerCore::new();
    shared.add_batch(mock_batch("b1", 2)).unwrap();
    match core.next_step(&mut shared) {
        CoreStep::CreateContext(bases) => assert!(bases.is_empty()),
        _ => panic!("expected a context request"),
    }
    let t = core.dispatch(7);
    core.on_notification(ExecutionTaskCompletionNotification::Valid(7, t.transaction_id)).unwrap();
    match core.next_step(&mut shared) {
        CoreStep::CreateContext(bases) => assert_eq!(bases, vec![7]),
        _ => panic!("expected a context request"),
    }
}

#[test]
fn duplicate_batch_stays_refused_after_cancel() {
    let mut shared = Shared::new();
    let b1 = mock_batch("b1", 1);
    shared.add_batch(b1.clone()).unwrap();
    assert_eq!(shared.add_batch(b1.clone()), Err(SchedulerError::DuplicateBatch("b1".to_string())));
    assert_eq!(shared.drain_unscheduled_batches(), vec![b1.clone()]);
    assert_eq!(shared.add_batch(b1), Err(SchedulerError::DuplicateBatch("b1".to_string())));
}

#[test]
fn finalize_with_no_batches_ends_stream() {
    let mut shared = Shared::new();
    let mut core = SchedulerCore::new();
    assert!(matches!(core.next_step(&mut shared), CoreStep::Idle));
    shared.set_finalized(true);
    assert!(matches!(core.next_step(&mut shared), CoreStep::EndOfStream));
    assert!(matches!(core.next_step(&mut shared), CoreStep::Idle));
}

#[test]
fn batches_run_in_submission_order() {
    let mut shared = Shared::new();
    let mut core = SchedulerCore::new();
    let mut ctx = 0u128;
    shared.add_batch(mock_batch("b1", 1)).unwrap();
    shared.add_batch(mock_batch("b2", 1)).unwrap();
    let mut done = Vec::new();
    let (mut tasks, _) = run_until_idle(&mut core, &mut shared, &mut ctx);
    while let Some(t) = tasks.pop() {
        core.on_notification(ExecutionTaskCompletionNotification::Valid(t.context_id, t.transaction_id))
            .unwrap();
        let (more, results) = run_until_idle(&mut core, &mut shared, &mut ctx);
        for r in results.into_iter().flatten() {
            done.push(r.batch.header_signature);
        }
        tasks = more;
    }
    assert_eq!(done, vec!["b1", "b2"]);
}

#[test]
fn cancel_leaves_active_batch_running() {
    let mut shared = Shared::new();
    let mut core = SchedulerCore::new();
    let mut ctx = 0u128;
    shared.add_batch(mock_batch("b1", 1)).unwrap();
    shared.add_batch(mock_batch("b2", 1)).unwrap();
    let (tasks, _) = run_until_idle(&mut core, &mut shared, &mut ctx);
    let cancelled = shared.drain_unscheduled_batches();
    assert_eq!(cancelled, vec![mock_batch("b2", 1)]);
    core.on_notification(ExecutionTaskCompletionNotification::Valid(
        tasks[0].context_id,
        tasks[0].transaction_id.clone(),
    ))
    .unwrap();
    let (_, results) = run_until_idle(&mut core, &mut shared, &mut ctx);
    assert_eq!(results.len(), 1);
    assert_eq!(results[0].as_ref().unwrap().batch.header_signature, "b1");
}
