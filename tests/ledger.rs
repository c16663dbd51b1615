use aldeger::append::prepare_append;
use aldeger::entity::{
    AccountId, Conditional, Entry, EntryId, EntryStatus, EntryWithBalance, EntryWithConditionals,
    LedgerBalanceName, LedgerFieldName, Timestamp, ValidationError,
};
use aldeger::error::AppendEntriesError;
use aldeger::store::append_cancellation;
use aldeger::use_case::{
    dedup_non_applied, plan_push, NonAppliedReason, PushChunk, RetryAction,
};

fn now() -> Timestamp {
    Timestamp { seconds: 1_714_564_800, nanos: 0 }
}

fn account(n: u128) -> AccountId {
    AccountId::new(0x67e5_5044_10b1_426f_9247_bb68_0e5f_e0c8 + n)
}

fn entry(acc: AccountId, id: &str, fields: &[(&str, i128)]) -> Entry {
    Entry {
        account_id: acc,
        entry_id: EntryId::new(id.to_string()).expect("valid entry id"),
        ledger_fields: fields
            .iter()
            .map(|(k, v)| (LedgerFieldName::new(k.to_string()).expect("valid field"), *v))
            .collect(),
        additional_fields: "null".to_string(),
        status: EntryStatus::Applied,
    }
}

fn plain(e: &Entry) -> EntryWithConditionals {
    EntryWithConditionals::from_entry(e.clone())
}

fn balance(row: &EntryWithBalance, name: &str) -> Option<i128> {
    row.ledger_balances.iter().find(|(k, _)| k.as_str() == name).map(|(_, v)| *v)
}

/// Runs the retry state machine of one chunk against queued repository
/// outcomes, the way the application does.
fn run_chunk(
    acc: AccountId,
    entries: Vec<EntryWithConditionals>,
    mut repository: impl FnMut(Option<&EntryWithBalance>, &Vec<EntryWithConditionals>) -> Result<Vec<EntryWithBalance>, AppendEntriesError>,
    head: Option<&EntryWithBalance>,
) -> (PushChunk, Vec<RetryAction>) {
    let mut chunk = PushChunk::new(acc, entries);
    let mut actions = Vec::new();
    loop {
        let result = repository(head, &chunk.pending);
        let action = chunk.on_append_result(result);
        actions.push(action);
        if action == RetryAction::Done {
            break;
        }
    }
    (chunk, actions)
}

#[test]
fn push_single_entry() {
    let acc = account(1);
    let e = entry(acc, "e1", &[("local_amount", 100), ("usd_amount", 301)]);
    let rows = prepare_append(acc, None, &vec![plain(&e)], now()).expect("applied");
    assert_eq!(1, rows.len());
    assert_eq!(0, rows[0].sequence);
    assert_eq!(Some(100), balance(&rows[0], "balance_local_amount"));
    assert_eq!(Some(301), balance(&rows[0], "balance_usd_amount"));
    assert_eq!(e.ledger_fields, rows[0].ledger_fields);
    assert_eq!(now(), rows[0].created_at);
}

#[test]
fn push_multiple_entry_from_same_account_id() {
    let acc = account(2);
    let e1 = entry(acc, "e1", &[("local_amount", 100), ("usd_amount", 301)]);
    let e2 = entry(acc, "e2", &[("local_amount", -50), ("usd_amount", -152)]);
    let rows = prepare_append(acc, None, &vec![plain(&e1), plain(&e2)], now()).expect("applied");
    assert_eq!(vec![0, 1], rows.iter().map(|r| r.sequence).collect::<Vec<_>>());
    assert_eq!(Some(50), balance(&rows[1], "balance_local_amount"));
    assert_eq!(Some(149), balance(&rows[1], "balance_usd_amount"));
}

#[test]
fn push_multiple_entry_from_different_account_ids() {
    let a1 = account(3);
    let a2 = account(4);
    let e1 = entry(a1, "e1", &[("local_amount", 100), ("usd_amount", 301)]);
    let e2 = entry(a1, "e2", &[("local_amount", -50), ("usd_amount", -152)]);
    let e3 = entry(a2, "e3", &[("local_amount", 123100), ("usd_amount", 41233123), ("another_amount", 33313)]);
    let e4 = entry(a2, "e4", &[("local_amount", 12233), ("usd_amount", 44412), ("another_amount", 3312)]);
    let plan = plan_push(vec![plain(&e1), plain(&e3), plain(&e2), plain(&e4)]);
    assert_eq!(2, plan.len());
    let mut applied = Vec::new();
    for (acc, chunks) in plan.iter() {
        assert_eq!(1, chunks.len());
        applied.extend(prepare_append(*acc, None, &chunks[0], now()).expect("applied"));
    }
    assert_eq!(4, applied.len());
    let by_id = |id: &str| applied.iter().find(|r| r.entry_id.as_str() == id).expect("row").clone();
    assert_eq!(Some(100), balance(&by_id("e1"), "balance_local_amount"));
    assert_eq!(Some(149), balance(&by_id("e2"), "balance_usd_amount"));
    assert_eq!(Some(33313), balance(&by_id("e3"), "balance_another_amount"));
    assert_eq!(Some(135333), balance(&by_id("e4"), "balance_local_amount"));
    assert_eq!(Some(41277535), balance(&by_id("e4"), "balance_usd_amount"));
    assert_eq!(Some(36625), balance(&by_id("e4"), "balance_another_amount"));
}

#[test]
fn push_duplicated_entry_in_same_request_should_not_apply() {
    let acc = account(5);
    let e1 = entry(acc, "e1", &[("local_amount", 100), ("usd_amount", 301)]);
    let e2 = entry(acc, "e2", &[("local_amount", -50), ("usd_amount", -152)]);
    let (chunk, _) = run_chunk(
        acc,
        vec![plain(&e2), plain(&e1), plain(&e2)],
        |head, pending| prepare_append(acc, head, pending, now()),
        None,
    );
    let non_applied = dedup_non_applied(&chunk.non_applied);
    assert_eq!(vec![(NonAppliedReason::EntriesAlreadyExists, e2)], non_applied);
    assert_eq!(1, chunk.applied.len());
    assert_eq!("e1", chunk.applied[0].entry_id.as_str());
    assert_eq!(Some(100), balance(&chunk.applied[0], "balance_local_amount"));
    assert_eq!(Some(301), balance(&chunk.applied[0], "balance_usd_amount"));
}

#[test]
fn push_duplicated_entry_in_different_request_should_not_apply() {
    let acc = account(6);
    let e1 = entry(acc, "e1", &[("local_amount", 100), ("usd_amount", 301)]);
    let e2 = entry(acc, "e2", &[("local_amount", -50), ("usd_amount", -152)]);
    let e3 = entry(acc, "e3", &[("local_amount", -50), ("usd_amount", -152)]);
    let first = prepare_append(acc, None, &vec![plain(&e1), plain(&e2)], now()).expect("applied");
    let head = first[1].clone();
    // The store already holds e1 and e2: their conditional puts fail.
    let (chunk, _) = run_chunk(
        acc,
        vec![plain(&e1), plain(&e2), plain(&e3)],
        |head, pending| {
            let rows = prepare_append(acc, head, pending, now())?;
            let mut failed: Vec<bool> = rows.iter().map(|r| r.entry_id.as_str() != "e3").collect();
            failed.push(false);
            if failed.iter().any(|f| *f) {
                Err(append_cancellation(acc, &rows, &failed))
            } else {
                Ok(rows)
            }
        },
        Some(&head),
    );
    assert_eq!(1, chunk.applied.len());
    assert_eq!("e3", chunk.applied[0].entry_id.as_str());
    assert_eq!(2, chunk.applied[0].sequence);
    assert_eq!(Some(0), balance(&chunk.applied[0], "balance_local_amount"));
    assert_eq!(Some(-3), balance(&chunk.applied[0], "balance_usd_amount"));
    assert_eq!(
        vec![(NonAppliedReason::EntriesAlreadyExists, e1), (NonAppliedReason::EntriesAlreadyExists, e2)],
        chunk.non_applied
    );
}

#[test]
fn optimistic_lock_error_should_retry() {
    let acc = account(7);
    let e1 = entry(acc, "e1", &[("local_amount", 100), ("usd_amount", 301)]);
    let mut calls = 0;
    let (chunk, actions) = run_chunk(
        acc,
        vec![plain(&e1)],
        |_, _| {
            calls += 1;
            Err(AppendEntriesError::OptimisticLockError(acc))
        },
        None,
    );
    assert!(chunk.applied.is_empty());
    assert_eq!(vec![(NonAppliedReason::OptimisticLockFailed, e1)], chunk.non_applied);
    assert_eq!(5, calls);
    assert_eq!(
        vec![
            RetryAction::CallAgain,
            RetryAction::BackoffThenCall,
            RetryAction::BackoffThenCall,
            RetryAction::BackoffThenCall,
            RetryAction::Done
        ],
        actions
    );
}

fn at_least(name: &str, value: i128) -> Conditional {
    Conditional::GreaterThanOrEqualTo { balance: LedgerBalanceName::new(name.to_string()).expect("valid"), value }
}

#[test]
fn push_entries_with_conditional() {
    let acc = account(8);
    let e1 = entry(acc, "e1", &[("local_amount", -1), ("usd_amount", -1)]);
    let e2 = entry(acc, "e2", &[("local_amount", 0), ("usd_amount", 0)]);
    let e3 = entry(acc, "e3", &[("local_amount", -5), ("usd_amount", 0)]);
    let input = vec![
        EntryWithConditionals { entry: e1.clone(), conditionals: vec![at_least("balance_usd_amount", 0)] },
        EntryWithConditionals { entry: e2.clone(), conditionals: vec![at_least("balance_usd_amount", 0)] },
        EntryWithConditionals {
            entry: e3.clone(),
            conditionals: vec![at_least("balance_local_amount", -4), at_least("balance_usd_amount", 0)],
        },
    ];
    let (chunk, _) = run_chunk(acc, input, |head, pending| prepare_append(acc, head, pending, now()), None);
    assert_eq!(
        vec![(NonAppliedReason::ConditionFailed, e1), (NonAppliedReason::ConditionFailed, e3)],
        chunk.non_applied
    );
    assert_eq!(1, chunk.applied.len());
    assert_eq!("e2", chunk.applied[0].entry_id.as_str());
    assert_eq!(Some(0), balance(&chunk.applied[0], "balance_local_amount"));
    assert_eq!(Some(0), balance(&chunk.applied[0], "balance_usd_amount"));
    assert_eq!(400, chunk.non_applied[0].0.reason_code());
}

#[test]
fn scenario_single_entry() {
    let acc = account(9);
    let e1 = entry(acc, "e1", &[("amount", 100)]);
    let rows = prepare_append(acc, None, &vec![plain(&e1)], now()).expect("applied");
    assert_eq!(0, rows[0].sequence);
    assert_eq!(vec![("balance_amount".to_string(), 100)], rows[0].ledger_balances.iter().map(|(k, v)| (k.as_str().to_string(), *v)).collect::<Vec<_>>());
}

#[test]
fn scenario_two_entries_one_batch() {
    let acc = account(10);
    let e1 = entry(acc, "e1", &[("amount", 100)]);
    let e2 = entry(acc, "e2", &[("amount", -30)]);
    let rows = prepare_append(acc, None, &vec![plain(&e1), plain(&e2)], now()).expect("applied");
    assert_eq!(vec![0, 1], rows.iter().map(|r| r.sequence).collect::<Vec<_>>());
    assert_eq!(Some(70), balance(&rows[1], "balance_amount"));
}

#[test]
fn scenario_duplicate_detection() {
    let acc = account(11);
    let e1 = entry(acc, "e1", &[("amount", 100)]);
    let head = prepare_append(acc, None, &vec![plain(&e1)], now()).expect("applied").remove(0);
    let again = entry(acc, "e1", &[("amount", 5)]);
    let e3 = entry(acc, "e3", &[("amount", 7)]);
    let (chunk, _) = run_chunk(
        acc,
        vec![plain(&again), plain(&e3)],
        |head, pending| {
            let rows = prepare_append(acc, head, pending, now())?;
            let mut failed: Vec<bool> = rows.iter().map(|r| r.entry_id.as_str() == "e1").collect();
            failed.push(false);
            if failed.iter().any(|f| *f) {
                Err(append_cancellation(acc, &rows, &failed))
            } else {
                Ok(rows)
            }
        },
        Some(&head),
    );
    assert_eq!(1, chunk.applied.len());
    assert_eq!("e3", chunk.applied[0].entry_id.as_str());
    assert_eq!(1, chunk.applied[0].sequence);
    assert_eq!(Some(107), balance(&chunk.applied[0], "balance_amount"));
    assert_eq!(1, chunk.non_applied.len());
    assert_eq!(200, chunk.non_applied[0].0.reason_code());
    assert_eq!("e1", chunk.non_applied[0].1.entry_id.as_str());
}

#[test]
fn scenario_conditional_failure() {
    let acc = account(12);
    let e1 = entry(acc, "e1", &[("amount", -5)]);
    let input = vec![EntryWithConditionals { entry: e1.clone(), conditionals: vec![at_least("balance_amount", 0)] }];
    match prepare_append(acc, None, &input, now()) {
        Err(AppendEntriesError::ConditionFailed(id, c)) => {
            assert_eq!("e1", id.as_str());
            assert_eq!(at_least("balance_amount", 0), c);
        },
        other => panic!("expected a failed condition, got {:?}", other),
    }
    let (chunk, actions) = run_chunk(acc, input, |head, pending| prepare_append(acc, head, pending, now()), None);
    assert!(chunk.applied.is_empty());
    assert_eq!(vec![RetryAction::Done], actions);
    assert_eq!(vec![(NonAppliedReason::ConditionFailed, e1)], chunk.non_applied);
}

#[test]
fn empty_batch_is_a_no_op() {
    let acc = account(13);
    let rows = prepare_append(acc, None, &vec![], now()).expect("nothing to do");
    assert!(rows.is_empty());
    assert!(plan_push(vec![]).is_empty());
}

#[test]
fn missing_prior_balance_counts_as_zero() {
    let acc = account(14);
    let e1 = entry(acc, "e1", &[("amount", 10)]);
    let head = prepare_append(acc, None, &vec![plain(&e1)], now()).expect("applied").remove(0);
    let e2 = entry(acc, "e2", &[("fee", 3)]);
    let rows = prepare_append(acc, Some(&head), &vec![plain(&e2)], now()).expect("applied");
    assert_eq!(Some(3), balance(&rows[0], "balance_fee"));
    assert_eq!(1, rows[0].sequence);
}

#[test]
fn balance_overflow_is_refused() {
    let acc = account(15);
    let e1 = entry(acc, "e1", &[("amount", i128::MAX)]);
    let e2 = entry(acc, "e2", &[("amount", 1)]);
    assert!(matches!(
        prepare_append(acc, None, &vec![plain(&e1), plain(&e2)], now()),
        Err(AppendEntriesError::Other(_))
    ));
}

#[test]
fn sequences_stay_contiguous_across_appends() {
    let acc = account(16);
    let first = prepare_append(acc, None, &vec![plain(&entry(acc, "a", &[("x", 1)])), plain(&entry(acc, "b", &[("x", 1)]))], now()).expect("applied");
    let second = prepare_append(acc, first.last(), &vec![plain(&entry(acc, "c", &[("x", 1)]))], now()).expect("applied");
    let all: Vec<u64> = first.iter().chain(second.iter()).map(|r| r.sequence).collect();
    assert_eq!(vec![0, 1, 2], all);
    assert_eq!(Some(3), balance(&second[0], "balance_x"));
}

#[test]
fn validation_of_names_and_ids() {
    assert_eq!(Err(ValidationError::EntryIdHasSeparator), EntryId::new("a|b".to_string()));
    assert_eq!(Err(ValidationError::EntryIdTooLong), EntryId::new("x".repeat(65)));
    assert!(EntryId::new("x".repeat(64)).is_ok());
    assert_eq!(Err(ValidationError::FieldNameReserved), LedgerFieldName::new("balance_amount".to_string()));
    assert_eq!(Err(ValidationError::FieldNameEmpty), LedgerFieldName::new(String::new()));
    assert_eq!(Err(ValidationError::BalanceNameWithoutPrefix), LedgerBalanceName::new("amount".to_string()));
    let f = LedgerFieldName::new("amount".to_string()).expect("valid");
    assert_eq!("balance_amount", f.balance_name().as_str());
}

#[test]
fn reason_codes_and_messages() {
    assert_eq!(100, NonAppliedReason::OptimisticLockFailed.reason_code());
    assert_eq!(200, NonAppliedReason::EntriesAlreadyExists.reason_code());
    assert_eq!(300, NonAppliedReason::EntriesDoesNotExists.reason_code());
    assert_eq!(400, NonAppliedReason::ConditionFailed.reason_code());
    assert_eq!(900, NonAppliedReason::Other("boom".to_string()).reason_code());
    assert_eq!("Other unexpected error: boom", NonAppliedReason::Other("boom".to_string()).message());
    assert_eq!(
        NonAppliedReason::EntriesAlreadyExists,
        NonAppliedReason::from_append_entries_error(&AppendEntriesError::EntriesAlreadyExists(account(1), vec![]))
    );
}

#[test]
fn untouched_balances_are_carried_forward() {
    let acc = account(17);
    let e = entry(acc, "e", &[("f", 10)]);
    let g = entry(acc, "g", &[("g", 4)]);
    let rows = prepare_append(acc, None, &vec![plain(&e), plain(&g)], now()).expect("applied");
    assert_eq!(Some(10), balance(&rows[1], "balance_f"));
    assert_eq!(Some(4), balance(&rows[1], "balance_g"));
    let h = entry(acc, "h", &[("f", -3)]);
    let next = prepare_append(acc, Some(&rows[1]), &vec![plain(&h)], now()).expect("applied");
    assert_eq!(Some(7), balance(&next[0], "balance_f"));
    assert_eq!(Some(4), balance(&next[0], "balance_g"));
}

#[test]
fn repeated_field_name_is_refused() {
    let acc = account(18);
    let e = entry(acc, "e", &[("f", 1), ("f", 2)]);
    assert!(matches!(prepare_append(acc, None, &vec![plain(&e)], now()), Err(AppendEntriesError::Other(_))));
}

#[test]
fn large_batches_are_chunked() {
    let acc = account(19);
    let input: Vec<EntryWithConditionals> = (0..200).map(|k| plain(&entry(acc, &format!("e{}", k), &[("x", 1)]))).collect();
    let plan = plan_push(input);
    assert_eq!(1, plan.len());
    assert_eq!(vec![99, 99, 2], plan[0].1.iter().map(|c| c.len()).collect::<Vec<_>>());
    assert_eq!("e198", plan[0].1[2][0].entry.entry_id.as_str());
}

#[test]
fn entry_id_length_counts_bytes() {
    assert_eq!(Err(ValidationError::EntryIdTooLong), EntryId::new("é".repeat(34)));
    assert!(EntryId::new("é".repeat(32)).is_ok());
}
