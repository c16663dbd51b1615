use aldeger::append::prepare_append;
use aldeger::entity::{
    AccountId, Cursor, DeleteEntryRequest, Entry, EntryId, EntryStatus, EntryToContinue, EntryWithBalance,
    EntryWithConditionals, LedgerFieldName, Order, Timestamp,
};
use aldeger::error::{GetBalanceError, RevertEntriesError};
use aldeger::keys::{created_at_key, padded_sequence, Pk, Sk};
use aldeger::query::{chain_condition, chain_result, day_number, entry_chain_cursor, entries_cursor_query, DateScan, SkCondition};
use aldeger::revert::prepare_revert;
use aldeger::select::extract_if;
use aldeger::store::{append_transaction, revert_cancellation, stored_row, WriteItem};
use aldeger::use_case::{split_chunks, DeleteChunk, NonAppliedReason, RetryAction};

const UUID: u128 = 0x67e5_5044_10b1_426f_9247_bb68_0e5f_e0c8;
const UUID_TEXT: &str = "67e55044-10b1-426f-9247-bb680e5fe0c8";

fn at(seconds: i64) -> Timestamp {
    Timestamp { seconds, nanos: 0 }
}

fn entry(acc: AccountId, id: &str, fields: &[(&str, i128)]) -> EntryWithConditionals {
    EntryWithConditionals::from_entry(Entry {
        account_id: acc,
        entry_id: EntryId::new(id.to_string()).expect("valid entry id"),
        ledger_fields: fields
            .iter()
            .map(|(k, v)| (LedgerFieldName::new(k.to_string()).expect("valid field"), *v))
            .collect(),
        additional_fields: "{}".to_string(),
        status: EntryStatus::Applied,
    })
}

fn balance(row: &EntryWithBalance, name: &str) -> Option<i128> {
    row.ledger_balances.iter().find(|(k, _)| k.as_str() == name).map(|(_, v)| *v)
}

fn id(s: &str) -> EntryId {
    EntryId::new(s.to_string()).expect("valid entry id")
}

#[test]
fn partition_and_sort_keys() {
    let acc = AccountId::new(UUID);
    assert_eq!(format!("ACCOUNT_ID:{}", UUID_TEXT), Pk::Balance(acc).text());
    assert_eq!(format!("ACCOUNT_ID:{}|ENTRY_ID:e1", UUID_TEXT), Pk::Entry(acc, id("e1")).text());
    assert_eq!("|~", Sk::CurrentEntry.text());
    assert_eq!("|REVERT", Sk::RevertEntry.text());
    assert_eq!("|REVERT_ENTRY_SEQUENCE:00000000000000000042", Sk::RevertedEntry(42).text());
    assert_eq!("18446744073709551615", padded_sequence(u64::MAX));
    assert!(padded_sequence(9) < padded_sequence(10));
}

#[test]
fn partition_keys_read_back() {
    let acc = AccountId::new(UUID);
    match Pk::parse(&Pk::Entry(acc, id("e-1")).text()) {
        Some(Pk::Entry(a, e)) => {
            assert_eq!(acc, a);
            assert_eq!("e-1", e.as_str());
        },
        other => panic!("unexpected {:?}", other),
    }
    assert_eq!(Some(Pk::Balance(acc)), Pk::parse(&Pk::Balance(acc).text()));
    assert_eq!(None, Pk::parse("ACCOUNT_ID:not-a-uuid"));
    assert_eq!(None, Pk::parse("SOMETHING:else"));
}

#[test]
fn index_keys_of_a_row() {
    let acc = AccountId::new(UUID);
    let rows = prepare_append(acc, None, &vec![entry(acc, "e1", &[("amount", 1)])], at(1_714_564_800)).expect("applied");
    assert_eq!(
        Some("2024-05-01T12:00:00.000000000Z|00000000000000000000".to_string()),
        created_at_key(at(1_714_564_800), 0)
    );
    let row = stored_row(&rows[0], false).expect("row");
    assert_eq!(format!("{}|2024-05-01", UUID_TEXT), row.account_id_and_date);
    assert_eq!("2024-05-01T12:00:00.000000000Z|00000000000000000000", row.created_at);
    let head = stored_row(&rows[0], true).expect("row");
    assert_eq!("head", head.account_id_and_date);
    assert_eq!(format!("ACCOUNT_ID:{}", UUID_TEXT), head.pk);
}

#[test]
fn append_transaction_shape() {
    let acc = AccountId::new(UUID);
    let first = prepare_append(acc, None, &vec![entry(acc, "e1", &[("amount", 1)])], at(0)).expect("applied");
    let writes = append_transaction(None, &first).expect("writes");
    assert_eq!(2, writes.len());
    assert!(matches!(&writes[1], WriteItem::PutNew(r) if r.is_head));
    let second = prepare_append(acc, Some(&first[0]), &vec![entry(acc, "e2", &[("amount", 2)])], at(0)).expect("applied");
    let writes = append_transaction(Some(&first[0]), &second).expect("writes");
    match &writes[1] {
        WriteItem::UpdateHead { row, old_sequence, .. } => {
            assert_eq!(0, *old_sequence);
            assert_eq!(1, row.entry.sequence);
            assert_eq!(Some(3), balance(&row.entry, "balance_amount"));
        },
        other => panic!("unexpected {:?}", other),
    }
}

#[test]
fn scenario_revert_and_re_add() {
    let acc = AccountId::new(UUID);
    let first = prepare_append(acc, None, &vec![entry(acc, "e1", &[("amount", 100)])], at(10)).expect("applied");
    let plan = prepare_revert(acc, Some(&first[0]), &vec![id("e1")], &first, &vec![id("fresh-1")], at(11)).expect("plan");
    assert_eq!(1, plan.rows.len());
    assert_eq!(EntryStatus::Revert(0), plan.rows[0].status);
    assert_eq!(1, plan.rows[0].sequence);
    assert_eq!(Some(0), balance(&plan.rows[0], "balance_amount"));
    assert_eq!(Some(-100), plan.rows[0].ledger_fields.iter().map(|(_, v)| *v).next());
    // compensating row, HEAD update, historical row, removal of the live row
    assert_eq!(4, plan.writes.len());
    match &plan.writes[2] {
        WriteItem::PutNew(r) => {
            assert_eq!(EntryStatus::Reverted(1), r.entry.status);
            assert_eq!("|REVERT_ENTRY_SEQUENCE:00000000000000000001", r.sk);
        },
        other => panic!("unexpected {:?}", other),
    }
    match &plan.writes[3] {
        WriteItem::Delete { pk, sk } => {
            assert_eq!(&format!("ACCOUNT_ID:{}|ENTRY_ID:e1", UUID_TEXT), pk);
            assert_eq!("|~", sk);
        },
        other => panic!("unexpected {:?}", other),
    }
    let again = prepare_append(acc, Some(&plan.rows[0]), &vec![entry(acc, "e1", &[("amount", 100)])], at(12)).expect("applied");
    assert_eq!(2, again[0].sequence);
    assert_eq!(Some(100), balance(&again[0], "balance_amount"));
}

#[test]
fn delete_entry_that_does_not_exist() {
    let acc = AccountId::new(UUID);
    match prepare_revert(acc, None, &vec![id("invalid")], &vec![], &vec![id("fresh")], at(0)) {
        Err(RevertEntriesError::EntriesDoesNotExists(a, ids)) => {
            assert_eq!(acc, a);
            assert_eq!(vec![id("invalid")], ids);
        },
        other => panic!("unexpected {:?}", other.map(|p| p.rows)),
    }
    let mut chunk = DeleteChunk::new(acc, vec![DeleteEntryRequest { account_id: acc, entry_id: id("invalid") }]);
    let action = chunk.on_revert_result(Err(RevertEntriesError::EntriesDoesNotExists(acc, vec![id("invalid")])));
    assert_eq!(RetryAction::Done, action);
    assert_eq!(NonAppliedReason::EntriesDoesNotExists, chunk.non_applied[0].0);
    assert_eq!(300, chunk.non_applied[0].0.reason_code());
}

#[test]
fn delete_entries() {
    let acc = AccountId::new(UUID);
    let rows = prepare_append(acc, None, &vec![entry(acc, "a", &[("amount", 4)]), entry(acc, "b", &[("amount", 6)])], at(0)).expect("applied");
    let plan = prepare_revert(acc, Some(&rows[1]), &vec![id("a"), id("b")], &rows, &vec![id("r1"), id("r2")], at(1)).expect("plan");
    assert_eq!(EntryStatus::Revert(rows[0].sequence), plan.rows[0].status);
    assert_eq!(EntryStatus::Revert(rows[1].sequence), plan.rows[1].status);
    assert_eq!(vec![2, 3], plan.rows.iter().map(|r| r.sequence).collect::<Vec<_>>());
    assert_eq!(Some(0), balance(&plan.rows[1], "balance_amount"));
    assert_eq!(3 + 2 * 2, plan.writes.len());
}

#[test]
fn delete_entries_should_allow_to_re_add() {
    let acc = AccountId::new(UUID);
    let rows = prepare_append(acc, None, &vec![entry(acc, "a", &[("amount", 4)])], at(0)).expect("applied");
    let plan = prepare_revert(acc, Some(&rows[0]), &vec![id("a")], &rows, &vec![id("r")], at(1)).expect("plan");
    let again = prepare_append(acc, Some(&plan.rows[0]), &vec![entry(acc, "a", &[("amount", 4)])], at(2)).expect("applied");
    assert_ne!(rows[0].sequence, again[0].sequence);
    assert_eq!(rows[0].ledger_balances, again[0].ledger_balances);
}

#[test]
fn revert_lost_race_is_a_lock_failure() {
    let acc = AccountId::new(UUID);
    assert!(matches!(revert_cancellation(acc, &vec![false, true]), RevertEntriesError::OptimisticLockError(a) if a == acc));
    assert!(matches!(revert_cancellation(acc, &vec![false]), RevertEntriesError::Other(_)));
}

#[test]
fn get_entry_with_cursor() {
    let acc = AccountId::new(UUID);
    let rows = prepare_append(acc, None, &vec![entry(acc, "e1", &[("amount", 1)])], at(0)).expect("applied");
    let plan = prepare_revert(acc, Some(&rows[0]), &vec![id("e1")], &rows, &vec![id("r1")], at(1)).expect("plan");
    let mut historical = rows[0].clone();
    historical.status = EntryStatus::Reverted(plan.rows[0].sequence);
    let page = vec![historical.clone()];
    assert_eq!(
        Some(Cursor::FromEntryQuery { account_id: acc, entry_id: id("e1"), entry_to_continue: EntryToContinue::Sequence(0) }),
        entry_chain_cursor(acc, &id("e1"), &page, 1)
    );
    assert_eq!(None, entry_chain_cursor(acc, &id("e1"), &page, 2));
    let live = vec![rows[0].clone()];
    assert_eq!(
        Some(Cursor::FromEntryQuery { account_id: acc, entry_id: id("e1"), entry_to_continue: EntryToContinue::CurrentEntry }),
        entry_chain_cursor(acc, &id("e1"), &live, 1)
    );
    assert_eq!(SkCondition::BeginsWith("|".to_string()), chain_condition(EntryToContinue::Start));
    assert_eq!(SkCondition::LessThan("|~".to_string()), chain_condition(EntryToContinue::CurrentEntry));
    assert_eq!(
        SkCondition::LessThan("|REVERT_ENTRY_SEQUENCE:00000000000000000007".to_string()),
        chain_condition(EntryToContinue::Sequence(7))
    );
    assert!(matches!(chain_result(acc, EntryToContinue::Start, vec![]), Err(GetBalanceError::NotFound(a)) if a == acc));
    assert!(matches!(chain_result(acc, EntryToContinue::CurrentEntry, vec![]), Ok(v) if v.is_empty()));
}

fn five_entries(acc: AccountId) -> Vec<EntryWithBalance> {
    let mut out: Vec<EntryWithBalance> = Vec::new();
    for k in 0..5 {
        let rows = prepare_append(acc, out.last(), &vec![entry(acc, &format!("e{}", k), &[("amount", 1)])], at(1_714_564_800 + 35 * k as i64)).expect("applied");
        out.extend(rows);
    }
    out
}

#[test]
fn scenario_paginated_range() {
    let acc = AccountId::new(UUID);
    let all = five_entries(acc);
    let t0 = at(1_714_564_800);
    let t1 = at(1_714_564_800 + 3600);
    let mut scan = DateScan::new(acc, t0, t1, 3, Order::Asc, None);
    let q = scan.next_query().expect("query");
    assert_eq!(format!("{}|2024-05-01", UUID_TEXT), q.partition);
    assert_eq!(4, q.limit);
    assert!(q.forward);
    // the store returns up to `limit` rows of the day
    scan.on_page(all[0..4].to_vec());
    assert!(scan.done);
    let (page, cursor) = scan.finish();
    assert_eq!(vec![0, 1, 2], page.iter().map(|r| r.sequence).collect::<Vec<_>>());
    let cursor = cursor.expect("a cursor");
    let (a, start, end, order, sequence) = entries_cursor_query(cursor).expect("date cursor");
    assert_eq!(acc, a);
    assert_eq!(all[2].created_at, start);
    assert_eq!(2, sequence);
    let mut next = DateScan::new(a, start, end, 3, order, Some(sequence));
    let q = next.next_query().expect("query");
    assert_eq!(created_at_key(all[2].created_at, 3).expect("key"), q.low);
    next.on_page(all[3..5].to_vec());
    let (page, cursor) = next.finish();
    assert_eq!(vec![3, 4], page.iter().map(|r| r.sequence).collect::<Vec<_>>());
    assert_eq!(None, cursor);
}

#[test]
fn number_of_entries_equals_to_limit_should_return_cursor() {
    let acc = AccountId::new(UUID);
    let all = five_entries(acc);
    let end = at(1_714_564_800 + 3600);
    let mut scan = DateScan::new(acc, at(1_714_564_800), end, 5, Order::Asc, None);
    scan.on_page(all.clone());
    let (page, cursor) = scan.finish();
    assert_eq!(all, page);
    let cursor = cursor.expect("a cursor");
    assert_eq!(
        Cursor::FromEntriesQuery { account_id: acc, start_date: all[4].created_at, end_date: end, sequence: 4, order: Order::Asc },
        cursor
    );
    let (a, start, end, order, sequence) = entries_cursor_query(cursor).expect("date cursor");
    let next = DateScan::new(a, start, end, 5, order, Some(sequence));
    let q = next.next_query().expect("query");
    assert_eq!(created_at_key(all[4].created_at, 5).expect("key"), q.low);
}

#[test]
fn reversed_range_is_empty() {
    let acc = AccountId::new(UUID);
    let scan = DateScan::new(acc, at(200_000), at(100), 10, Order::Asc, None);
    assert!(scan.done);
    assert!(scan.next_query().is_none());
    let (page, cursor) = scan.finish();
    assert!(page.is_empty());
    assert_eq!(None, cursor);
}

#[test]
fn days_round_toward_the_past() {
    assert_eq!(0, day_number(0));
    assert_eq!(0, day_number(86_399));
    assert_eq!(1, day_number(86_400));
    assert_eq!(-1, day_number(-1));
    assert_eq!(-1, day_number(-86_400));
    assert_eq!(-2, day_number(-86_401));
}

#[test]
fn chunks_and_extraction() {
    let v: Vec<u32> = (0..200).collect();
    let chunks = split_chunks(v, 99);
    assert_eq!(vec![99, 99, 2], chunks.iter().map(|c| c.len()).collect::<Vec<_>>());
    assert_eq!(199, chunks[2][1]);
    let mut w: Vec<u32> = (0..10).collect();
    let odd = extract_if(&mut w, |x| x % 2 == 1);
    assert_eq!(vec![1, 3, 5, 7, 9], odd);
    assert_eq!(vec![0, 2, 4, 6, 8], w);
}

#[test]
fn revert_after_an_untouching_entry_restores_the_balance() {
    let acc = AccountId::new(UUID);
    let first = prepare_append(acc, None, &vec![entry(acc, "e", &[("f", 10)])], at(0)).expect("applied");
    let second = prepare_append(acc, Some(&first[0]), &vec![entry(acc, "g", &[("g", 5)])], at(1)).expect("applied");
    let plan = prepare_revert(acc, Some(&second[0]), &vec![id("e")], &first, &vec![id("r")], at(2)).expect("plan");
    assert_eq!(Some(0), balance(&plan.rows[0], "balance_f"));
    assert_eq!(Some(5), balance(&plan.rows[0], "balance_g"));
    assert_eq!(2, plan.rows[0].sequence);
}

#[test]
fn repeated_request_reverts_once() {
    let acc = AccountId::new(UUID);
    let rows = prepare_append(acc, None, &vec![entry(acc, "a", &[("amount", 4)])], at(0)).expect("applied");
    let plan = prepare_revert(acc, Some(&rows[0]), &vec![id("a"), id("a")], &rows, &vec![id("r1"), id("r2")], at(1)).expect("plan");
    assert_eq!(1, plan.rows.len());
    assert_eq!(1, plan.targets.len());
}

#[test]
fn reversed_range_within_a_day_is_empty() {
    let acc = AccountId::new(UUID);
    let scan = DateScan::new(acc, at(1_714_564_900), at(1_714_564_800), 10, Order::Desc, None);
    assert!(scan.done);
    assert!(scan.next_query().is_none());
}

#[test]
fn partition_keys_need_their_prefixes() {
    let acc = AccountId::new(UUID);
    assert_eq!(None, Pk::parse(&format!("ACCOUNT:{}", UUID_TEXT)));
    assert_eq!(None, Pk::parse(&format!("ACCOUNT_ID:{}|ENTRY:e1", UUID_TEXT)));
    assert!(Pk::parse(&Pk::Entry(acc, id("e1")).text()).is_some());
}

#[test]
fn rows_before_the_epoch_are_stored() {
    let acc = AccountId::new(UUID);
    let rows = prepare_append(acc, None, &vec![entry(acc, "old", &[("amount", 1)])], at(-31_536_000)).expect("applied");
    let row = stored_row(&rows[0], false).expect("row");
    assert_eq!(format!("{}|1969-01-01", UUID_TEXT), row.account_id_and_date);
    assert_eq!("1969-01-01T00:00:00.000000000Z|00000000000000000000", row.created_at);
}

#[test]
fn non_uuid_account_text_is_refused() {
    assert_eq!(None, Pk::parse("ACCOUNT_ID:xyz"));
    assert_eq!(None, Pk::parse("ACCOUNT_ID:xyz|ENTRY_ID:e1"));
}

#[test]
fn page_limits() {
    assert_eq!(None, aldeger::query::page_limit(0));
    assert_eq!(Some(1), aldeger::query::page_limit(1));
    assert_eq!(Some(100), aldeger::query::page_limit(100));
    assert_eq!(None, aldeger::query::page_limit(101));
}
