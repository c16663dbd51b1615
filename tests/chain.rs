use std::collections::BTreeMap;

use aldeger::append::prepare_append;
use aldeger::entity::{
    AccountId, Cursor, Entry, EntryId, EntryStatus, EntryToContinue, EntryWithBalance, EntryWithConditionals,
    LedgerFieldName, Timestamp,
};
use aldeger::keys::{Pk, Sk};
use aldeger::query::{chain_condition, chain_result, entry_chain_cursor, entry_cursor_query, SkCondition};
use aldeger::revert::prepare_revert;
use aldeger::store::{append_transaction, WriteItem};

const ACCOUNT: u128 = 0x1111_2222_3333_4444_5555_6666_7777_8888;

/// A table keyed by `(pk, sk)` that applies a transaction all or nothing.
#[derive(Default)]
struct Table {
    rows: BTreeMap<(String, String), EntryWithBalance>,
}

impl Table {
    fn commit(&mut self, writes: &[WriteItem]) -> Vec<bool> {
        let failed: Vec<bool> = writes
            .iter()
            .map(|w| match w {
                WriteItem::PutNew(r) => self.rows.contains_key(&(r.pk.clone(), r.sk.clone())),
                WriteItem::UpdateHead { row, old_balances, old_sequence } => match self.rows.get(&(row.pk.clone(), row.sk.clone())) {
                    Some(h) => h.ledger_balances != *old_balances || h.sequence != *old_sequence,
                    None => true,
                },
                WriteItem::Delete { .. } => false,
            })
            .collect();
        if failed.iter().any(|f| *f) {
            return failed;
        }
        for w in writes {
            match w {
                WriteItem::PutNew(r) => {
                    self.rows.insert((r.pk.clone(), r.sk.clone()), r.entry.clone());
                },
                WriteItem::UpdateHead { row, .. } => {
                    self.rows.insert((row.pk.clone(), row.sk.clone()), row.entry.clone());
                },
                WriteItem::Delete { pk, sk } => {
                    self.rows.remove(&(pk.clone(), sk.clone()));
                },
            }
        }
        failed
    }

    fn head(&self, acc: AccountId) -> Option<EntryWithBalance> {
        self.rows.get(&(Pk::Balance(acc).text(), Sk::CurrentEntry.text())).cloned()
    }

    fn append(&mut self, acc: AccountId, id: &str, amount: i128, t: i64) -> EntryWithBalance {
        let head = self.head(acc);
        let e = EntryWithConditionals::from_entry(Entry {
            account_id: acc,
            entry_id: EntryId::new(id.to_string()).expect("valid"),
            ledger_fields: vec![(LedgerFieldName::new("amount".to_string()).expect("valid"), amount)],
            additional_fields: "null".to_string(),
            status: EntryStatus::Applied,
        });
        let rows = prepare_append(acc, head.as_ref(), &vec![e], Timestamp { seconds: t, nanos: 0 }).expect("applied");
        let writes = append_transaction(head.as_ref(), &rows).expect("writes");
        assert!(self.commit(&writes).iter().all(|f| !*f), "append committed");
        rows[0].clone()
    }

    fn revert(&mut self, acc: AccountId, id: &str, fresh: &str, t: i64) -> EntryWithBalance {
        let head = self.head(acc);
        let live: Vec<EntryWithBalance> = self
            .rows
            .get(&(Pk::Entry(acc, EntryId::new(id.to_string()).expect("valid")).text(), Sk::CurrentEntry.text()))
            .cloned()
            .into_iter()
            .collect();
        let plan = prepare_revert(
            acc,
            head.as_ref(),
            &vec![EntryId::new(id.to_string()).expect("valid")],
            &live,
            &vec![EntryId::new(fresh.to_string()).expect("valid")],
            Timestamp { seconds: t, nanos: 0 },
        )
        .expect("plan");
        assert!(self.commit(&plan.writes).iter().all(|f| !*f), "revert committed");
        plan.rows[0].clone()
    }

    /// A reverse scan of an entry's partition under a sort-key predicate.
    fn chain(&self, acc: AccountId, id: &str, from: EntryToContinue, limit: u8) -> Vec<EntryWithBalance> {
        let pk = Pk::Entry(acc, EntryId::new(id.to_string()).expect("valid")).text();
        let condition = chain_condition(from);
        let mut hits: Vec<(&String, &EntryWithBalance)> = self
            .rows
            .iter()
            .filter(|((p, s), _)| {
                *p == pk
                    && match &condition {
                        SkCondition::BeginsWith(b) => s.starts_with(b.as_str()),
                        SkCondition::LessThan(b) => s < b,
                    }
            })
            .map(|((_, s), e)| (s, e))
            .collect();
        hits.sort_by(|a, b| b.0.cmp(a.0));
        hits.into_iter().take(limit as usize).map(|(_, e)| e.clone()).collect()
    }
}

#[test]
fn entry_chain_lists_live_then_history() {
    let acc = AccountId::new(ACCOUNT);
    let mut table = Table::default();
    let first = table.append(acc, "e1", 10, 100);
    let revert_1 = table.revert(acc, "e1", "r1", 101);
    let second = table.append(acc, "e1", 10, 102);
    let revert_2 = table.revert(acc, "e1", "r2", 103);
    let third = table.append(acc, "e1", 10, 104);
    assert_eq!(vec![0, 1, 2, 3, 4], vec![first.sequence, revert_1.sequence, second.sequence, revert_2.sequence, third.sequence]);
    let chain = table.chain(acc, "e1", EntryToContinue::Start, 10);
    assert_eq!(vec![4, 2, 0], chain.iter().map(|e| e.sequence).collect::<Vec<_>>());
    assert_eq!(
        vec![EntryStatus::Applied, EntryStatus::Reverted(3), EntryStatus::Reverted(1)],
        chain.iter().map(|e| e.status).collect::<Vec<_>>()
    );
    assert_eq!(Some(10), table.head(acc).and_then(|h| h.ledger_balances.first().map(|b| b.1)));
}

#[test]
fn entry_chain_pages_with_its_cursor() {
    let acc = AccountId::new(ACCOUNT);
    let mut table = Table::default();
    table.append(acc, "e1", 5, 100);
    table.revert(acc, "e1", "r1", 101);
    table.append(acc, "e1", 5, 102);
    table.revert(acc, "e1", "r2", 103);
    let id = EntryId::new("e1".to_string()).expect("valid");
    let first = chain_result(acc, EntryToContinue::Start, table.chain(acc, "e1", EntryToContinue::Start, 1)).expect("found");
    assert_eq!(vec![EntryStatus::Reverted(3)], first.iter().map(|e| e.status).collect::<Vec<_>>());
    let cursor = entry_chain_cursor(acc, &id, &first, 1).expect("a cursor");
    assert_eq!(
        Cursor::FromEntryQuery { account_id: acc, entry_id: id.clone(), entry_to_continue: EntryToContinue::Sequence(2) },
        cursor
    );
    let (a, e, from) = entry_cursor_query(cursor).expect("chain cursor");
    let second = table.chain(a, e.as_str(), from, 3);
    assert_eq!(vec![EntryStatus::Reverted(1)], second.iter().map(|e| e.status).collect::<Vec<_>>());
    assert_eq!(None, entry_chain_cursor(acc, &id, &second, 3));
    assert!(chain_result(acc, EntryToContinue::Start, table.chain(acc, "unknown", EntryToContinue::Start, 3)).is_err());
}

#[test]
fn appending_a_live_id_again_changes_nothing() {
    let acc = AccountId::new(ACCOUNT);
    let mut table = Table::default();
    let first = table.append(acc, "e1", 5, 100);
    let before = table.rows.len();
    let head = table.head(acc);
    let e = EntryWithConditionals::from_entry(Entry {
        account_id: acc,
        entry_id: EntryId::new("e1".to_string()).expect("valid"),
        ledger_fields: vec![(LedgerFieldName::new("amount".to_string()).expect("valid"), 5)],
        additional_fields: "null".to_string(),
        status: EntryStatus::Applied,
    });
    let rows = prepare_append(acc, head.as_ref(), &vec![e], Timestamp { seconds: 101, nanos: 0 }).expect("computed");
    let writes = append_transaction(head.as_ref(), &rows).expect("writes");
    let failed = table.commit(&writes);
    assert_eq!(vec![true, false], failed);
    assert_eq!(before, table.rows.len());
    assert_eq!(Some(first), table.head(acc));
    match aldeger::store::append_cancellation(acc, &rows, &failed) {
        aldeger::error::AppendEntriesError::EntriesAlreadyExists(a, ids) => {
            assert_eq!(acc, a);
            assert_eq!(vec!["e1"], ids.iter().map(|i| i.as_str()).collect::<Vec<_>>());
        },
        other => panic!("unexpected {:?}", other),
    }
}
