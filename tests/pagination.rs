use aldeger::append::prepare_append;
use aldeger::entity::{
    AccountId, Cursor, Entry, EntryId, EntryStatus, EntryWithBalance, EntryWithConditionals, LedgerFieldName,
    Order, Timestamp,
};
use aldeger::query::{entries_cursor_query, DateScan, IndexQuery};
use aldeger::store::{stored_row, StoredRow};

const ACCOUNT: u128 = 0x0192_3f4e_5a6b_7c8d_9e0f_1a2b_3c4d_5e6f;
// 2024-05-01 12:00:00 UTC
const MAY_FIRST_NOON: i64 = 1_714_564_800;
const DAY: i64 = 86_400;

fn at(seconds: i64) -> Timestamp {
    Timestamp { seconds, nanos: 0 }
}

/// Appends one entry per instant, each over the previous HEAD, and returns
/// the rows as the by-date index holds them.
fn ledger(acc: AccountId, instants: &[i64]) -> Vec<StoredRow> {
    let mut head: Option<EntryWithBalance> = None;
    let mut rows = Vec::new();
    for (k, t) in instants.iter().enumerate() {
        let e = EntryWithConditionals::from_entry(Entry {
            account_id: acc,
            entry_id: EntryId::new(format!("e{}", k)).expect("valid"),
            ledger_fields: vec![(LedgerFieldName::new("amount".to_string()).expect("valid"), 1)],
            additional_fields: "null".to_string(),
            status: EntryStatus::Applied,
        });
        let row = prepare_append(acc, head.as_ref(), &vec![e], at(*t)).expect("applied").remove(0);
        rows.push(stored_row(&row, false).expect("row"));
        head = Some(row);
    }
    rows
}

/// The by-date index: one day's partition, a key range, an order, a limit.
fn index(rows: &[StoredRow], q: &IndexQuery) -> Vec<EntryWithBalance> {
    let mut hits: Vec<&StoredRow> = rows
        .iter()
        .filter(|r| r.account_id_and_date == q.partition && q.low <= r.created_at && r.created_at <= q.high)
        .collect();
    hits.sort_by(|a, b| a.created_at.cmp(&b.created_at));
    if !q.forward {
        hits.reverse();
    }
    hits.into_iter().take(q.limit as usize).map(|r| r.entry.clone()).collect()
}

fn scan(rows: &[StoredRow], acc: AccountId, start: Timestamp, end: Timestamp, limit: u8, order: Order, after: Option<u64>) -> (Vec<EntryWithBalance>, Option<Cursor>) {
    let mut s = DateScan::new(acc, start, end, limit, order, after);
    while !s.done {
        let q = s.next_query().expect("query");
        let page = index(rows, &q);
        s.on_page(page);
    }
    s.finish()
}

fn sequences(v: &[EntryWithBalance]) -> Vec<u64> {
    v.iter().map(|r| r.sequence).collect()
}

#[test]
fn get_entries_multiple_days() {
    let acc = AccountId::new(ACCOUNT);
    let rows = ledger(
        acc,
        &[MAY_FIRST_NOON, MAY_FIRST_NOON + DAY, MAY_FIRST_NOON + DAY + 1, MAY_FIRST_NOON + 2 * DAY + 2, MAY_FIRST_NOON + 2 * DAY + 3],
    );
    let start = at(MAY_FIRST_NOON + DAY + 1);
    let end = at(MAY_FIRST_NOON + 2 * DAY + 2);
    let (asc, cursor) = scan(&rows, acc, start, end, 10, Order::Asc, None);
    assert_eq!(vec![2, 3], sequences(&asc));
    assert_eq!(None, cursor);
    let (desc, _) = scan(&rows, acc, start, end, 10, Order::Desc, None);
    assert_eq!(vec![3, 2], sequences(&desc));
}

#[test]
fn get_entries_from_nonexistent_account() {
    let rows = ledger(AccountId::new(ACCOUNT), &[MAY_FIRST_NOON]);
    let (page, cursor) = scan(&rows, AccountId::new(ACCOUNT + 1), at(MAY_FIRST_NOON), at(MAY_FIRST_NOON + 10), 10, Order::Asc, None);
    assert!(page.is_empty());
    assert_eq!(None, cursor);
}

#[test]
fn asc_cursor() {
    let acc = AccountId::new(ACCOUNT);
    let instants: Vec<i64> = (0..5).map(|k| MAY_FIRST_NOON + 35 * k).collect();
    let rows = ledger(acc, &instants);
    let start = at(MAY_FIRST_NOON);
    let end = at(MAY_FIRST_NOON + 3600);
    let (first, cursor) = scan(&rows, acc, start, end, 3, Order::Asc, None);
    assert_eq!(vec![0, 1, 2], sequences(&first));
    let cursor = cursor.expect("a cursor");
    assert_eq!(
        Cursor::FromEntriesQuery { account_id: acc, start_date: first[2].created_at, end_date: end, sequence: 2, order: Order::Asc },
        cursor
    );
    let (a, s, e, o, seq) = entries_cursor_query(cursor).expect("date cursor");
    let (second, cursor) = scan(&rows, a, s, e, 5, o, Some(seq));
    assert_eq!(vec![3, 4], sequences(&second));
    assert_eq!(None, cursor);
}

#[test]
fn desc_cursor() {
    let acc = AccountId::new(ACCOUNT);
    let instants: Vec<i64> = (0..5).map(|k| MAY_FIRST_NOON + 35 * k).collect();
    let rows = ledger(acc, &instants);
    let start = at(MAY_FIRST_NOON);
    let end = at(MAY_FIRST_NOON + 3600);
    let (first, cursor) = scan(&rows, acc, start, end, 3, Order::Desc, None);
    assert_eq!(vec![4, 3, 2], sequences(&first));
    let cursor = cursor.expect("a cursor");
    assert_eq!(
        Cursor::FromEntriesQuery { account_id: acc, start_date: start, end_date: first[2].created_at, sequence: 2, order: Order::Desc },
        cursor
    );
    let (a, s, e, o, seq) = entries_cursor_query(cursor).expect("date cursor");
    let (second, cursor) = scan(&rows, a, s, e, 5, o, Some(seq));
    assert_eq!(vec![1, 0], sequences(&second));
    assert_eq!(None, cursor);
}

#[test]
fn same_second_entries_page_by_sequence() {
    let acc = AccountId::new(ACCOUNT);
    let rows = ledger(acc, &[MAY_FIRST_NOON; 4]);
    let start = at(MAY_FIRST_NOON);
    let mut seen = Vec::new();
    let mut next: Option<u64> = None;
    let mut from = start;
    loop {
        let (page, cursor) = scan(&rows, acc, from, start, 1, Order::Asc, next);
        seen.extend(sequences(&page));
        match cursor {
            Some(c) => {
                let (_, s, _, _, seq) = entries_cursor_query(c).expect("date cursor");
                from = s;
                next = Some(seq);
            },
            None => break,
        }
    }
    assert_eq!(vec![0, 1, 2, 3], seen);
}
