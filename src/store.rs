//! The rows and the transactional writes of the store adapter, and the
//! decoding of a cancelled transaction.
use vstd::prelude::*;

use crate::entity::{
    copy_balances, day_of, representable, same_row, AccountId, EntryId, EntryStatus, EntryWithBalance, LedgerBalanceName,
};
use crate::error::{AppendEntriesError, RevertEntriesError};
use crate::keys::{created_at_key, created_key, hyphenated, pk_text, sk_text, Pk, Sk};
use crate::outside::{utc_date_of, utc_date_text, uuid_text};
use crate::text::join;

verus! {

/// A row as it is written to the store.
#[derive(Debug)]
pub struct StoredRow {
    pub pk: String,
    pub sk: String,
    pub entry: EntryWithBalance,
    /// The partition key of the by-date index: `<uuid>|<yyyy-mm-dd>`, or
    /// `head` for a HEAD row, which the index then never lists.
    pub account_id_and_date: String,
    /// The sort key of the by-date index.
    pub created_at: String,
    /// A HEAD row carries its entry id as an attribute of its own.
    pub is_head: bool,
}

/// One item of a transactional write.
#[derive(Debug)]
pub enum WriteItem {
    /// Put the row, on condition that no row has its key yet.
    PutNew(StoredRow),
    /// Replace the HEAD with the row, on condition that the HEAD still holds
    /// exactly these balances and this sequence number.
    UpdateHead { row: StoredRow, old_balances: Vec<(LedgerBalanceName, i128)>, old_sequence: u64 },
    /// Delete the row with this key.
    Delete { pk: String, sk: String },
}

/// The partition of a row.
pub open spec fn row_pk(e: EntryWithBalance, is_head: bool) -> Pk {
    if is_head {
        Pk::Balance(e.account_id)
    } else {
        Pk::Entry(e.account_id, e.entry_id)
    }
}

/// The kind of a row: HEAD and live rows at `|~`, compensating rows at
/// `|REVERT`, historical rows under the sequence of the entry that reverted them.
pub open spec fn row_sk(e: EntryWithBalance, is_head: bool) -> Sk {
    if is_head {
        Sk::CurrentEntry
    } else {
        match e.status {
            EntryStatus::Applied => Sk::CurrentEntry,
            EntryStatus::Revert(_) => Sk::RevertEntry,
            EntryStatus::Reverted(s) => Sk::RevertedEntry(s),
        }
    }
}

/// `row` is the stored form of `e`.
pub open spec fn stores(row: StoredRow, e: EntryWithBalance, is_head: bool) -> bool {
    &&& row.pk@ == pk_text(row_pk(e, is_head))
    &&& row.sk@ == sk_text(row_sk(e, is_head))
    &&& same_row(row.entry, e)
    &&& row.created_at@ == created_key(e.created_at, e.sequence)
    &&& row.account_id_and_date@ == (if is_head {
        seq!['h', 'e', 'a', 'd']
    } else {
        hyphenated(e.account_id.0) + seq!['|'] + utc_date_of(day_of(e.created_at.seconds as int))
    })
    &&& row.is_head == is_head
}

/// The stored form of a committed entry; `None` where its instant has no
/// calendar form.
pub fn stored_row(e: &EntryWithBalance, is_head: bool) -> (r: Option<StoredRow>)
    ensures
        r matches Some(row) ==> stores(row, *e, is_head),
        representable(e.created_at) ==> r is Some,
{
    let pk = if is_head {
        Pk::Balance(e.account_id)
    } else {
        Pk::Entry(e.account_id, e.entry_id.copy())
    };
    let sk = if is_head {
        Sk::CurrentEntry
    } else {
        match e.status {
            EntryStatus::Applied => Sk::CurrentEntry,
            EntryStatus::Revert(_) => Sk::RevertEntry,
            EntryStatus::Reverted(s) => Sk::RevertedEntry(s),
        }
    };
    let created = match created_at_key(e.created_at, e.sequence) {
        Some(k) => k,
        None => {
            return None;
        },
    };
    let index_partition = if is_head {
        proof {
            reveal_strlit("head");
            assert("head"@ =~= seq!['h', 'e', 'a', 'd']);
        }
        String::from_str("head")
    } else {
        let date = match utc_date_text(e.created_at.seconds) {
            Some(d) => d,
            None => {
                return None;
            },
        };
        proof {
            reveal_strlit("|");
            assert("|"@ =~= seq!['|']);
        }
        let u = uuid_text(e.account_id.0);
        let p = join(u.as_str(), "|");
        join(p.as_str(), date.as_str())
    };
    Some(
        StoredRow {
            pk: pk.text(),
            sk: sk.text(),
            entry: e.copy(),
            account_id_and_date: index_partition,
            created_at: created,
            is_head,
        },
    )
}

/// The writes that commit `rows` over the HEAD they were computed from: a
/// conditional put of each row, then the HEAD: a conditional put for a fresh
/// account, else an update conditioned on the HEAD that was read.
pub open spec fn append_writes(head: Option<EntryWithBalance>, rows: Seq<EntryWithBalance>, w: Seq<WriteItem>) -> bool {
    &&& w.len() == rows.len() + 1
    &&& forall|i: int| 0 <= i < rows.len() ==> (#[trigger] w[i] matches WriteItem::PutNew(r) && stores(r, rows[i], false))
    &&& match head {
        None => (w[rows.len() as int] matches WriteItem::PutNew(r) && stores(r, rows.last(), true)),
        Some(h) => (w[rows.len() as int] matches WriteItem::UpdateHead { row, old_balances, old_sequence }
            && stores(row, rows.last(), true)
            && old_balances@ == h.ledger_balances@
            && old_sequence == h.sequence),
    }
}

/// Builds the transactional write of an append; `None` where an instant has
/// no calendar form.
pub fn append_transaction(head: Option<&EntryWithBalance>, rows: &Vec<EntryWithBalance>) -> (r: Option<Vec<WriteItem>>)
    requires
        rows@.len() > 0,
    ensures
        r matches Some(w) ==> append_writes(crate::balance::deref_head(head), rows@, w@),
        (forall|i: int| 0 <= i < rows@.len() ==> representable(#[trigger] rows@[i].created_at)) ==> r is Some,
{
    let mut w: Vec<WriteItem> = Vec::new();
    let mut i: usize = 0;
    while i < rows.len()
        invariant
            i <= rows@.len(),
            w@.len() == i,
            forall|k: int| 0 <= k < i ==> (#[trigger] w@[k] matches WriteItem::PutNew(r) && stores(r, rows@[k], false)),
        decreases rows@.len() - i,
    {
        match stored_row(&rows[i], false) {
            Some(row) => w.push(WriteItem::PutNew(row)),
            None => {
                return None;
            },
        }
        i = i + 1;
    }
    let last = &rows[rows.len() - 1];
    let head_row = match stored_row(last, true) {
        Some(row) => row,
        None => {
            return None;
        },
    };
    match head {
        None => w.push(WriteItem::PutNew(head_row)),
        Some(h) => w.push(
            WriteItem::UpdateHead {
                row: head_row,
                old_balances: copy_balances(&h.ledger_balances),
                old_sequence: h.sequence,
            },
        ),
    }
    Some(w)
}

/// The ids of the rows whose put failed, in order.
pub open spec fn failed_ids(rows: Seq<EntryWithBalance>, failed: Seq<bool>, n: int) -> Seq<Seq<char>>
    decreases n,
{
    if n <= 0 {
        seq![]
    } else if failed[n - 1] {
        failed_ids(rows, failed, n - 1).push(rows[n - 1].entry_id@)
    } else {
        failed_ids(rows, failed, n - 1)
    }
}

/// Decodes a cancelled append from the condition failures of its items, one
/// flag per item of `append_transaction`, in order: the HEAD's condition
/// failing means the HEAD moved; else the rows whose put failed already exist.
pub fn append_cancellation(account_id: AccountId, rows: &Vec<EntryWithBalance>, failed: &Vec<bool>) -> (r: AppendEntriesError)
    requires
        failed@.len() == rows@.len() + 1,
    ensures
        failed@[rows@.len() as int] ==> r == AppendEntriesError::OptimisticLockError(account_id),
        !failed@[rows@.len() as int] && failed_ids(rows@, failed@, rows@.len() as int).len() > 0 ==>
            (r matches AppendEntriesError::EntriesAlreadyExists(a, ids) && a == account_id
            && ids@.map_values(|e: EntryId| e@) == failed_ids(rows@, failed@, rows@.len() as int)),
        !failed@[rows@.len() as int] && failed_ids(rows@, failed@, rows@.len() as int).len() == 0 ==> r is Other,
{
    if failed[rows.len()] {
        return AppendEntriesError::OptimisticLockError(account_id);
    }
    let mut ids: Vec<EntryId> = Vec::new();
    let mut i: usize = 0;
    while i < rows.len()
        invariant
            failed@.len() == rows@.len() + 1,
            i <= rows@.len(),
            ids@.map_values(|e: EntryId| e@) == failed_ids(rows@, failed@, i as int),
        decreases rows@.len() - i,
    {
        if failed[i] {
            ids.push(rows[i].entry_id.copy());
        }
        i = i + 1;
        assert(ids@.map_values(|e: EntryId| e@) =~= failed_ids(rows@, failed@, i as int));
    }
    if ids.len() == 0 {
        return AppendEntriesError::Other(String::from_str("transaction cancelled without a failed condition"));
    }
    AppendEntriesError::EntriesAlreadyExists(account_id, ids)
}

/// Decodes a cancelled revert: any failed condition, on the HEAD or on a row
/// of an entry id, means another writer got there first.
pub fn revert_cancellation(account_id: AccountId, failed: &Vec<bool>) -> (r: RevertEntriesError)
    ensures
        (exists|k: int| 0 <= k < failed@.len() && failed@[k]) ==> r == RevertEntriesError::OptimisticLockError(account_id),
        !(exists|k: int| 0 <= k < failed@.len() && failed@[k]) ==> r is Other,
{
    let mut i: usize = 0;
    while i < failed.len()
        invariant
            i <= failed@.len(),
            forall|k: int| 0 <= k < i ==> !failed@[k],
        decreases failed@.len() - i,
    {
        if failed[i] {
            return RevertEntriesError::OptimisticLockError(account_id);
        }
        i = i + 1;
    }
    RevertEntriesError::Other(String::from_str("transaction cancelled without a failed condition"))
}

/// The rows of the store, by `(pk, sk)`.
pub type StoreRows = Map<(Seq<char>, Seq<char>), EntryWithBalance>;

/// The key an item writes.
pub open spec fn item_key(w: WriteItem) -> (Seq<char>, Seq<char>) {
    match w {
        WriteItem::PutNew(r) => (r.pk@, r.sk@),
        WriteItem::UpdateHead { row, .. } => (row.pk@, row.sk@),
        WriteItem::Delete { pk, sk } => (pk@, sk@),
    }
}

/// The condition of an item, on the rows before the transaction.
pub open spec fn condition_holds(rows: StoreRows, w: WriteItem) -> bool {
    match w {
        WriteItem::PutNew(r) => !rows.contains_key((r.pk@, r.sk@)),
        WriteItem::UpdateHead { row, old_balances, old_sequence } => {
            &&& rows.contains_key((row.pk@, row.sk@))
            &&& rows[(row.pk@, row.sk@)].ledger_balances@ == old_balances@
            &&& rows[(row.pk@, row.sk@)].sequence == old_sequence
        },
        WriteItem::Delete { .. } => true,
    }
}

/// The effect of one item.
pub open spec fn apply_item(rows: StoreRows, w: WriteItem) -> StoreRows {
    match w {
        WriteItem::PutNew(r) => rows.insert((r.pk@, r.sk@), r.entry),
        WriteItem::UpdateHead { row, .. } => rows.insert((row.pk@, row.sk@), row.entry),
        WriteItem::Delete { pk, sk } => rows.remove((pk@, sk@)),
    }
}

/// The effect of the items, in order.
pub open spec fn apply_all(rows: StoreRows, ws: Seq<WriteItem>) -> StoreRows
    decreases ws.len(),
{
    if ws.len() == 0 {
        rows
    } else {
        apply_item(apply_all(rows, ws.drop_last()), ws.last())
    }
}

/// An all-or-nothing transaction: every condition holds on the rows before
/// it and all items apply, or it is cancelled and nothing changes.
pub open spec fn commit(rows: StoreRows, ws: Seq<WriteItem>) -> Option<StoreRows> {
    if forall|k: int| 0 <= k < ws.len() ==> condition_holds(rows, #[trigger] ws[k]) {
        Some(apply_all(rows, ws))
    } else {
        None
    }
}

/// The flags a cancelled transaction reports: one per item, set where its
/// condition failed.
pub open spec fn failed_flags(rows: StoreRows, ws: Seq<WriteItem>) -> Seq<bool> {
    ws.map_values(|w: WriteItem| !condition_holds(rows, w))
}

} // verus!
