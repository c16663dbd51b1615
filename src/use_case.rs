//! The decisions of the use cases: how each outcome of a repository call
//! routes entries into applied and non-applied, when to retry, and how
//! requests are grouped and chunked.
use vstd::prelude::*;

use crate::entity::{
    AccountId, DeleteEntryRequest, Entry, EntryId, EntryWithBalance,
    EntryWithConditionals,
};
use crate::entity::{named_view, LedgerFieldName};
use crate::error::{AppendEntriesError, RevertEntriesError};
use crate::select::{extract_if, lemma_select_none, select};
use itertools::Itertools;

verus! {

/// Attempts of one chunk before a moving HEAD is given up on.
pub const MAX_TRIES: u32 = 5;

/// Entries per append transaction.
pub const PUSH_CHUNK_SIZE: usize = 99;

/// Entries per revert transaction, which writes three rows per entry.
pub const DELETE_CHUNK_SIZE: usize = 33;

/// Why an input was not applied.
#[derive(Debug, Clone, PartialEq, Eq)]
pub enum NonAppliedReason {
    OptimisticLockFailed,
    EntriesAlreadyExists,
    EntriesDoesNotExists,
    ConditionFailed,
    Other(String),
}

impl NonAppliedReason {
    pub fn from_append_entries_error(error: &AppendEntriesError) -> (r: NonAppliedReason)
        ensures
            error is OptimisticLockError ==> r is OptimisticLockFailed,
            error is EntriesAlreadyExists ==> r is EntriesAlreadyExists,
            error is ConditionFailed ==> r is ConditionFailed,
            error matches AppendEntriesError::Other(m) ==> r == NonAppliedReason::Other(*m),
    {
        match error {
            AppendEntriesError::OptimisticLockError(_) => NonAppliedReason::OptimisticLockFailed,
            AppendEntriesError::EntriesAlreadyExists(_, _) => NonAppliedReason::EntriesAlreadyExists,
            AppendEntriesError::ConditionFailed(_, _) => NonAppliedReason::ConditionFailed,
            AppendEntriesError::Other(m) => NonAppliedReason::Other(m.clone()),
        }
    }

    pub fn from_revert_entries_error(error: &RevertEntriesError) -> (r: NonAppliedReason)
        ensures
            error is OptimisticLockError ==> r is OptimisticLockFailed,
            error is EntriesDoesNotExists ==> r is EntriesDoesNotExists,
            error matches RevertEntriesError::Other(m) ==> r == NonAppliedReason::Other(*m),
    {
        match error {
            RevertEntriesError::OptimisticLockError(_) => NonAppliedReason::OptimisticLockFailed,
            RevertEntriesError::EntriesDoesNotExists(_, _) => NonAppliedReason::EntriesDoesNotExists,
            RevertEntriesError::Other(m) => NonAppliedReason::Other(m.clone()),
        }
    }

    /// The message shown to clients.
    pub fn message(&self) -> (r: String)
        ensures
            self is OptimisticLockFailed ==> r@ == "Optimistic lock failed. Try again later"@,
            self is EntriesAlreadyExists ==> r@ == "Entry already exists for this account"@,
            self is EntriesDoesNotExists ==> r@ == "Entry does not exists or reverted for this account"@,
            self is ConditionFailed ==> r@ == "Conditional check failed for this entry"@,
            self matches NonAppliedReason::Other(m) ==> r@ == "Other unexpected error: "@ + m@,
    {
        match self {
            NonAppliedReason::OptimisticLockFailed => String::from_str("Optimistic lock failed. Try again later"),
            NonAppliedReason::EntriesAlreadyExists => String::from_str("Entry already exists for this account"),
            NonAppliedReason::EntriesDoesNotExists => String::from_str("Entry does not exists or reverted for this account"),
            NonAppliedReason::ConditionFailed => String::from_str("Conditional check failed for this entry"),
            NonAppliedReason::Other(m) => crate::text::join("Other unexpected error: ", m.as_str()),
        }
    }

    /// The error code of the envelope: 100, 200, 300, 400 or 900.
    pub fn reason_code(&self) -> (r: u16)
        ensures
            r == reason_code_of(*self),
    {
        match self {
            NonAppliedReason::OptimisticLockFailed => 100,
            NonAppliedReason::EntriesAlreadyExists => 200,
            NonAppliedReason::EntriesDoesNotExists => 300,
            NonAppliedReason::ConditionFailed => 400,
            NonAppliedReason::Other(_) => 900,
        }
    }

    pub fn copy(&self) -> (r: NonAppliedReason)
        ensures
            r == *self,
    {
        match self {
            NonAppliedReason::OptimisticLockFailed => NonAppliedReason::OptimisticLockFailed,
            NonAppliedReason::EntriesAlreadyExists => NonAppliedReason::EntriesAlreadyExists,
            NonAppliedReason::EntriesDoesNotExists => NonAppliedReason::EntriesDoesNotExists,
            NonAppliedReason::ConditionFailed => NonAppliedReason::ConditionFailed,
            NonAppliedReason::Other(m) => NonAppliedReason::Other(m.clone()),
        }
    }
}

/// The error code of a reason.
pub open spec fn reason_code_of(r: NonAppliedReason) -> u16 {
    match r {
        NonAppliedReason::OptimisticLockFailed => 100,
        NonAppliedReason::EntriesAlreadyExists => 200,
        NonAppliedReason::EntriesDoesNotExists => 300,
        NonAppliedReason::ConditionFailed => 400,
        NonAppliedReason::Other(_) => 900,
    }
}

/// What the caller does next with a chunk.
#[derive(Debug, Clone, Copy, PartialEq, Eq, Structural)]
pub enum RetryAction {
    /// Call the repository again at once.
    CallAgain,
    /// Sleep a random 10 to 99 milliseconds, then call again.
    BackoffThenCall,
    /// The chunk is settled.
    Done,
}

/// Each pending entry reported with `reason`.
pub open spec fn tagged(s: Seq<EntryWithConditionals>, reason: NonAppliedReason) -> Seq<(NonAppliedReason, Entry)> {
    s.map_values(|e: EntryWithConditionals| (reason, e.entry))
}

/// The id is in the list.
pub open spec fn listed(ids: Seq<EntryId>, id: Seq<char>) -> bool {
    exists|k: int| 0 <= k < ids.len() && ids[k]@ == id
}

/// Whether `id` is in `ids`.
pub fn is_listed(ids: &Vec<EntryId>, id: &EntryId) -> (r: bool)
    ensures
        r == listed(ids@, id@),
{
    let mut k: usize = 0;
    while k < ids.len()
        invariant
            k <= ids@.len(),
            forall|m: int| 0 <= m < k ==> ids@[m]@ != id@,
        decreases ids@.len() - k,
    {
        if ids[k].same(id) {
            return true;
        }
        k = k + 1;
    }
    false
}

/// Appends each item of `items`, with `reason`, to `out`.
fn report_all(out: &mut Vec<(NonAppliedReason, Entry)>, items: Vec<EntryWithConditionals>, reason: &NonAppliedReason)
    ensures
        final(out)@ == old(out)@ + tagged(items@, *reason),
{
    let mut items = items;
    let ghost initial = items@;
    let ghost start = out@;
    let ghost mut i: int = 0;
    while items.len() > 0
        invariant
            0 <= i <= initial.len(),
            i + items@.len() == initial.len(),
            items@ == initial.subrange(i, initial.len() as int),
            out@ == start + tagged(initial.subrange(0, i), *reason),
        decreases items@.len(),
    {
        let ghost k = i;
        let ghost before = items@;
        let e = items.remove(0);
        assert(e == initial[k]);
        out.push((reason.copy(), e.entry));
        proof {
            i = i + 1;
            assert(initial.subrange(0, i) =~= initial.subrange(0, k).push(initial[k]));
            assert(tagged(initial.subrange(0, i), *reason) =~= tagged(initial.subrange(0, k), *reason).push((*reason, initial[k].entry)));
            assert(items@ =~= before.remove(0));
            assert(items@ =~= initial.subrange(i, initial.len() as int));
        }
    }
    assert(initial.subrange(0, i) =~= initial);
}

/// The retry state of one chunk of an append request.
#[derive(Debug)]
pub struct PushChunk {
    pub account_id: AccountId,
    /// The entries still to append, in request order.
    pub pending: Vec<EntryWithConditionals>,
    /// Calls so far that found the HEAD moved.
    pub tries: u32,
    pub applied: Vec<EntryWithBalance>,
    pub non_applied: Vec<(NonAppliedReason, Entry)>,
}

impl PushChunk {
    pub fn new(account_id: AccountId, entries: Vec<EntryWithConditionals>) -> (r: PushChunk)
        ensures
            r.account_id == account_id,
            r.pending@ == entries@,
            r.tries == 0,
            r.applied@.len() == 0,
            r.non_applied@.len() == 0,
    {
        PushChunk { account_id, pending: entries, tries: 0, applied: Vec::new(), non_applied: Vec::new() }
    }

    /// Settles the outcome of one call of the repository with the pending
    /// entries. Committed rows go to `applied`. A moving HEAD is retried, at
    /// once after the first call, after a backoff later, and after the fifth
    /// call every pending entry is reported `OptimisticLockFailed`. Entries
    /// whose id already exists are reported `EntriesAlreadyExists`, the entry
    /// whose precondition failed `ConditionFailed`, and the rest is retried.
    /// Any other failure reports every pending entry with it.
    pub fn on_append_result(&mut self, result: Result<Vec<EntryWithBalance>, AppendEntriesError>) -> (action: RetryAction)
        requires
            old(self).tries < MAX_TRIES,
            old(self).pending@.len() > 0,
        ensures
            final(self).account_id == old(self).account_id,
            final(self).tries == old(self).tries + (if result matches Err(AppendEntriesError::OptimisticLockError(_)) { 1int } else { 0 }),
            action != RetryAction::Done ==> final(self).tries < MAX_TRIES && final(self).pending@.len() > 0,
            action == RetryAction::Done ==> final(self).pending@.len() == 0,
            result matches Ok(rows) ==> action == RetryAction::Done
                && final(self).applied@ == old(self).applied@ + rows@
                && final(self).non_applied@ == old(self).non_applied@,
            result is Err ==> final(self).applied@ == old(self).applied@,
            (result is Err && result->Err_0 is OptimisticLockError && final(self).tries < MAX_TRIES) ==>
                final(self).pending@ == old(self).pending@
                && final(self).non_applied@ == old(self).non_applied@
                && action == (if final(self).tries == 1 { RetryAction::CallAgain } else { RetryAction::BackoffThenCall }),
            (result is Err && result->Err_0 is OptimisticLockError && final(self).tries == MAX_TRIES) ==>
                final(self).non_applied@ == old(self).non_applied@ + tagged(old(self).pending@, NonAppliedReason::OptimisticLockFailed),
            result matches Err(AppendEntriesError::EntriesAlreadyExists(_, ids)) ==> exists|sel: Seq<bool>|
                sel.len() == old(self).pending@.len()
                && (forall|i: int| 0 <= i < sel.len() ==> #[trigger] sel[i] == listed(ids@, old(self).pending@[i].entry.entry_id@))
                && (select(old(self).pending@, sel, true).len() > 0 ==>
                    final(self).pending@ == select(old(self).pending@, sel, false)
                    && final(self).non_applied@ == old(self).non_applied@ + tagged(select(old(self).pending@, sel, true), NonAppliedReason::EntriesAlreadyExists)
                    && (final(self).pending@.len() > 0 ==> action == RetryAction::CallAgain))
                && (select(old(self).pending@, sel, true).len() == 0 ==> final(self).pending@.len() == 0
                    && exists|m: String| final(self).non_applied@ == old(self).non_applied@ + tagged(old(self).pending@, NonAppliedReason::Other(m))),
            result matches Err(AppendEntriesError::ConditionFailed(id, _)) ==> exists|sel: Seq<bool>|
                sel.len() == old(self).pending@.len()
                && (forall|i: int| 0 <= i < sel.len() ==> #[trigger] sel[i] == (old(self).pending@[i].entry.entry_id@ == id@))
                && (select(old(self).pending@, sel, true).len() > 0 ==>
                    final(self).pending@ == select(old(self).pending@, sel, false)
                    && final(self).non_applied@ == old(self).non_applied@ + tagged(select(old(self).pending@, sel, true), NonAppliedReason::ConditionFailed)
                    && (final(self).pending@.len() > 0 ==> action == RetryAction::CallAgain))
                && (select(old(self).pending@, sel, true).len() == 0 ==> final(self).pending@.len() == 0
                    && exists|m: String| final(self).non_applied@ == old(self).non_applied@ + tagged(old(self).pending@, NonAppliedReason::Other(m))),
            result matches Err(AppendEntriesError::Other(m)) ==>
                final(self).non_applied@ == old(self).non_applied@ + tagged(old(self).pending@, NonAppliedReason::Other(m)),
    {
        match result {
            Ok(rows) => {
                let mut rows = rows;
                self.applied.append(&mut rows);
                self.pending = Vec::new();
                RetryAction::Done
            },
            Err(AppendEntriesError::OptimisticLockError(_)) => {
                self.tries = self.tries + 1;
                if self.tries < MAX_TRIES {
                    if self.tries == 1 {
                        RetryAction::CallAgain
                    } else {
                        RetryAction::BackoffThenCall
                    }
                } else {
                    let mut items: Vec<EntryWithConditionals> = Vec::new();
                std::mem::swap(&mut items, &mut self.pending);
                    report_all(&mut self.non_applied, items, &NonAppliedReason::OptimisticLockFailed);
                    RetryAction::Done
                }
            },
            Err(AppendEntriesError::EntriesAlreadyExists(_, ids)) => {
                let pick = |e: &EntryWithConditionals| -> (b: bool)
                    ensures
                        b == listed(ids@, e.entry.entry_id@),
                    { is_listed(&ids, &e.entry.entry_id) };
                let ghost before = self.pending@;
                let out = extract_if(&mut self.pending, pick);
                proof {
                    let sel = choose|sel: Seq<bool>|
                        sel.len() == before.len()
                        && (forall|i: int| 0 <= i < sel.len() ==> pick.ensures((&before[i],), #[trigger] sel[i]))
                        && out@ == select(before, sel, true)
                        && self.pending@ == select(before, sel, false);
                    if out@.len() == 0 {
                        lemma_select_none(before, sel);
                    }
                }
                self.settle(out, NonAppliedReason::EntriesAlreadyExists)
            },
            Err(AppendEntriesError::ConditionFailed(id, _)) => {
                let pick = |e: &EntryWithConditionals| -> (b: bool)
                    ensures
                        b == (e.entry.entry_id@ == id@),
                    { e.entry.entry_id.same(&id) };
                let ghost before = self.pending@;
                let out = extract_if(&mut self.pending, pick);
                proof {
                    let sel = choose|sel: Seq<bool>|
                        sel.len() == before.len()
                        && (forall|i: int| 0 <= i < sel.len() ==> pick.ensures((&before[i],), #[trigger] sel[i]))
                        && out@ == select(before, sel, true)
                        && self.pending@ == select(before, sel, false);
                    if out@.len() == 0 {
                        lemma_select_none(before, sel);
                    }
                }
                self.settle(out, NonAppliedReason::ConditionFailed)
            },
            Err(AppendEntriesError::Other(m)) => {
                let mut items: Vec<EntryWithConditionals> = Vec::new();
                std::mem::swap(&mut items, &mut self.pending);
                report_all(&mut self.non_applied, items, &NonAppliedReason::Other(m));
                RetryAction::Done
            },
        }
    }

    /// Reports the entries split out of the chunk; where none was, the
    /// failure does not name a pending entry, and the whole chunk is reported.
    fn settle(&mut self, out: Vec<EntryWithConditionals>, reason: NonAppliedReason) -> (action: RetryAction)
        requires
            old(self).tries < MAX_TRIES,
        ensures
            final(self).account_id == old(self).account_id,
            final(self).tries == old(self).tries,
            final(self).applied@ == old(self).applied@,
            out@.len() > 0 ==> final(self).pending@ == old(self).pending@
                && final(self).non_applied@ == old(self).non_applied@ + tagged(out@, reason),
            out@.len() == 0 ==> final(self).pending@.len() == 0
                && exists|m: String| final(self).non_applied@ == old(self).non_applied@ + tagged(old(self).pending@, NonAppliedReason::Other(m)),
            action != RetryAction::Done ==> final(self).pending@.len() > 0 && action == RetryAction::CallAgain,
            action == RetryAction::Done ==> final(self).pending@.len() == 0,
            action != RetryAction::Done ==> final(self).tries < MAX_TRIES,
    {
        if out.len() == 0 {
            let mut items: Vec<EntryWithConditionals> = Vec::new();
            std::mem::swap(&mut items, &mut self.pending);
            let m = String::from_str("the failure names no pending entry");
            let ghost gm = m;
            report_all(&mut self.non_applied, items, &NonAppliedReason::Other(m));
            assert(self.non_applied@ == old(self).non_applied@ + tagged(old(self).pending@, NonAppliedReason::Other(gm)));
            return RetryAction::Done;
        }
        report_all(&mut self.non_applied, out, &reason);
        if self.pending.len() == 0 {
            RetryAction::Done
        } else {
            RetryAction::CallAgain
        }
    }
}


/// Each request reported with `reason`.
pub open spec fn tagged_requests(s: Seq<DeleteEntryRequest>, reason: NonAppliedReason) -> Seq<(NonAppliedReason, DeleteEntryRequest)> {
    s.map_values(|e: DeleteEntryRequest| (reason, e))
}

/// Appends each request of `items`, with `reason`, to `out`.
fn report_requests(out: &mut Vec<(NonAppliedReason, DeleteEntryRequest)>, items: Vec<DeleteEntryRequest>, reason: &NonAppliedReason)
    ensures
        final(out)@ == old(out)@ + tagged_requests(items@, *reason),
{
    let mut items = items;
    let ghost initial = items@;
    let ghost start = out@;
    let ghost mut i: int = 0;
    while items.len() > 0
        invariant
            0 <= i <= initial.len(),
            i + items@.len() == initial.len(),
            items@ == initial.subrange(i, initial.len() as int),
            out@ == start + tagged_requests(initial.subrange(0, i), *reason),
        decreases items@.len(),
    {
        let ghost k = i;
        let ghost before = items@;
        let e = items.remove(0);
        assert(e == initial[k]);
        out.push((reason.copy(), e));
        proof {
            i = i + 1;
            assert(initial.subrange(0, i) =~= initial.subrange(0, k).push(initial[k]));
            assert(tagged_requests(initial.subrange(0, i), *reason) =~= tagged_requests(initial.subrange(0, k), *reason).push((*reason, initial[k])));
            assert(items@ =~= before.remove(0));
            assert(items@ =~= initial.subrange(i, initial.len() as int));
        }
    }
    assert(initial.subrange(0, i) =~= initial);
}

/// The ids of a list of revert requests.
pub fn request_ids(requests: &Vec<DeleteEntryRequest>) -> (r: Vec<EntryId>)
    ensures
        r@.len() == requests@.len(),
        forall|i: int| 0 <= i < r@.len() ==> #[trigger] r@[i] == requests@[i].entry_id,
{
    let mut r: Vec<EntryId> = Vec::new();
    let mut i: usize = 0;
    while i < requests.len()
        invariant
            i <= requests@.len(),
            r@.len() == i,
            forall|k: int| 0 <= k < i ==> #[trigger] r@[k] == requests@[k].entry_id,
        decreases requests@.len() - i,
    {
        r.push(requests[i].entry_id.copy());
        i = i + 1;
    }
    r
}

/// The retry state of one chunk of a revert request.
#[derive(Debug)]
pub struct DeleteChunk {
    pub account_id: AccountId,
    /// The requests still to revert, in request order.
    pub pending: Vec<DeleteEntryRequest>,
    /// Calls so far that found the HEAD moved.
    pub tries: u32,
    pub applied: Vec<EntryWithBalance>,
    pub non_applied: Vec<(NonAppliedReason, DeleteEntryRequest)>,
}

impl DeleteChunk {
    pub fn new(account_id: AccountId, requests: Vec<DeleteEntryRequest>) -> (r: DeleteChunk)
        ensures
            r.account_id == account_id,
            r.pending@ == requests@,
            r.tries == 0,
            r.applied@.len() == 0,
            r.non_applied@.len() == 0,
    {
        DeleteChunk { account_id, pending: requests, tries: 0, applied: Vec::new(), non_applied: Vec::new() }
    }

    /// The ids to hand to the repository.
    pub fn pending_ids(&self) -> (r: Vec<EntryId>)
        ensures
            r@.len() == self.pending@.len(),
            forall|i: int| 0 <= i < r@.len() ==> #[trigger] r@[i] == self.pending@[i].entry_id,
    {
        request_ids(&self.pending)
    }

    /// Settles the outcome of one call of the repository with the pending
    /// ids, as an append chunk does; ids without a live entry are reported
    /// `EntriesDoesNotExists` and the rest is retried.
    pub fn on_revert_result(&mut self, result: Result<Vec<EntryWithBalance>, RevertEntriesError>) -> (action: RetryAction)
        requires
            old(self).tries < MAX_TRIES,
            old(self).pending@.len() > 0,
        ensures
            final(self).account_id == old(self).account_id,
            final(self).tries == old(self).tries + (if result matches Err(RevertEntriesError::OptimisticLockError(_)) { 1int } else { 0 }),
            action != RetryAction::Done ==> final(self).tries < MAX_TRIES && final(self).pending@.len() > 0,
            action == RetryAction::Done ==> final(self).pending@.len() == 0,
            result matches Ok(rows) ==> action == RetryAction::Done
                && final(self).applied@ == old(self).applied@ + rows@
                && final(self).non_applied@ == old(self).non_applied@,
            result is Err ==> final(self).applied@ == old(self).applied@,
            (result is Err && result->Err_0 is OptimisticLockError && final(self).tries < MAX_TRIES) ==>
                final(self).pending@ == old(self).pending@
                && final(self).non_applied@ == old(self).non_applied@
                && action == (if final(self).tries == 1 { RetryAction::CallAgain } else { RetryAction::BackoffThenCall }),
            (result is Err && result->Err_0 is OptimisticLockError && final(self).tries == MAX_TRIES) ==>
                final(self).non_applied@ == old(self).non_applied@ + tagged_requests(old(self).pending@, NonAppliedReason::OptimisticLockFailed),
            result matches Err(RevertEntriesError::EntriesDoesNotExists(_, ids)) ==> exists|sel: Seq<bool>|
                sel.len() == old(self).pending@.len()
                && (forall|i: int| 0 <= i < sel.len() ==> #[trigger] sel[i] == listed(ids@, old(self).pending@[i].entry_id@))
                && (select(old(self).pending@, sel, true).len() > 0 ==>
                    final(self).pending@ == select(old(self).pending@, sel, false)
                    && final(self).non_applied@ == old(self).non_applied@ + tagged_requests(select(old(self).pending@, sel, true), NonAppliedReason::EntriesDoesNotExists)
                    && (final(self).pending@.len() > 0 ==> action == RetryAction::CallAgain))
                && (select(old(self).pending@, sel, true).len() == 0 ==> final(self).pending@.len() == 0
                    && exists|m: String| final(self).non_applied@ == old(self).non_applied@ + tagged_requests(old(self).pending@, NonAppliedReason::Other(m))),
            result matches Err(RevertEntriesError::Other(m)) ==>
                final(self).non_applied@ == old(self).non_applied@ + tagged_requests(old(self).pending@, NonAppliedReason::Other(m)),
    {
        match result {
            Ok(rows) => {
                let mut rows = rows;
                self.applied.append(&mut rows);
                self.pending = Vec::new();
                RetryAction::Done
            },
            Err(RevertEntriesError::OptimisticLockError(_)) => {
                self.tries = self.tries + 1;
                if self.tries < MAX_TRIES {
                    if self.tries == 1 {
                        RetryAction::CallAgain
                    } else {
                        RetryAction::BackoffThenCall
                    }
                } else {
                    let mut items: Vec<DeleteEntryRequest> = Vec::new();
                    std::mem::swap(&mut items, &mut self.pending);
                    report_requests(&mut self.non_applied, items, &NonAppliedReason::OptimisticLockFailed);
                    RetryAction::Done
                }
            },
            Err(RevertEntriesError::EntriesDoesNotExists(_, ids)) => {
                let pick = |e: &DeleteEntryRequest| -> (b: bool)
                    ensures
                        b == listed(ids@, e.entry_id@),
                    { is_listed(&ids, &e.entry_id) };
                let ghost before = self.pending@;
                let out = extract_if(&mut self.pending, pick);
                if out.len() == 0 {
                    proof {
                        let sel = choose|sel: Seq<bool>|
                            sel.len() == before.len()
                            && (forall|i: int| 0 <= i < sel.len() ==> pick.ensures((&before[i],), #[trigger] sel[i]))
                            && out@ == select(before, sel, true)
                            && self.pending@ == select(before, sel, false);
                        lemma_select_none(before, sel);
                    }
                    let mut items: Vec<DeleteEntryRequest> = Vec::new();
                    std::mem::swap(&mut items, &mut self.pending);
                    let m = String::from_str("the failure names no pending entry");
                    let ghost gm = m;
                    report_requests(&mut self.non_applied, items, &NonAppliedReason::Other(m));
                    assert(self.non_applied@ == old(self).non_applied@ + tagged_requests(old(self).pending@, NonAppliedReason::Other(gm)));
                    return RetryAction::Done;
                }
                report_requests(&mut self.non_applied, out, &NonAppliedReason::EntriesDoesNotExists);
                if self.pending.len() == 0 {
                    RetryAction::Done
                } else {
                    RetryAction::CallAgain
                }
            },
            Err(RevertEntriesError::Other(m)) => {
                let mut items: Vec<DeleteEntryRequest> = Vec::new();
                std::mem::swap(&mut items, &mut self.pending);
                report_requests(&mut self.non_applied, items, &NonAppliedReason::Other(m));
                RetryAction::Done
            },
        }
    }
}

/// Splits `v` into consecutive chunks of at most `size` items, in order.
pub fn split_chunks<T>(v: Vec<T>, size: usize) -> (r: Vec<Vec<T>>)
    requires
        size > 0,
    ensures
        r@.map_values(|c: Vec<T>| c@).flatten() == v@,
        forall|k: int| 0 <= k < r@.len() ==> 0 < (#[trigger] r@[k])@.len() <= size,
{
    let mut v = v;
    let ghost initial = v@;
    let mut out: Vec<Vec<T>> = Vec::new();
    let mut chunk: Vec<T> = Vec::new();
    while v.len() > 0
        invariant
            size > 0,
            out@.map_values(|c: Vec<T>| c@).flatten() + chunk@ + v@ == initial,
            forall|k: int| 0 <= k < out@.len() ==> 0 < (#[trigger] out@[k])@.len() <= size,
            chunk@.len() < size,
        decreases v@.len(),
    {
        let ghost before = v@;
        let x = v.remove(0);
        chunk.push(x);
        assert(before =~= seq![x] + v@);
        if chunk.len() == size {
            let ghost flat = out@.map_values(|c: Vec<T>| c@);
            let ghost c = chunk@;
            out.push(chunk);
            chunk = Vec::new();
            proof {
                assert(out@.map_values(|c: Vec<T>| c@) =~= flat.push(c));
                flat.lemma_flatten_push(c);
            }
        }
        assert(out@.map_values(|c: Vec<T>| c@).flatten() + chunk@ + v@ =~= initial);
    }
    if chunk.len() > 0 {
        let ghost flat = out@.map_values(|c: Vec<T>| c@);
        let ghost c = chunk@;
        out.push(chunk);
        proof {
            assert(out@.map_values(|c: Vec<T>| c@) =~= flat.push(c));
            flat.lemma_flatten_push(c);
        }
    }
    assert(out@.map_values(|c: Vec<T>| c@).flatten() =~= initial);
    out
}

/// The append inputs of one account, in input order.
pub open spec fn entries_of(s: Seq<EntryWithConditionals>, a: AccountId) -> Seq<EntryWithConditionals>
    decreases s.len(),
{
    if s.len() == 0 {
        seq![]
    } else {
        let p = entries_of(s.drop_last(), a);
        if s.last().entry.account_id == a {
            p.push(s.last())
        } else {
            p
        }
    }
}

/// The revert requests of one account, in input order.
pub open spec fn requests_of(s: Seq<DeleteEntryRequest>, a: AccountId) -> Seq<DeleteEntryRequest>
    decreases s.len(),
{
    if s.len() == 0 {
        seq![]
    } else {
        let p = requests_of(s.drop_last(), a);
        if s.last().account_id == a {
            p.push(s.last())
        } else {
            p
        }
    }
}

/// `r` groups the inputs by account: one non-empty group per account that
/// occurs, holding exactly that account's inputs in input order.
pub open spec fn groups_entries(s: Seq<EntryWithConditionals>, r: Seq<(AccountId, Vec<EntryWithConditionals>)>) -> bool {
    &&& forall|k: int| 0 <= k < r.len() ==> (#[trigger] r[k]).1@ == entries_of(s, r[k].0) && r[k].1@.len() > 0
    &&& forall|a: int, b: int| 0 <= a < b < r.len() ==> r[a].0 != r[b].0
    &&& forall|i: int| 0 <= i < s.len() ==> exists|k: int| 0 <= k < r.len() && r[k].0 == (#[trigger] s[i]).entry.account_id
}

/// The same grouping, of revert requests.
pub open spec fn groups_requests(s: Seq<DeleteEntryRequest>, r: Seq<(AccountId, Vec<DeleteEntryRequest>)>) -> bool {
    &&& forall|k: int| 0 <= k < r.len() ==> (#[trigger] r[k]).1@ == requests_of(s, r[k].0) && r[k].1@.len() > 0
    &&& forall|a: int, b: int| 0 <= a < b < r.len() ==> r[a].0 != r[b].0
    &&& forall|i: int| 0 <= i < s.len() ==> exists|k: int| 0 <= k < r.len() && r[k].0 == (#[trigger] s[i]).account_id
}

/// Relies on itertools' `into_group_map_by`, which pushes each item, in
/// iteration order, onto the vector of its key in a `HashMap`; the map's
/// entries are then collected in whatever order the map yields them.
#[verifier::external_body]
fn group_entries(entries: Vec<EntryWithConditionals>) -> (r: Vec<(AccountId, Vec<EntryWithConditionals>)>)
    ensures
        groups_entries(entries@, r@),
{
    entries.into_iter().into_group_map_by(|e| e.entry.account_id).into_iter().collect()
}

/// Relies on itertools' `into_group_map_by`, as `group_entries` does.
#[verifier::external_body]
fn group_requests(requests: Vec<DeleteEntryRequest>) -> (r: Vec<(AccountId, Vec<DeleteEntryRequest>)>)
    ensures
        groups_requests(requests@, r@),
{
    requests.into_iter().into_group_map_by(|e| e.account_id).into_iter().collect()
}

/// Some item of the plan is for this account.
pub open spec fn has_account<T>(r: Seq<(AccountId, T)>, a: AccountId) -> bool {
    exists|k: int| 0 <= k < r.len() && r[k].0 == a
}

/// The chunks flatten back to the group, and each holds 1 to `size` items.
pub open spec fn chunked<T>(chunks: Seq<Vec<T>>, items: Seq<T>, size: nat) -> bool {
    &&& chunks.map_values(|c: Vec<T>| c@).flatten() == items
    &&& forall|k: int| 0 <= k < chunks.len() ==> 0 < (#[trigger] chunks[k])@.len() <= size
}

/// The work of an append request: the inputs grouped by account (one group
/// per account, each with exactly that account's inputs in input order), and
/// each group split into transactions of at most 99 entries.
pub fn plan_push(entries: Vec<EntryWithConditionals>) -> (r: Vec<(AccountId, Vec<Vec<EntryWithConditionals>>)>)
    ensures
        forall|k: int| 0 <= k < r@.len() ==> chunked((#[trigger] r@[k]).1@, entries_of(entries@, r@[k].0), PUSH_CHUNK_SIZE as nat),
        forall|k: int| 0 <= k < r@.len() ==> (#[trigger] r@[k]).1@.len() > 0,
        forall|a: int, b: int| 0 <= a < b < r@.len() ==> r@[a].0 != r@[b].0,
        forall|i: int| 0 <= i < entries@.len() ==> has_account(r@, (#[trigger] entries@[i]).entry.account_id),
        entries@.len() == 0 ==> r@.len() == 0,
{
    let ghost input = entries@;
    let mut groups = group_entries(entries);
    let ghost g = groups@;
    let mut out: Vec<(AccountId, Vec<Vec<EntryWithConditionals>>)> = Vec::new();
    let ghost mut n: int = 0;
    while groups.len() > 0
        invariant
            groups_entries(input, g),
            0 <= n <= g.len(),
            n + groups@.len() == g.len(),
            groups@ == g.subrange(n, g.len() as int),
            out@.len() == n,
            forall|k: int| 0 <= k < n ==> (#[trigger] out@[k]).0 == g[k].0,
            forall|k: int| 0 <= k < n ==> chunked((#[trigger] out@[k]).1@, entries_of(input, out@[k].0), PUSH_CHUNK_SIZE as nat),
            forall|k: int| 0 <= k < n ==> (#[trigger] out@[k]).1@.len() > 0,
        decreases groups@.len(),
    {
        let ghost before = groups@;
        let (account, items) = groups.remove(0);
        assert(before[0] == g[n]);
        assert(items@ == entries_of(input, account) && items@.len() > 0);
        let chunks = split_chunks(items, PUSH_CHUNK_SIZE);
        proof {
            if chunks@.len() == 0 {
                assert(chunks@.map_values(|c: Vec<EntryWithConditionals>| c@) =~= seq![]);
                assert(false);
            }
        }
        out.push((account, chunks));
        proof {
            n = n + 1;
            assert(groups@ =~= g.subrange(n, g.len() as int));
        }
    }
    proof {
        if input.len() == 0 {
            if g.len() > 0 {
                assert(g[0].1@ == entries_of(input, g[0].0));
            }
        }
        assert forall|i: int| 0 <= i < input.len() implies has_account(out@, (#[trigger] input[i]).entry.account_id) by {
            let k = choose|k: int| 0 <= k < g.len() && g[k].0 == input[i].entry.account_id;
            assert(out@[k].0 == g[k].0);
        }
        assert forall|a: int, b: int| 0 <= a < b < out@.len() implies out@[a].0 != out@[b].0 by {
            assert(out@[a].0 == g[a].0 && out@[b].0 == g[b].0);
        }
    }
    out
}

/// The work of a revert request: the requests grouped by account as
/// `plan_push` groups entries, each group split into transactions of at most
/// 33 requests.
pub fn plan_delete(requests: Vec<DeleteEntryRequest>) -> (r: Vec<(AccountId, Vec<Vec<DeleteEntryRequest>>)>)
    ensures
        forall|k: int| 0 <= k < r@.len() ==> chunked((#[trigger] r@[k]).1@, requests_of(requests@, r@[k].0), DELETE_CHUNK_SIZE as nat),
        forall|k: int| 0 <= k < r@.len() ==> (#[trigger] r@[k]).1@.len() > 0,
        forall|a: int, b: int| 0 <= a < b < r@.len() ==> r@[a].0 != r@[b].0,
        forall|i: int| 0 <= i < requests@.len() ==> has_account(r@, (#[trigger] requests@[i]).account_id),
        requests@.len() == 0 ==> r@.len() == 0,
{
    let ghost input = requests@;
    let mut groups = group_requests(requests);
    let ghost g = groups@;
    let mut out: Vec<(AccountId, Vec<Vec<DeleteEntryRequest>>)> = Vec::new();
    let ghost mut n: int = 0;
    while groups.len() > 0
        invariant
            groups_requests(input, g),
            0 <= n <= g.len(),
            n + groups@.len() == g.len(),
            groups@ == g.subrange(n, g.len() as int),
            out@.len() == n,
            forall|k: int| 0 <= k < n ==> (#[trigger] out@[k]).0 == g[k].0,
            forall|k: int| 0 <= k < n ==> chunked((#[trigger] out@[k]).1@, requests_of(input, out@[k].0), DELETE_CHUNK_SIZE as nat),
            forall|k: int| 0 <= k < n ==> (#[trigger] out@[k]).1@.len() > 0,
        decreases groups@.len(),
    {
        let ghost before = groups@;
        let (account, items) = groups.remove(0);
        assert(before[0] == g[n]);
        assert(items@ == requests_of(input, account) && items@.len() > 0);
        let chunks = split_chunks(items, DELETE_CHUNK_SIZE);
        proof {
            if chunks@.len() == 0 {
                assert(chunks@.map_values(|c: Vec<DeleteEntryRequest>| c@) =~= seq![]);
                assert(false);
            }
        }
        out.push((account, chunks));
        proof {
            n = n + 1;
            assert(groups@ =~= g.subrange(n, g.len() as int));
        }
    }
    proof {
        if input.len() == 0 {
            if g.len() > 0 {
                assert(g[0].1@ == requests_of(input, g[0].0));
            }
        }
        assert forall|i: int| 0 <= i < input.len() implies has_account(out@, (#[trigger] input[i]).account_id) by {
            let k = choose|k: int| 0 <= k < g.len() && g[k].0 == input[i].account_id;
            assert(out@[k].0 == g[k].0);
        }
        assert forall|a: int, b: int| 0 <= a < b < out@.len() implies out@[a].0 != out@[b].0 by {
            assert(out@[a].0 == g[a].0 && out@[b].0 == g[b].0);
        }
    }
    out
}

/// Two entries hold the same values.
pub open spec fn entry_eq(a: Entry, b: Entry) -> bool {
    &&& a.account_id == b.account_id
    &&& a.entry_id@ == b.entry_id@
    &&& named_view(a.ledger_fields@) == named_view(b.ledger_fields@)
    &&& a.additional_fields@ == b.additional_fields@
    &&& a.status == b.status
}

/// Two reasons are the same.
pub open spec fn reason_eq(a: NonAppliedReason, b: NonAppliedReason) -> bool {
    match (a, b) {
        (NonAppliedReason::Other(x), NonAppliedReason::Other(y)) => x@ == y@,
        _ => a == b,
    }
}

/// Two reports are the same.
pub open spec fn report_eq(a: (NonAppliedReason, Entry), b: (NonAppliedReason, Entry)) -> bool {
    reason_eq(a.0, b.0) && entry_eq(a.1, b.1)
}

fn same_fields(a: &Vec<(LedgerFieldName, i128)>, b: &Vec<(LedgerFieldName, i128)>) -> (r: bool)
    ensures
        r == (named_view(a@) == named_view(b@)),
{
    if a.len() != b.len() {
        assert(named_view(a@).len() != named_view(b@).len());
        return false;
    }
    let mut i: usize = 0;
    while i < a.len()
        invariant
            a@.len() == b@.len(),
            i <= a@.len(),
            forall|k: int| 0 <= k < i ==> named_view(a@)[k] == named_view(b@)[k],
        decreases a@.len() - i,
    {
        if !a[i].0.same(&b[i].0) || a[i].1 != b[i].1 {
            assert(named_view(a@)[i as int] != named_view(b@)[i as int]);
            return false;
        }
        i = i + 1;
    }
    assert(named_view(a@) =~= named_view(b@));
    true
}

/// Whether two reports are the same.
pub fn same_report(a: &(NonAppliedReason, Entry), b: &(NonAppliedReason, Entry)) -> (r: bool)
    ensures
        r == report_eq(*a, *b),
{
    let reasons = match (&a.0, &b.0) {
        (NonAppliedReason::Other(x), NonAppliedReason::Other(y)) => *x == *y,
        (NonAppliedReason::OptimisticLockFailed, NonAppliedReason::OptimisticLockFailed) => true,
        (NonAppliedReason::EntriesAlreadyExists, NonAppliedReason::EntriesAlreadyExists) => true,
        (NonAppliedReason::EntriesDoesNotExists, NonAppliedReason::EntriesDoesNotExists) => true,
        (NonAppliedReason::ConditionFailed, NonAppliedReason::ConditionFailed) => true,
        _ => false,
    };
    reasons && a.1.account_id == b.1.account_id && a.1.entry_id.same(&b.1.entry_id)
        && same_fields(&a.1.ledger_fields, &b.1.ledger_fields)
        && a.1.additional_fields == b.1.additional_fields && a.1.status == b.1.status
}

/// Some report of the list equals `x`.
pub open spec fn reported(s: Seq<(NonAppliedReason, Entry)>, x: (NonAppliedReason, Entry)) -> bool {
    exists|k: int| 0 <= k < s.len() && report_eq(s[k], x)
}

/// `r` keeps, in input order, one copy of each input that equals no earlier
/// input: `idx` gives their positions.
pub open spec fn kept_first(reports: Seq<(NonAppliedReason, Entry)>, r: Seq<(NonAppliedReason, Entry)>, idx: Seq<int>) -> bool {
    &&& idx.len() == r.len()
    &&& forall|a: int, b: int| 0 <= a < b < idx.len() ==> idx[a] < idx[b]
    &&& forall|k: int| 0 <= k < r.len() ==> 0 <= #[trigger] idx[k] < reports.len()
        && report_eq(r[k], reports[idx[k]])
        && (forall|j: int| 0 <= j < idx[k] ==> !report_eq(reports[j], reports[idx[k]]))
}

/// `r` keeps, in input order, one copy of each input that equals no earlier
/// input: `idx` gives their positions.
pub open spec fn kept_first_requests(reports: Seq<(NonAppliedReason, DeleteEntryRequest)>, r: Seq<(NonAppliedReason, DeleteEntryRequest)>, idx: Seq<int>) -> bool {
    &&& idx.len() == r.len()
    &&& forall|a: int, b: int| 0 <= a < b < idx.len() ==> idx[a] < idx[b]
    &&& forall|k: int| 0 <= k < r.len() ==> 0 <= #[trigger] idx[k] < reports.len()
        && request_report_eq(r[k], reports[idx[k]])
        && (forall|j: int| 0 <= j < idx[k] ==> !request_report_eq(reports[j], reports[idx[k]]))
}

/// Reports each input once: a report equal to an earlier one is dropped.
pub fn dedup_non_applied(reports: &Vec<(NonAppliedReason, Entry)>) -> (r: Vec<(NonAppliedReason, Entry)>)
    ensures
        forall|a: int, b: int| 0 <= a < b < r@.len() ==> !report_eq(r@[a], r@[b]),
        forall|i: int| 0 <= i < reports@.len() ==> reported(r@, #[trigger] reports@[i]),
        forall|k: int| 0 <= k < r@.len() ==> reported(reports@, #[trigger] r@[k]),
        exists|idx: Seq<int>| #[trigger] kept_first(reports@, r@, idx),
{
    let mut out: Vec<(NonAppliedReason, Entry)> = Vec::new();
    let mut n: usize = 0;
    let ghost mut idx: Seq<int> = seq![];
    while n < reports.len()
        invariant
            n <= reports@.len(),
            kept_first(reports@, out@, idx),
            forall|k: int| 0 <= k < idx.len() ==> #[trigger] idx[k] < n,
            forall|a: int, b: int| 0 <= a < b < out@.len() ==> !report_eq(out@[a], out@[b]),
            forall|i: int| 0 <= i < n ==> reported(out@, #[trigger] reports@[i]),
            forall|k: int| 0 <= k < out@.len() ==> reported(reports@, #[trigger] out@[k]),
        decreases reports@.len() - n,
    {
        let x = &reports[n];
        let mut seen = false;
        let mut k: usize = 0;
        while k < out.len()
            invariant
                k <= out@.len(),
                x == reports@[n as int],
                seen ==> exists|m: int| 0 <= m < out@.len() && report_eq(*x, out@[m]),
                !seen ==> forall|m: int| 0 <= m < k ==> !report_eq(out@[m], *x),
            decreases out@.len() - k,
        {
            if same_report(&out[k], x) {
                seen = true;
                assert(report_eq(*x, out@[k as int]));
            }
            k = k + 1;
        }
        let ghost old_out = out@;
        let ghost old_idx = idx;
        if !seen {
            proof {
                assert forall|j: int| 0 <= j < n implies !report_eq(reports@[j], reports@[n as int]) by {
                    let k0 = choose|k: int| 0 <= k < old_out.len() && report_eq(old_out[k], reports@[j]);
                    assert(!report_eq(old_out[k0], *x));
                }
                idx = idx.push(n as int);
            }
            out.push((x.0.copy(), x.1.copy()));
            let ghost y = out@[old_out.len() as int];
            assert(report_eq(*x, y) && report_eq(y, *x));
            assert forall|a: int, b: int| 0 <= a < b < out@.len() implies !report_eq(out@[a], out@[b]) by {
                assert(out@[a] == old_out[a]);
                if b < old_out.len() {
                    assert(out@[b] == old_out[b]);
                }
            }
            assert forall|k: int| 0 <= k < out@.len() implies reported(reports@, #[trigger] out@[k]) by {
                if k < old_out.len() {
                    assert(out@[k] == old_out[k]);
                } else {
                    assert(report_eq(reports@[n as int], out@[k]));
                }
            }
        }
        assert forall|i: int| 0 <= i < n + 1 implies reported(out@, #[trigger] reports@[i]) by {
            if i < n {
                let k0 = choose|k: int| 0 <= k < old_out.len() && report_eq(old_out[k], reports@[i]);
                if !seen {
                    assert(out@[k0] == old_out[k0]);
                }
            } else if !seen {
                assert(report_eq(out@[old_out.len() as int], reports@[i]));
            } else {
                let m = choose|m: int| 0 <= m < out@.len() && report_eq(reports@[i], out@[m]);
                assert(report_eq(out@[m], reports@[i]));
            }
        }
        proof {
            if !seen {
                assert forall|k: int| 0 <= k < idx.len() implies #[trigger] idx[k] < n + 1 by {
                    if k < old_idx.len() {
                        assert(idx[k] == old_idx[k]);
                    }
                }
                assert forall|k: int| 0 <= k < out@.len() implies 0 <= #[trigger] idx[k] < reports@.len()
                    && report_eq(out@[k], reports@[idx[k]])
                    && (forall|j: int| 0 <= j < idx[k] ==> !report_eq(reports@[j], reports@[idx[k]])) by {
                    if k < old_out.len() {
                        assert(idx[k] == old_idx[k] && out@[k] == old_out[k]);
                    }
                }
                assert forall|a: int, b: int| 0 <= a < b < idx.len() implies idx[a] < idx[b] by {
                    if b < old_idx.len() {
                        assert(idx[a] == old_idx[a] && idx[b] == old_idx[b]);
                    } else {
                        assert(idx[a] == old_idx[a]);
                    }
                }
            }
        }
        n = n + 1;
    }
    out
}

/// Two revert reports are the same.
pub open spec fn request_report_eq(a: (NonAppliedReason, DeleteEntryRequest), b: (NonAppliedReason, DeleteEntryRequest)) -> bool {
    reason_eq(a.0, b.0) && a.1.account_id == b.1.account_id && a.1.entry_id@ == b.1.entry_id@
}

fn same_reason(a: &NonAppliedReason, b: &NonAppliedReason) -> (r: bool)
    ensures
        r == reason_eq(*a, *b),
{
    match (a, b) {
        (NonAppliedReason::Other(x), NonAppliedReason::Other(y)) => *x == *y,
        (NonAppliedReason::OptimisticLockFailed, NonAppliedReason::OptimisticLockFailed) => true,
        (NonAppliedReason::EntriesAlreadyExists, NonAppliedReason::EntriesAlreadyExists) => true,
        (NonAppliedReason::EntriesDoesNotExists, NonAppliedReason::EntriesDoesNotExists) => true,
        (NonAppliedReason::ConditionFailed, NonAppliedReason::ConditionFailed) => true,
        _ => false,
    }
}

/// Whether two revert reports are the same.
pub fn same_request_report(a: &(NonAppliedReason, DeleteEntryRequest), b: &(NonAppliedReason, DeleteEntryRequest)) -> (r: bool)
    ensures
        r == request_report_eq(*a, *b),
{
    same_reason(&a.0, &b.0) && a.1.account_id == b.1.account_id && a.1.entry_id.same(&b.1.entry_id)
}

/// Some report of the list equals the revert report `x`.
pub open spec fn request_reported(s: Seq<(NonAppliedReason, DeleteEntryRequest)>, x: (NonAppliedReason, DeleteEntryRequest)) -> bool {
    exists|k: int| 0 <= k < s.len() && request_report_eq(s[k], x)
}

/// Reports each revert request once: a report equal to an earlier one is dropped.
pub fn dedup_delete_reports(reports: &Vec<(NonAppliedReason, DeleteEntryRequest)>) -> (r: Vec<(NonAppliedReason, DeleteEntryRequest)>)
    ensures
        forall|a: int, b: int| 0 <= a < b < r@.len() ==> !request_report_eq(r@[a], r@[b]),
        forall|i: int| 0 <= i < reports@.len() ==> request_reported(r@, #[trigger] reports@[i]),
        forall|k: int| 0 <= k < r@.len() ==> request_reported(reports@, #[trigger] r@[k]),
        exists|idx: Seq<int>| #[trigger] kept_first_requests(reports@, r@, idx),
{
    let mut out: Vec<(NonAppliedReason, DeleteEntryRequest)> = Vec::new();
    let mut n: usize = 0;
    let ghost mut idx: Seq<int> = seq![];
    while n < reports.len()
        invariant
            n <= reports@.len(),
            kept_first_requests(reports@, out@, idx),
            forall|k: int| 0 <= k < idx.len() ==> #[trigger] idx[k] < n,
            forall|a: int, b: int| 0 <= a < b < out@.len() ==> !request_report_eq(out@[a], out@[b]),
            forall|i: int| 0 <= i < n ==> request_reported(out@, #[trigger] reports@[i]),
            forall|k: int| 0 <= k < out@.len() ==> request_reported(reports@, #[trigger] out@[k]),
        decreases reports@.len() - n,
    {
        let x = &reports[n];
        let mut seen = false;
        let mut k: usize = 0;
        while k < out.len()
            invariant
                k <= out@.len(),
                x == reports@[n as int],
                seen ==> exists|m: int| 0 <= m < out@.len() && request_report_eq(*x, out@[m]),
                !seen ==> forall|m: int| 0 <= m < k ==> !request_report_eq(out@[m], *x),
            decreases out@.len() - k,
        {
            if same_request_report(&out[k], x) {
                seen = true;
                assert(request_report_eq(*x, out@[k as int]));
            }
            k = k + 1;
        }
        let ghost old_out = out@;
        let ghost old_idx = idx;
        if !seen {
            proof {
                assert forall|j: int| 0 <= j < n implies !request_report_eq(reports@[j], reports@[n as int]) by {
                    let k0 = choose|k: int| 0 <= k < old_out.len() && request_report_eq(old_out[k], reports@[j]);
                    assert(!request_report_eq(old_out[k0], *x));
                }
                idx = idx.push(n as int);
            }
            out.push((x.0.copy(), DeleteEntryRequest { account_id: x.1.account_id, entry_id: x.1.entry_id.copy() }));
            let ghost y = out@[old_out.len() as int];
            assert(request_report_eq(*x, y) && request_report_eq(y, *x));
            assert forall|a: int, b: int| 0 <= a < b < out@.len() implies !request_report_eq(out@[a], out@[b]) by {
                assert(out@[a] == old_out[a]);
                if b < old_out.len() {
                    assert(out@[b] == old_out[b]);
                }
            }
            assert forall|k: int| 0 <= k < out@.len() implies request_reported(reports@, #[trigger] out@[k]) by {
                if k < old_out.len() {
                    assert(out@[k] == old_out[k]);
                } else {
                    assert(request_report_eq(reports@[n as int], out@[k]));
                }
            }
        }
        assert forall|i: int| 0 <= i < n + 1 implies request_reported(out@, #[trigger] reports@[i]) by {
            if i < n {
                let k0 = choose|k: int| 0 <= k < old_out.len() && request_report_eq(old_out[k], reports@[i]);
                if !seen {
                    assert(out@[k0] == old_out[k0]);
                }
            } else if !seen {
                assert(request_report_eq(out@[old_out.len() as int], reports@[i]));
            } else {
                let m = choose|m: int| 0 <= m < out@.len() && request_report_eq(reports@[i], out@[m]);
                assert(request_report_eq(out@[m], reports@[i]));
            }
        }
        proof {
            if !seen {
                assert forall|k: int| 0 <= k < idx.len() implies #[trigger] idx[k] < n + 1 by {
                    if k < old_idx.len() {
                        assert(idx[k] == old_idx[k]);
                    }
                }
                assert forall|k: int| 0 <= k < out@.len() implies 0 <= #[trigger] idx[k] < reports@.len()
                    && request_report_eq(out@[k], reports@[idx[k]])
                    && (forall|j: int| 0 <= j < idx[k] ==> !request_report_eq(reports@[j], reports@[idx[k]])) by {
                    if k < old_out.len() {
                        assert(idx[k] == old_idx[k] && out@[k] == old_out[k]);
                    }
                }
                assert forall|a: int, b: int| 0 <= a < b < idx.len() implies idx[a] < idx[b] by {
                    if b < old_idx.len() {
                        assert(idx[a] == old_idx[a] && idx[b] == old_idx[b]);
                    } else {
                        assert(idx[a] == old_idx[a]);
                    }
                }
            }
        }
        n = n + 1;
    }
    out
}

} // verus!
