//! Computing an append: the balance-forward vector, the preconditions and
//! the ids that repeat within a batch.
use vstd::prelude::*;

use crate::balance::{
    balance_forward, distinct_names, balance_of, batch_fits, deref_head, forwarded, lookup_balance,
};
use crate::entity::{
    named_view, AccountId, Conditional, EntryId, EntryWithBalance, EntryWithConditionals,
    LedgerFieldName, Timestamp,
};
use crate::error::AppendEntriesError;

verus! {

/// A precondition holds on the snapshot an entry produced.
pub open spec fn conditional_holds(snapshot: Seq<(Seq<char>, int)>, c: Conditional) -> bool {
    match c {
        Conditional::GreaterThanOrEqualTo { balance, value } => balance_of(snapshot, balance@) >= value,
    }
}

/// Every precondition of every entry holds on the snapshot that entry produced.
pub open spec fn all_conditionals_hold(entries: Seq<EntryWithConditionals>, rows: Seq<EntryWithBalance>) -> bool {
    forall|i: int, k: int|
        0 <= i < entries.len() && 0 <= k < entries[i].conditionals@.len() ==> conditional_holds(
            named_view(rows[i].ledger_balances@),
            #[trigger] entries[i].conditionals@[k],
        )
}

/// The entry id occurs more than once in the batch.
pub open spec fn repeated_in(entries: Seq<EntryWithConditionals>, id: Seq<char>) -> bool {
    exists|i: int, j: int|
        0 <= i < j < entries.len() && entries[i].entry.entry_id@ == id && entries[j].entry.entry_id@ == id
}

/// No entry id occurs twice in the batch.
pub open spec fn ids_distinct(entries: Seq<EntryWithConditionals>) -> bool {
    forall|i: int, j: int|
        0 <= i < j < entries.len() ==> entries[i].entry.entry_id@ != entries[j].entry.entry_id@
}

/// The ids that occur more than once in a batch, each reported once.
pub fn repeated_ids(entries: &Vec<EntryWithConditionals>) -> (r: Vec<EntryId>)
    ensures
        r@.len() == 0 <==> ids_distinct(entries@),
        forall|k: int| 0 <= k < r@.len() ==> repeated_in(entries@, #[trigger] r@[k]@),
        forall|id: Seq<char>| repeated_in(entries@, id) ==> exists|k: int| 0 <= k < r@.len() && r@[k]@ == id,
        forall|a: int, b: int| 0 <= a < b < r@.len() ==> r@[a]@ != r@[b]@,
{
    let mut r: Vec<EntryId> = Vec::new();
    let n = entries.len();
    let mut j: usize = 0;
    while j < n
        invariant
            n == entries@.len(),
            j <= n,
            forall|k: int| 0 <= k < r@.len() ==> repeated_in(entries@, #[trigger] r@[k]@),
            forall|a: int, b: int| 0 <= a < b < j ==>
                entries@[a].entry.entry_id@ == entries@[b].entry.entry_id@
                ==> exists|k: int| 0 <= k < r@.len() && r@[k]@ == entries@[b].entry.entry_id@,
            forall|a: int, b: int| 0 <= a < b < r@.len() ==> r@[a]@ != r@[b]@,
        decreases n - j,
    {
        let id = &entries[j].entry.entry_id;
        let mut i: usize = 0;
        let mut seen = false;
        while i < j
            invariant
                j < n,
                n == entries@.len(),
                i <= j,
                id == entries@[j as int].entry.entry_id,
                seen ==> exists|a: int| 0 <= a < j && entries@[a].entry.entry_id@ == id@,
                !seen ==> forall|a: int| 0 <= a < i ==> entries@[a].entry.entry_id@ != id@,
            decreases j - i,
        {
            if entries[i].entry.entry_id.same(id) {
                seen = true;
            }
            i = i + 1;
        }
        if seen {
            let mut k: usize = 0;
            let mut listed = false;
            while k < r.len()
                invariant
                    k <= r@.len(),
                    listed ==> exists|m: int| 0 <= m < r@.len() && r@[m]@ == id@,
                    !listed ==> forall|m: int| 0 <= m < k ==> r@[m]@ != id@,
                decreases r@.len() - k,
            {
                if r[k].same(id) {
                    listed = true;
                }
                k = k + 1;
            }
            if !listed {
                let ghost old_r = r@;
                r.push(id.copy());
                assert forall|m: int| 0 <= m < r@.len() implies repeated_in(entries@, #[trigger] r@[m]@) by {
                    if m < old_r.len() {
                        assert(r@[m] == old_r[m]);
                    } else {
                        let a = choose|a: int| 0 <= a < j && entries@[a].entry.entry_id@ == id@;
                        assert(0 <= a < j < entries@.len());
                    }
                }
                assert forall|a: int, b: int| 0 <= a < b < j + 1 &&
                    entries@[a].entry.entry_id@ == entries@[b].entry.entry_id@
                    implies exists|k: int| 0 <= k < r@.len() && r@[k]@ == entries@[b].entry.entry_id@ by {
                    if b < j {
                        let k0 = choose|k: int| 0 <= k < old_r.len() && old_r[k]@ == entries@[b].entry.entry_id@;
                        assert(r@[k0] == old_r[k0]);
                    } else {
                        assert(r@[old_r.len() as int]@ == id@);
                    }
                }
            }
        }
        j = j + 1;
    }
    proof {
        if r@.len() == 0 {
            assert forall|a: int, b: int| 0 <= a < b < entries@.len() implies
                entries@[a].entry.entry_id@ != entries@[b].entry.entry_id@ by {
                if entries@[a].entry.entry_id@ == entries@[b].entry.entry_id@ {
                    let k = choose|k: int| 0 <= k < r@.len() && r@[k]@ == entries@[b].entry.entry_id@;
                }
            }
        }
        if ids_distinct(entries@) && r@.len() > 0 {
            assert(repeated_in(entries@, r@[0]@));
        }
        assert forall|id: Seq<char>| repeated_in(entries@, id) implies exists|k: int| 0 <= k < r@.len() && r@[k]@ == id by {
            let (a, b) = choose|a: int, b: int|
                0 <= a < b < entries@.len() && entries@[a].entry.entry_id@ == id && entries@[b].entry.entry_id@ == id;
        }
    }
    r
}

/// Whether the precondition holds on a committed snapshot.
pub fn check_conditional(row: &EntryWithBalance, c: &Conditional) -> (r: bool)
    ensures
        r == conditional_holds(named_view(row.ledger_balances@), *c),
{
    match c {
        Conditional::GreaterThanOrEqualTo { balance, value } => {
            lookup_balance(&row.ledger_balances, balance) >= *value
        },
    }
}

/// Precondition `k` of entry `i` is the first, in batch order, that fails on
/// the snapshot its entry produced.
pub open spec fn first_failure(entries: Seq<EntryWithConditionals>, rows: Seq<EntryWithBalance>, i: int, k: int) -> bool {
    &&& 0 <= i < entries.len() && 0 <= k < entries[i].conditionals@.len()
    &&& !conditional_holds(named_view(rows[i].ledger_balances@), entries[i].conditionals@[k])
    &&& forall|a: int, m: int| 0 <= a < i && 0 <= m < entries[a].conditionals@.len() ==> conditional_holds(
        named_view(rows[a].ledger_balances@),
        #[trigger] entries[a].conditionals@[m],
    )
    &&& forall|m: int| 0 <= m < k ==> conditional_holds(named_view(rows[i].ledger_balances@), #[trigger] entries[i].conditionals@[m])
}

/// The first precondition, in batch order, that fails on the snapshot its
/// entry produced.
pub fn first_failed_conditional(
    entries: &Vec<EntryWithConditionals>,
    rows: &Vec<EntryWithBalance>,
) -> (r: Option<(EntryId, Conditional)>)
    requires
        rows@.len() == entries@.len(),
    ensures
        r is None <==> all_conditionals_hold(entries@, rows@),
        r matches Some(p) ==> exists|i: int, k: int|
            #[trigger] first_failure(entries@, rows@, i, k)
            && p.0 == entries@[i].entry.entry_id
            && p.1 == entries@[i].conditionals@[k],
{
    let mut i: usize = 0;
    while i < entries.len()
        invariant
            rows@.len() == entries@.len(),
            i <= entries@.len(),
            forall|a: int, k: int|
                0 <= a < i && 0 <= k < entries@[a].conditionals@.len() ==> conditional_holds(
                    named_view(rows@[a].ledger_balances@),
                    #[trigger] entries@[a].conditionals@[k],
                ),
        decreases entries@.len() - i,
    {
        let conds = &entries[i].conditionals;
        let mut k: usize = 0;
        while k < conds.len()
            invariant
                rows@.len() == entries@.len(),
                i < entries@.len(),
                conds == entries@[i as int].conditionals,
                k <= conds@.len(),
                forall|a: int, m: int|
                    0 <= a < i && 0 <= m < entries@[a].conditionals@.len() ==> conditional_holds(
                        named_view(rows@[a].ledger_balances@),
                        #[trigger] entries@[a].conditionals@[m],
                    ),
                forall|m: int| 0 <= m < k ==> conditional_holds(
                    named_view(rows@[i as int].ledger_balances@),
                    #[trigger] conds@[m],
                ),
            decreases conds@.len() - k,
        {
            if !check_conditional(&rows[i], &conds[k]) {
                assert(first_failure(entries@, rows@, i as int, k as int));
                return Some((entries[i].entry.entry_id.copy(), conds[k].copy()));
            }
            k = k + 1;
        }
        i = i + 1;
    }
    None
}

/// No entry of the batch names a field twice.
pub open spec fn fields_distinct(entries: Seq<EntryWithConditionals>) -> bool {
    forall|k: int| 0 <= k < entries.len() ==> distinct_names(named_view((#[trigger] entries[k]).entry.ledger_fields@))
}

/// Whether no field is named twice.
pub fn names_distinct(v: &Vec<(LedgerFieldName, i128)>) -> (r: bool)
    ensures
        r == distinct_names(named_view(v@)),
{
    let mut j: usize = 0;
    while j < v.len()
        invariant
            j <= v@.len(),
            forall|a: int, b: int| 0 <= a < b < j ==> named_view(v@)[a].0 != named_view(v@)[b].0,
        decreases v@.len() - j,
    {
        let mut i: usize = 0;
        while i < j
            invariant
                i <= j < v@.len(),
                forall|a: int| 0 <= a < i ==> named_view(v@)[a].0 != named_view(v@)[j as int].0,
            decreases j - i,
        {
            if v[i].0.same(&v[j].0) {
                assert(named_view(v@)[i as int].0 == named_view(v@)[j as int].0);
                return false;
            }
            i = i + 1;
        }
        j = j + 1;
    }
    true
}

#[verifier::opaque]
/// The outcome of appending a batch to an account whose HEAD is `head`:
/// the rows to commit, or the reason the batch cannot commit as it stands.
pub open spec fn append_outcome_ok(
    head: Option<EntryWithBalance>,
    entries: Seq<EntryWithConditionals>,
    now: Timestamp,
    rows: Seq<EntryWithBalance>,
) -> bool {
    &&& ids_distinct(entries)
    &&& fields_distinct(entries)
    &&& batch_fits(head, entries)
    &&& forwarded(head, entries, now, rows)
    &&& all_conditionals_hold(entries, rows)
}

/// Computes the rows an append commits over the HEAD just read. Fails with
/// `EntriesAlreadyExists` naming the ids that repeat within the batch, with
/// `Other` where a balance or a sequence number would overflow, and with
/// `ConditionFailed` naming the first entry whose precondition would not hold
/// on its post-application balances.
pub fn prepare_append(
    account_id: AccountId,
    head: Option<&EntryWithBalance>,
    entries: &Vec<EntryWithConditionals>,
    now: Timestamp,
) -> (r: Result<Vec<EntryWithBalance>, AppendEntriesError>)
    ensures
        r matches Ok(rows) ==> append_outcome_ok(deref_head(head), entries@, now, rows@),
        r matches Ok(rows) ==> rows@.len() == entries@.len(),
        r is Ok <==> (ids_distinct(entries@) && fields_distinct(entries@) && batch_fits(deref_head(head), entries@) &&
            forall|rows: Seq<EntryWithBalance>| forwarded(deref_head(head), entries@, now, rows)
                ==> all_conditionals_hold(entries@, rows)),
        !ids_distinct(entries@) <==> r matches Err(AppendEntriesError::EntriesAlreadyExists(a, ids)),
        r matches Err(AppendEntriesError::EntriesAlreadyExists(a, ids)) ==> a == account_id
            && ids@.len() > 0
            && (forall|k: int| 0 <= k < ids@.len() ==> repeated_in(entries@, #[trigger] ids@[k]@)),
        ids_distinct(entries@) && !(fields_distinct(entries@) && batch_fits(deref_head(head), entries@))
            <==> r matches Err(AppendEntriesError::Other(_)),
        r matches Err(AppendEntriesError::ConditionFailed(id, c)) ==> exists|rows: Seq<EntryWithBalance>, i: int, k: int|
            forwarded(deref_head(head), entries@, now, rows)
            && #[trigger] first_failure(entries@, rows, i, k)
            && id == entries@[i].entry.entry_id
            && c == entries@[i].conditionals@[k],
        !(r matches Err(AppendEntriesError::OptimisticLockError(_))),
{
    let dups = repeated_ids(entries);
    if dups.len() > 0 {
        return Err(AppendEntriesError::EntriesAlreadyExists(account_id, dups));
    }
    let mut i: usize = 0;
    while i < entries.len()
        invariant
            i <= entries@.len(),
            ids_distinct(entries@),
            forall|k: int| 0 <= k < i ==> distinct_names(named_view((#[trigger] entries@[k]).entry.ledger_fields@)),
        decreases entries@.len() - i,
    {
        if !names_distinct(&entries[i].entry.ledger_fields) {
            return Err(AppendEntriesError::Other(String::from_str("a ledger field is named twice")));
        }
        i = i + 1;
    }
    let rows = match balance_forward(head, entries, now) {
        None => {
            return Err(AppendEntriesError::Other(String::from_str("balance or sequence number overflow")));
        },
        Some(rows) => rows,
    };
    proof {
        lemma_forwarded_unique(deref_head(head), entries@, now, rows@);
    }
    proof {
        reveal(append_outcome_ok);
    }
    match first_failed_conditional(entries, &rows) {
        Some((id, c)) => Err(AppendEntriesError::ConditionFailed(id, c)),
        None => Ok(rows),
    }
}

/// The balances of a forwarded batch are determined by the HEAD and the batch.
pub proof fn lemma_forwarded_unique(
    head: Option<EntryWithBalance>,
    entries: Seq<EntryWithConditionals>,
    now: Timestamp,
    rows: Seq<EntryWithBalance>,
)
    requires
        forwarded(head, entries, now, rows),
    ensures
        forall|other: Seq<EntryWithBalance>| forwarded(head, entries, now, other) ==>
            (all_conditionals_hold(entries, other) <==> all_conditionals_hold(entries, rows)),
{
    assert forall|other: Seq<EntryWithBalance>| forwarded(head, entries, now, other) implies
        (all_conditionals_hold(entries, other) <==> all_conditionals_hold(entries, rows)) by {
        assert forall|i: int| 0 <= i < entries.len() implies
            named_view((#[trigger] other[i]).ledger_balances@) == named_view(rows[i].ledger_balances@) by {
            assert(other[i].sequence == rows[i].sequence);
        }
        if all_conditionals_hold(entries, rows) {
            assert forall|i: int, k: int| 0 <= i < entries.len() && 0 <= k < entries[i].conditionals@.len()
                implies conditional_holds(named_view(other[i].ledger_balances@), #[trigger] entries[i].conditionals@[k]) by {
                assert(named_view(other[i].ledger_balances@) == named_view(rows[i].ledger_balances@));
            }
        }
        if all_conditionals_hold(entries, other) {
            assert forall|i: int, k: int| 0 <= i < entries.len() && 0 <= k < entries[i].conditionals@.len()
                implies conditional_holds(named_view(rows[i].ledger_balances@), #[trigger] entries[i].conditionals@[k]) by {
                assert(named_view(other[i].ledger_balances@) == named_view(rows[i].ledger_balances@));
            }
        }
    }
}

} // verus!
