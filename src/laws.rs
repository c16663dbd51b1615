//! Properties of the ledger that hold across calls, stated over the spec
//! functions the contracts use, and proved.
use vstd::prelude::*;

use crate::balance::{
    balance_of, distinct_names, first_sequence, forward_balances, forwarded,
};
use crate::entity::{balance_name_of, balance_prefix, AccountId, EntryStatus, EntryWithBalance, EntryWithConditionals, Timestamp};
use crate::keys::{created_key, digit_chars, digits, padded, pk_text, sk_text, Pk, Sk};
use crate::revert::negated;
use crate::store::{row_pk, row_sk};

verus! {

/// Distinct field names give distinct balance names.
pub proof fn lemma_balance_name_injective(a: Seq<char>, b: Seq<char>)
    ensures
        balance_name_of(a) == balance_name_of(b) ==> a == b,
{
    if balance_name_of(a) == balance_name_of(b) {
        let n = balance_prefix().len() as int;
        assert(a =~= balance_name_of(a).subrange(n, balance_name_of(a).len() as int));
        assert(b =~= balance_name_of(b).subrange(n, balance_name_of(b).len() as int));
    }
}

/// The amount under a name that occurs once is the amount recorded there.
pub proof fn lemma_balance_of_at(s: Seq<(Seq<char>, int)>, j: int)
    requires
        0 <= j < s.len(),
        forall|k: int| 0 <= k < j ==> s[k].0 != s[j].0,
    ensures
        balance_of(s, s[j].0) == s[j].1,
    decreases j,
{
    if j > 0 {
        assert forall|k: int| 0 <= k < j - 1 implies (#[trigger] s.drop_first()[k]).0 != s.drop_first()[j - 1].0 by {
            assert(s.drop_first()[k] == s[k + 1]);
        }
        lemma_balance_of_at(s.drop_first(), j - 1);
        assert(s.drop_first()[j - 1] == s[j]);
    }
}

/// A balance that no field of the entry names is carried forward unchanged.
pub proof fn law_untouched_balance_kept(prev: Seq<(Seq<char>, int)>, fields: Seq<(Seq<char>, int)>, m: Seq<char>)
    requires
        forall|k: int| 0 <= k < fields.len() ==> balance_name_of((#[trigger] fields[k]).0) != m,
    ensures
        balance_of(forward_balances(prev, fields), m) == balance_of(prev, m),
    decreases fields.len(),
{
    if fields.len() > 0 {
        let d = fields.drop_last();
        assert forall|k: int| 0 <= k < d.len() implies balance_name_of((#[trigger] d[k]).0) != m by {
            assert(d[k] == fields[k]);
        }
        law_untouched_balance_kept(prev, d, m);
        let s = forward_balances(prev, d);
        let n = balance_name_of(fields.last().0);
        assert(fields.last() == fields[fields.len() - 1]);
        crate::balance::lemma_set_other(s, n, balance_of(s, n) + fields.last().1, m);
    }
}

/// The balance of a field an entry moves is the previous balance plus the
/// entry's delta.
pub proof fn lemma_forward_at(prev: Seq<(Seq<char>, int)>, fields: Seq<(Seq<char>, int)>, j: int)
    requires
        distinct_names(fields),
        0 <= j < fields.len(),
    ensures
        balance_of(forward_balances(prev, fields), balance_name_of(fields[j].0))
            == balance_of(prev, balance_name_of(fields[j].0)) + fields[j].1,
    decreases fields.len(),
{
    let d = fields.drop_last();
    let l = fields.len() - 1;
    let s = forward_balances(prev, d);
    let n = balance_name_of(fields[l].0);
    let target = balance_name_of(fields[j].0);
    assert(fields.last() == fields[l]);
    assert forall|k: int| 0 <= k < d.len() implies (#[trigger] d[k]) == fields[k] by {}
    if j == l {
        crate::balance::lemma_set_same(s, n, balance_of(s, n) + fields[l].1);
        assert forall|k: int| 0 <= k < d.len() implies balance_name_of((#[trigger] d[k]).0) != n by {
            lemma_balance_name_injective(d[k].0, fields[l].0);
        }
        law_untouched_balance_kept(prev, d, n);
    } else {
        assert(distinct_names(d));
        lemma_forward_at(prev, d, j);
        lemma_balance_name_injective(fields[j].0, fields[l].0);
        crate::balance::lemma_set_other(s, n, balance_of(s, n) + fields[l].1, target);
    }
}

/// Balance law: in every batch an append commits, each balance an entry
/// records for one of its fields is the balance of the previous snapshot (the
/// HEAD's for the first entry, the previous entry's for the others; 0 where
/// absent) plus the entry's delta for that field.
pub proof fn law_balance_forward(
    head: Option<EntryWithBalance>,
    entries: Seq<EntryWithConditionals>,
    now: Timestamp,
    rows: Seq<EntryWithBalance>,
    i: int,
    j: int,
)
    requires
        crate::append::append_outcome_ok(head, entries, now, rows),
        0 <= i < rows.len(),
        0 <= j < rows[i].ledger_fields@.len(),
    ensures
        ({
            let fields = crate::entity::named_view(rows[i].ledger_fields@);
            let prev = if i == 0 {
                crate::balance::head_balances(head)
            } else {
                crate::entity::named_view(rows[i - 1].ledger_balances@)
            };
            balance_of(crate::entity::named_view(rows[i].ledger_balances@), balance_name_of(fields[j].0))
                == balance_of(prev, balance_name_of(fields[j].0)) + fields[j].1
        }),
{
    reveal(crate::append::append_outcome_ok);
    assert(distinct_names(crate::entity::named_view(entries[i].entry.ledger_fields@)));
    let fs = crate::balance::batch_fields(entries);
    assert(fs[i] == crate::entity::named_view(entries[i].entry.ledger_fields@));
    if i > 0 {
        assert(rows[i - 1].sequence == first_sequence(head) + (i - 1));
    }
    lemma_forward_at(crate::balance::chain(crate::balance::head_balances(head), fs, i as nat), fs[i], j);
}

/// Contiguity: two batches appended one after the other, the second over the
/// HEAD the first left, carry the sequence numbers `h+1, h+2, ...` (from 0
/// for a fresh account) with no gap.
pub proof fn law_contiguity(
    head: Option<EntryWithBalance>,
    first: Seq<EntryWithConditionals>,
    now1: Timestamp,
    rows1: Seq<EntryWithBalance>,
    second: Seq<EntryWithConditionals>,
    now2: Timestamp,
    rows2: Seq<EntryWithBalance>,
)
    requires
        forwarded(head, first, now1, rows1),
        rows1.len() > 0,
        forwarded(Some(rows1.last()), second, now2, rows2),
    ensures
        forall|k: int| 0 <= k < rows1.len() + rows2.len() ==> #[trigger] (rows1 + rows2)[k].sequence == first_sequence(head) + k,
        head is None ==> first_sequence(head) == 0,
{
    assert(rows1.last() == rows1[rows1.len() - 1]);
    assert(rows1[rows1.len() - 1].sequence == first_sequence(head) + rows1.len() - 1);
    assert forall|k: int| 0 <= k < rows1.len() + rows2.len() implies #[trigger] (rows1 + rows2)[k].sequence == first_sequence(head) + k by {
        if k < rows1.len() {
            assert((rows1 + rows2)[k] == rows1[k]);
        } else {
            assert((rows1 + rows2)[k] == rows2[k - rows1.len()]);
        }
    }
}

/// Revert symmetry: `e` with `fields` moved the snapshot `prev`; the HEAD
/// `mid` the revert is computed over holds the balance `e` left for one of its
/// fields (entries in between did not touch it: see
/// `law_untouched_balance_kept`). The compensating entry brings that balance
/// back to its value before `e`.
pub proof fn law_revert_restores(
    prev: Seq<(Seq<char>, int)>,
    fields: Seq<(Seq<char>, int)>,
    mid: Seq<(Seq<char>, int)>,
    j: int,
)
    requires
        distinct_names(fields),
        0 <= j < fields.len(),
        balance_of(mid, balance_name_of(fields[j].0)) == balance_of(forward_balances(prev, fields), balance_name_of(fields[j].0)),
    ensures
        balance_of(forward_balances(mid, negated(fields)), balance_name_of(fields[j].0))
            == balance_of(prev, balance_name_of(fields[j].0)),
{
    let neg = negated(fields);
    assert(distinct_names(neg));
    lemma_forward_at(prev, fields, j);
    lemma_forward_at(mid, neg, j);
    assert(neg[j] == (fields[j].0, -fields[j].1));
}

/// Re-add after revert: the live key that a revert deletes is the key an
/// append of an entry with the same id puts, on condition that it is absent.
pub proof fn law_readd_key_freed(account_id: AccountId, reverted: EntryWithBalance, again: EntryWithBalance)
    requires
        again.account_id == account_id,
        again.entry_id == reverted.entry_id,
        again.status == EntryStatus::Applied,
    ensures
        pk_text(row_pk(again, false)) == pk_text(Pk::Entry(account_id, reverted.entry_id)),
        sk_text(row_sk(again, false)) == sk_text(Sk::CurrentEntry),
{
}

/// Conditional enforcement: rows an append commits meet every precondition
/// of their entries on their own post-application balances; an entry whose
/// precondition fails makes the batch fail with `ConditionFailed` instead
/// (see `prepare_append`), and the driver reports it with code 400.
pub proof fn law_conditional_enforcement(
    head: Option<EntryWithBalance>,
    entries: Seq<EntryWithConditionals>,
    now: Timestamp,
    rows: Seq<EntryWithBalance>,
)
    requires
        crate::append::append_outcome_ok(head, entries, now, rows),
    ensures
        crate::append::all_conditionals_hold(entries, rows),
        forwarded(head, entries, now, rows),
        crate::use_case::reason_code_of(crate::use_case::NonAppliedReason::ConditionFailed) == 400,
{
    reveal(crate::append::append_outcome_ok);
}

/// `a` sorts strictly before `b`: they agree up to a position where `a`
/// holds the smaller character.
pub open spec fn sorts_before(a: Seq<char>, b: Seq<char>) -> bool {
    exists|i: int| 0 <= i < a.len() && i < b.len() && a.subrange(0, i) == b.subrange(0, i) && (a[i] as u32) < (b[i] as u32)
}

/// Ten to the `n`.
pub open spec fn pow10(n: nat) -> nat
    decreases n,
{
    if n == 0 {
        1
    } else {
        10 * pow10((n - 1) as nat)
    }
}

proof fn lemma_decimal_digit_code(d: int)
    requires
        0 <= d < 10,
    ensures
        digit_chars()[d] as u32 == 48 + d,
{
    if d == 0 {
    } else if d == 1 {
    } else if d == 2 {
    } else if d == 3 {
    } else if d == 4 {
    } else if d == 5 {
    } else if d == 6 {
    } else if d == 7 {
    } else if d == 8 {
    } else {
    }
}

/// Below `10^n`, the `n` zero-padded digits of numbers sort as the numbers do.
pub proof fn lemma_digits_order(v1: nat, v2: nat, n: nat)
    requires
        v1 < v2 < pow10(n),
    ensures
        sorts_before(digits(v1, 10, n), digits(v2, 10, n)),
    decreases n,
{
    crate::keys::lemma_digits_no_separator(v1, 10, n);
    crate::keys::lemma_digits_no_separator(v2, 10, n);
    if n == 0 {
        assert(false);
    } else {
        let m = (n - 1) as nat;
        let q1 = v1 / 10;
        let q2 = v2 / 10;
        let r1 = v1 % 10;
        let r2 = v2 % 10;
        let p = pow10(m);
        assert(q1 <= q2 && q2 < p && (q1 == q2 ==> r1 < r2)) by (nonlinear_arith)
            requires v1 < v2, v2 < 10 * p, q1 == v1 / 10, q2 == v2 / 10, r1 == v1 % 10, r2 == v2 % 10;
        let d1 = digits(q1, 10, m);
        let d2 = digits(q2, 10, m);
        crate::keys::lemma_digits_no_separator(q1, 10, m);
        crate::keys::lemma_digits_no_separator(q2, 10, m);
        let a = digits(v1, 10, n);
        let b = digits(v2, 10, n);
        assert(a == d1.push(digit_chars()[r1 as int]));
        assert(b == d2.push(digit_chars()[r2 as int]));
        if q1 < q2 {
            lemma_digits_order(q1, q2, m);
            let i = choose|i: int| 0 <= i < d1.len() && i < d2.len() && d1.subrange(0, i) == d2.subrange(0, i) && (d1[i] as u32) < (d2[i] as u32);
            assert(a.subrange(0, i) =~= d1.subrange(0, i));
            assert(b.subrange(0, i) =~= d2.subrange(0, i));
            assert(a[i] == d1[i] && b[i] == d2[i]);
        } else {
            lemma_decimal_digit_code(r1 as int);
            lemma_decimal_digit_code(r2 as int);
            let i = m as int;
            assert(a.subrange(0, i) =~= d1);
            assert(b.subrange(0, i) =~= d2);
        }
    }
}

/// Index keys of rows created at the same instant sort by sequence: the
/// zero-padding keeps every `u64` at twenty digits.
pub proof fn law_index_key_order(t: Timestamp, s1: u64, s2: u64)
    requires
        s1 < s2,
    ensures
        sorts_before(padded(s1), padded(s2)),
        sorts_before(created_key(t, s1), created_key(t, s2)),
{
    assert(pow10(20) == 100000000000000000000) by {
        reveal_with_fuel(pow10, 21);
    }
    lemma_digits_order(s1 as nat, s2 as nat, 20);
    let a = padded(s1);
    let b = padded(s2);
    let i = choose|i: int| 0 <= i < a.len() && i < b.len() && a.subrange(0, i) == b.subrange(0, i) && (a[i] as u32) < (b[i] as u32);
    let pre = crate::outside::rfc3339_of(t) + seq!['|'];
    let ka = created_key(t, s1);
    let kb = created_key(t, s2);
    assert(ka == pre + a);
    assert(kb == pre + b);
    let j = pre.len() + i;
    assert(ka.subrange(0, j) =~= pre + a.subrange(0, i));
    assert(kb.subrange(0, j) =~= pre + b.subrange(0, i));
    assert(ka[j] == a[i] && kb[j] == b[i]);
}

/// Idempotency of entry ids: appending again an entry whose id has a live
/// row in the account cancels the whole transaction, leaving the rows as they
/// were, and the cancellation flags the put of that entry, which
/// `append_cancellation` reports as `EntriesAlreadyExists` (code 200) unless
/// the HEAD moved as well.
pub proof fn law_entry_id_idempotent(
    rows: crate::store::StoreRows,
    head: Option<EntryWithBalance>,
    batch: Seq<EntryWithBalance>,
    writes: Seq<crate::store::WriteItem>,
    i: int,
)
    requires
        crate::store::append_writes(head, batch, writes),
        0 <= i < batch.len(),
        batch[i].status == EntryStatus::Applied,
        rows.contains_key((pk_text(Pk::Entry(batch[i].account_id, batch[i].entry_id)), sk_text(Sk::CurrentEntry))),
    ensures
        crate::store::commit(rows, writes) is None,
        crate::store::failed_flags(rows, writes)[i],
        crate::use_case::reason_code_of(crate::use_case::NonAppliedReason::EntriesAlreadyExists) == 200,
{
    assert(writes[i] matches crate::store::WriteItem::PutNew(r) && crate::store::stores(r, batch[i], false));
    assert(!crate::store::condition_holds(rows, writes[i]));
}

/// A key deleted by an item stays absent when no later item puts it again.
pub proof fn lemma_absent_after(rows: crate::store::StoreRows, ws: Seq<crate::store::WriteItem>, key: (Seq<char>, Seq<char>), m: int)
    requires
        0 <= m < ws.len(),
        ws[m] is Delete,
        crate::store::item_key(ws[m]) == key,
        forall|j: int| m < j < ws.len() ==> (#[trigger] ws[j] is Delete || crate::store::item_key(ws[j]) != key),
    ensures
        !crate::store::apply_all(rows, ws).contains_key(key),
    decreases ws.len(),
{
    let last = ws.last();
    if m < ws.len() - 1 {
        let prefix = ws.drop_last();
        assert forall|j: int| m < j < prefix.len() implies (#[trigger] prefix[j] is Delete || crate::store::item_key(prefix[j]) != key) by {
            assert(prefix[j] == ws[j]);
        }
        lemma_absent_after(rows, prefix, key, m);
        assert(ws[ws.len() - 1] is Delete || crate::store::item_key(ws[ws.len() - 1]) != key);
    }
}

/// Re-add after revert: once a revert commits, no live row is left under the
/// id of any entry it reverted, so a later append of an entry with that id
/// finds its key free.
pub proof fn law_readd_after_revert(
    rows: crate::store::StoreRows,
    account_id: AccountId,
    head: Option<EntryWithBalance>,
    targets: Seq<EntryWithBalance>,
    compensating: Seq<EntryWithBalance>,
    writes: Seq<crate::store::WriteItem>,
    k: int,
)
    requires
        crate::revert::revert_writes(account_id, head, targets, compensating, writes),
        crate::store::commit(rows, writes) is Some,
        0 <= k < targets.len(),
    ensures
        !crate::store::commit(rows, writes)->Some_0.contains_key(
            (pk_text(Pk::Entry(account_id, targets[k].entry_id)), sk_text(Sk::CurrentEntry)),
        ),
{
    reveal(crate::revert::revert_writes);
    let n = compensating.len() + 1;
    let tail = writes.subrange(n as int, writes.len() as int);
    let key = (pk_text(Pk::Entry(account_id, targets[k].entry_id)), sk_text(Sk::CurrentEntry));
    let m = n + 2 * k + 1;
    assert(tail[2 * k + 1] == writes[m]);
    assert(crate::revert::history_delete(account_id, targets[k], tail[2 * k + 1]));
    assert forall|j: int| m < j < writes.len() implies (#[trigger] writes[j] is Delete || crate::store::item_key(writes[j]) != key) by {
        let jj = j - n;
        assert(tail[jj] == writes[j]);
        let i = jj / 2;
        if jj % 2 == 0 {
            assert(jj == 2 * i);
            assert(0 <= i < targets.len());
            assert(crate::revert::history_put(targets[i], compensating[i], tail[2 * i]));
            let r = tail[2 * i]->PutNew_0;
            let h = choose|h: EntryWithBalance| crate::revert::historical(h, targets[i], compensating[i].sequence) && crate::store::stores(r, h, false);
            assert(r.sk@ == sk_text(Sk::RevertedEntry(compensating[i].sequence)));
            assert(r.sk@.len() != sk_text(Sk::CurrentEntry).len()) by {
                crate::keys::lemma_digits_no_separator(compensating[i].sequence as nat, 10, 20);
                reveal_strlit("|REVERT_ENTRY_SEQUENCE:");
            }
        } else {
            assert(jj == 2 * i + 1);
            assert(0 <= i < targets.len());
            assert(crate::revert::history_delete(account_id, targets[i], tail[2 * i + 1]));
        }
    }
    lemma_absent_after(rows, writes, key, m);
}

/// Each batch was appended over the HEAD the previous one left, the first
/// over a fresh account, and each committed at least one entry.
pub open spec fn appended_in_turn(
    batches: Seq<Seq<EntryWithConditionals>>,
    nows: Seq<Timestamp>,
    results: Seq<Seq<EntryWithBalance>>,
) -> bool {
    &&& batches.len() == results.len() && nows.len() == results.len()
    &&& forall|j: int| 0 <= j < results.len() ==> (#[trigger] results[j]).len() > 0 && forwarded(
        if j == 0 { None } else { Some(results[j - 1].last()) },
        batches[j],
        nows[j],
        results[j],
    )
}

/// Contiguity: over any number of appends to a fresh account, each over the
/// HEAD the previous one left, the sequence numbers of all committed entries,
/// in order, are exactly `0, 1, 2, ...`.
pub proof fn law_contiguity_all(
    batches: Seq<Seq<EntryWithConditionals>>,
    nows: Seq<Timestamp>,
    results: Seq<Seq<EntryWithBalance>>,
)
    requires
        appended_in_turn(batches, nows, results),
    ensures
        forall|k: int| 0 <= k < results.flatten().len() ==> #[trigger] results.flatten()[k].sequence == k,
    decreases results.len(),
{
    if results.len() > 0 {
        let n = results.len() - 1;
        let prev = results.drop_last();
        assert(appended_in_turn(batches.drop_last(), nows.drop_last(), prev)) by {
            assert forall|j: int| 0 <= j < prev.len() implies (#[trigger] prev[j]).len() > 0 && forwarded(
                if j == 0 { None } else { Some(prev[j - 1].last()) },
                batches.drop_last()[j],
                nows.drop_last()[j],
                prev[j],
            ) by {
                assert(prev[j] == results[j]);
                if j > 0 {
                    assert(prev[j - 1] == results[j - 1]);
                }
            }
        }
        law_contiguity_all(batches.drop_last(), nows.drop_last(), prev);
        prev.lemma_flatten_push(results[n]);
        assert(prev.push(results[n]) =~= results);
        let flat = prev.flatten();
        let last = results[n];
        assert(results[n].len() > 0);
        assert(forwarded(if n == 0 { None } else { Some(results[n - 1].last()) }, batches[n], nows[n], last));
        if n > 0 {
            let pl = prev.drop_last();
            pl.lemma_flatten_push(prev[n - 1]);
            assert(pl.push(prev[n - 1]) =~= prev);
            assert(prev[n - 1] == results[n - 1]);
            assert(results[n - 1].len() > 0);
            assert(flat.len() > 0);
            assert(flat[flat.len() - 1] == results[n - 1].last());
            assert(flat[flat.len() - 1].sequence == flat.len() - 1);
        } else {
            assert(prev.len() == 0);
            assert(flat =~= Seq::<EntryWithBalance>::empty());
        }
        assert forall|k: int| 0 <= k < results.flatten().len() implies #[trigger] results.flatten()[k].sequence == k by {
            if k < flat.len() {
                assert(results.flatten()[k] == flat[k]);
            } else {
                assert(results.flatten()[k] == last[k - flat.len()]);
                assert(last[k - flat.len()].sequence == first_sequence(if n == 0 { None } else { Some(results[n - 1].last()) }) + (k - flat.len()));
            }
        }
    }
}

/// Revert symmetry on a revert plan: reverting one entry `e` whose snapshot
/// was `prev` moved by its fields, over a HEAD whose balance for one of `e`'s
/// fields is still the one `e` left (later entries left it alone), brings that
/// balance back to its value in `prev`.
pub proof fn law_revert_plan_restores(
    account_id: AccountId,
    head: EntryWithBalance,
    requested: Seq<crate::entity::EntryId>,
    found: Seq<EntryWithBalance>,
    fresh_ids: Seq<crate::entity::EntryId>,
    now: Timestamp,
    plan: crate::revert::RevertPlan,
    prev: Seq<(Seq<char>, int)>,
    j: int,
)
    requires
        crate::revert::revert_planned(account_id, Some(head), requested, found, fresh_ids, now, plan),
        plan.targets@.len() == 1,
        crate::entity::named_view(plan.targets@[0].ledger_balances@)
            == forward_balances(prev, crate::entity::named_view(plan.targets@[0].ledger_fields@)),
        0 <= j < plan.targets@[0].ledger_fields@.len(),
        ({
            let f = balance_name_of(crate::entity::named_view(plan.targets@[0].ledger_fields@)[j].0);
            balance_of(crate::entity::named_view(head.ledger_balances@), f)
                == balance_of(crate::entity::named_view(plan.targets@[0].ledger_balances@), f)
        }),
    ensures
        ({
            let f = balance_name_of(crate::entity::named_view(plan.targets@[0].ledger_fields@)[j].0);
            balance_of(crate::entity::named_view(plan.rows@[0].ledger_balances@), f) == balance_of(prev, f)
        }),
{
    reveal(crate::revert::revert_planned);
    reveal(crate::revert::all_compensate);
    reveal(crate::append::append_outcome_ok);
    let t = plan.targets@[0];
    let c = plan.compensating@[0];
    let fields = crate::entity::named_view(t.ledger_fields@);
    assert(crate::revert::compensates(c, t, fresh_ids[0]));
    assert(crate::append::fields_distinct(plan.compensating@));
    let neg = crate::entity::named_view(c.entry.ledger_fields@);
    assert(neg == negated(fields));
    assert(distinct_names(neg));
    assert forall|a: int, b: int| 0 <= a < b < fields.len() implies fields[a].0 != fields[b].0 by {
        assert(neg[a].0 == fields[a].0 && neg[b].0 == fields[b].0);
    }
    let fs = crate::balance::batch_fields(plan.compensating@);
    assert(fs[0] == neg);
    assert(plan.rows@[0].sequence == first_sequence(Some(head)));
    assert(crate::balance::chain(crate::balance::head_balances(Some(head)), fs, 1) == forward_balances(
        crate::balance::chain(crate::balance::head_balances(Some(head)), fs, 0), fs[0]));
    law_revert_restores(prev, fields, crate::entity::named_view(head.ledger_balances@), j);
}

/// Re-add after revert, on the commit: once a revert of an entry commits, an
/// append of an entry with the same id over the HEAD the revert left finds the
/// key of its row free, and the new row's sequence follows the revert's last.
pub proof fn law_readd_commits(
    rows: crate::store::StoreRows,
    account_id: AccountId,
    head: Option<EntryWithBalance>,
    targets: Seq<EntryWithBalance>,
    compensating: Seq<EntryWithBalance>,
    writes: Seq<crate::store::WriteItem>,
    k: int,
    again: Seq<EntryWithConditionals>,
    now: Timestamp,
    again_rows: Seq<EntryWithBalance>,
    again_writes: Seq<crate::store::WriteItem>,
)
    requires
        crate::revert::revert_writes(account_id, head, targets, compensating, writes),
        crate::store::commit(rows, writes) is Some,
        0 <= k < targets.len(),
        compensating.len() > 0,
        forwarded(Some(compensating.last()), again, now, again_rows),
        crate::store::append_writes(Some(compensating.last()), again_rows, again_writes),
        again_rows.len() > 0,
        again_rows[0].account_id == account_id,
        again_rows[0].entry_id == targets[k].entry_id,
        again_rows[0].status == EntryStatus::Applied,
    ensures
        crate::store::condition_holds(crate::store::commit(rows, writes)->Some_0, again_writes[0]),
        again_rows[0].sequence == compensating.last().sequence + 1,
{
    law_readd_after_revert(rows, account_id, head, targets, compensating, writes, k);
    assert(again_writes[0] matches crate::store::WriteItem::PutNew(r) && crate::store::stores(r, again_rows[0], false));
}

/// Idempotency for a single re-sent entry: where the HEAD has not moved, the
/// cancelled transaction flags exactly that entry's put, so
/// `append_cancellation` reports `EntriesAlreadyExists` naming exactly its id
/// (code 200), and the rows stay as they were.
pub proof fn law_resent_entry_reported(
    rows: crate::store::StoreRows,
    head: Option<EntryWithBalance>,
    batch: Seq<EntryWithBalance>,
    writes: Seq<crate::store::WriteItem>,
)
    requires
        crate::store::append_writes(head, batch, writes),
        batch.len() == 1,
        batch[0].status == EntryStatus::Applied,
        rows.contains_key((pk_text(Pk::Entry(batch[0].account_id, batch[0].entry_id)), sk_text(Sk::CurrentEntry))),
        crate::store::condition_holds(rows, writes[1]),
    ensures
        crate::store::commit(rows, writes) is None,
        crate::store::failed_flags(rows, writes) == seq![true, false],
        crate::store::failed_ids(batch, crate::store::failed_flags(rows, writes), 1) == seq![batch[0].entry_id@],
{
    law_entry_id_idempotent(rows, head, batch, writes, 0);
    assert(crate::store::failed_flags(rows, writes) =~= seq![true, false]);
    let f = crate::store::failed_flags(rows, writes);
    assert(crate::store::failed_ids(batch, f, 0) == Seq::<Seq<char>>::empty());
    assert(crate::store::failed_ids(batch, f, 1) =~= seq![batch[0].entry_id@]);
}

} // verus!
