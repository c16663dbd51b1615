//! Planning a revert: compensating entries, historical rows and the removal
//! of the live rows.
use vstd::prelude::*;

use crate::append::prepare_append;
use crate::balance::{batch_fits, deref_head, distinct_names};
use crate::entity::{
    named_view, representable, same_row, AccountId, Entry, EntryId, EntryStatus, EntryWithBalance,
    EntryWithConditionals, LedgerFieldName, Timestamp,
};
use crate::error::RevertEntriesError;
use crate::keys::{pk_text, sk_text, Pk, Sk};
use crate::store::{append_transaction, append_writes, stored_row, stores, WriteItem};

verus! {

/// The deltas of a list, negated.
pub open spec fn negated(s: Seq<(Seq<char>, int)>) -> Seq<(Seq<char>, int)> {
    s.map_values(|p: (Seq<char>, int)| (p.0, -p.1))
}

/// Some row was read for this id.
pub open spec fn found_id(found: Seq<EntryWithBalance>, id: Seq<char>) -> bool {
    exists|k: int| 0 <= k < found.len() && found[k].entry_id@ == id
}


/// The field deltas negated; `None` where one is `i128::MIN`.
pub fn negate_fields(v: &Vec<(LedgerFieldName, i128)>) -> (r: Option<Vec<(LedgerFieldName, i128)>>)
    ensures
        r is None <==> exists|k: int| 0 <= k < v@.len() && v@[k].1 == i128::MIN,
        r matches Some(n) ==> named_view(n@) == negated(named_view(v@)),
{
    let mut out: Vec<(LedgerFieldName, i128)> = Vec::new();
    let mut i: usize = 0;
    while i < v.len()
        invariant
            i <= v@.len(),
            forall|k: int| 0 <= k < i ==> v@[k].1 != i128::MIN,
            named_view(out@) == negated(named_view(v@)).subrange(0, i as int),
        decreases v@.len() - i,
    {
        if v[i].1 == i128::MIN {
            return None;
        }
        let ghost old_out = out@;
        out.push((v[i].0.copy(), -v[i].1));
        i = i + 1;
        assert(out@ == old_out.push((v@[i - 1].0, (-v@[i - 1].1) as i128)));
        assert(named_view(out@) =~= named_view(old_out).push((v@[i - 1].0@, -(v@[i - 1].1 as int))));
        assert(negated(named_view(v@))[i - 1] == (v@[i - 1].0@, -(v@[i - 1].1 as int)));
        assert(named_view(out@) =~= negated(named_view(v@)).subrange(0, i as int));
    }
    assert(negated(named_view(v@)).subrange(0, i as int) =~= negated(named_view(v@)));
    Some(out)
}

/// The requested ids that have no live row, in request order.
pub open spec fn missing_of(requested: Seq<EntryId>, found: Seq<EntryWithBalance>) -> Seq<Seq<char>> {
    requested.map_values(|e: EntryId| e@).filter(not_found(found))
}

/// Holds of the ids that no row read has.
pub open spec fn not_found(found: Seq<EntryWithBalance>) -> spec_fn(Seq<char>) -> bool {
    |id: Seq<char>| !found_id(found, id)
}

/// The requested ids that have no live row, in request order.
pub fn missing_ids(requested: &Vec<EntryId>, found: &Vec<EntryWithBalance>) -> (r: Vec<EntryId>)
    ensures
        r@.map_values(|e: EntryId| e@) == missing_of(requested@, found@),
{
    let mut r: Vec<EntryId> = Vec::new();
    let mut i: usize = 0;
    while i < requested.len()
        invariant
            i <= requested@.len(),
            r@.map_values(|e: EntryId| e@) == missing_of(requested@.subrange(0, i as int), found@),
        decreases requested@.len() - i,
    {
        let id = &requested[i];
        let mut j: usize = 0;
        let mut hit = false;
        while j < found.len()
            invariant
                j <= found@.len(),
                hit ==> found_id(found@, id@),
                !hit ==> forall|m: int| 0 <= m < j ==> found@[m].entry_id@ != id@,
            decreases found@.len() - j,
        {
            if found[j].entry_id.same(id) {
                hit = true;
            }
            j = j + 1;
        }
        let ghost pre = requested@.subrange(0, i as int).map_values(|e: EntryId| e@);
        let ghost old_r = r@;
        assert(requested@.subrange(0, i + 1).map_values(|e: EntryId| e@) =~= pre.push(id@));
        assert(pre.push(id@).drop_last() =~= pre);
        assert(pre.push(id@).last() == id@);
        proof {
            reveal_with_fuel(Seq::filter, 1);
        }
        if !hit {
            r.push(id.copy());
            assert(r@.map_values(|e: EntryId| e@) =~= old_r.map_values(|e: EntryId| e@).push(id@));
        } else {
            assert(r@ == old_r);
        }
        i = i + 1;
    }
    assert(requested@.subrange(0, i as int) =~= requested@);
    r
}

/// Each row to revert is one of the rows read, and no entry id comes twice.
pub open spec fn matched(found: Seq<EntryWithBalance>, rows: Seq<EntryWithBalance>) -> bool {
    &&& forall|k: int| 0 <= k < rows.len() ==> was_read(found, #[trigger] rows[k])
    &&& forall|a: int, b: int| 0 <= a < b < rows.len() ==> rows[a].entry_id@ != rows[b].entry_id@
}

/// The row is one of the rows read.
pub open spec fn was_read(found: Seq<EntryWithBalance>, row: EntryWithBalance) -> bool {
    exists|j: int| 0 <= j < found.len() && same_row(row, found[j])
}

/// The ids of the requested entries.
pub open spec fn id_views(ids: Seq<EntryId>) -> Seq<Seq<char>> {
    ids.map_values(|e: EntryId| e@)
}

/// The entry ids of rows.
pub open spec fn ids_of(rows: Seq<EntryWithBalance>) -> Seq<Seq<char>> {
    rows.map_values(|e: EntryWithBalance| e.entry_id@)
}

/// The requested ids that have a live row, in request order, each once.
pub open spec fn wanted(ids: Seq<Seq<char>>, found: Seq<EntryWithBalance>) -> Seq<Seq<char>>
    decreases ids.len(),
{
    if ids.len() == 0 {
        seq![]
    } else {
        let p = wanted(ids.drop_last(), found);
        if p.contains(ids.last()) || !found_id(found, ids.last()) {
            p
        } else {
            p.push(ids.last())
        }
    }
}

/// At most one wanted id per requested id.
pub proof fn lemma_wanted_len(ids: Seq<Seq<char>>, found: Seq<EntryWithBalance>)
    ensures
        wanted(ids, found).len() <= ids.len(),
    decreases ids.len(),
{
    if ids.len() > 0 {
        lemma_wanted_len(ids.drop_last(), found);
    }
}

/// Where every requested id has a live row, some id is wanted.
pub proof fn lemma_wanted_nonempty(ids: Seq<Seq<char>>, found: Seq<EntryWithBalance>)
    requires
        ids.len() > 0,
        forall|k: int| 0 <= k < ids.len() ==> found_id(found, #[trigger] ids[k]),
    ensures
        wanted(ids, found).len() > 0,
{
    assert(found_id(found, ids[ids.len() - 1]));
    let p = wanted(ids.drop_last(), found);
    if p.contains(ids.last()) {
        let k = choose|k: int| 0 <= k < p.len() && p[k] == ids.last();
    }
}

/// The rows read for the requested ids, in request order, one per distinct id.
pub fn rows_to_revert(requested: &Vec<EntryId>, found: &Vec<EntryWithBalance>) -> (r: Vec<EntryWithBalance>)
    ensures
        matched(found@, r@),
        ids_of(r@) == wanted(id_views(requested@), found@),
{
    let ghost views = id_views(requested@);
    let mut rows: Vec<EntryWithBalance> = Vec::new();
    assert(ids_of(rows@) =~= wanted(views.subrange(0, 0), found@));
    let ghost mut src: Seq<int> = seq![];
    let mut i: usize = 0;
    while i < requested.len()
        invariant
            i <= requested@.len(),
            views == id_views(requested@),
            ids_of(rows@) == wanted(views.subrange(0, i as int), found@),
            src.len() == rows@.len(),
            forall|k: int| 0 <= k < rows@.len() ==> 0 <= #[trigger] src[k] < found@.len() && same_row(rows@[k], found@[src[k]]),
            forall|a: int, b: int| 0 <= a < b < rows@.len() ==> rows@[a].entry_id@ != rows@[b].entry_id@,
        decreases requested@.len() - i,
    {
        let id = &requested[i];
        let ghost pre = views.subrange(0, i as int);
        proof {
            assert(views.subrange(0, i + 1).drop_last() =~= pre);
            assert(views.subrange(0, i + 1).last() == id@);
        }
        let mut taken = false;
        let mut k: usize = 0;
        while k < rows.len()
            invariant
                k <= rows@.len(),
                !taken ==> forall|m: int| 0 <= m < k ==> rows@[m].entry_id@ != id@,
                taken ==> ids_of(rows@).contains(id@),
            decreases rows@.len() - k,
        {
            if rows[k].entry_id.same(id) {
                taken = true;
                assert(ids_of(rows@)[k as int] == id@);
            }
            k = k + 1;
        }
        proof {
            if !taken {
                assert forall|m: int| 0 <= m < ids_of(rows@).len() implies ids_of(rows@)[m] != id@ by {}
                assert(!ids_of(rows@).contains(id@));
            }
        }
        let ghost old_ids = ids_of(rows@);
        if !taken {
            let mut j: usize = 0;
            let mut hit: Option<usize> = None;
            while j < found.len()
                invariant
                    j <= found@.len(),
                    hit matches Some(h) ==> h < found@.len() && found@[h as int].entry_id@ == id@,
                    hit is None ==> forall|m: int| 0 <= m < j ==> found@[m].entry_id@ != id@,
                decreases found@.len() - j,
            {
                if hit.is_none() && found[j].entry_id.same(id) {
                    hit = Some(j);
                }
                j = j + 1;
            }
            if hit.is_none() {
                assert(!found_id(found@, id@));
            }
            if let Some(h) = hit {
                let ghost old_rows = rows@;
                let ghost old_src = src;
                rows.push(found[h].copy());
                assert(ids_of(rows@) =~= ids_of(old_rows).push(id@));
                proof {
                    src = src.push(h as int);
                    assert forall|k: int| 0 <= k < rows@.len() implies 0 <= #[trigger] src[k] < found@.len() && same_row(rows@[k], found@[src[k]]) by {
                        if k < old_rows.len() {
                            assert(rows@[k] == old_rows[k]);
                            assert(src[k] == old_src[k]);
                        }
                    }
                    assert forall|a: int, b: int| 0 <= a < b < rows@.len() implies rows@[a].entry_id@ != rows@[b].entry_id@ by {
                        assert(rows@[a] == old_rows[a]);
                        if b < old_rows.len() {
                            assert(rows@[b] == old_rows[b]);
                        }
                    }
                }
            }
        }
        proof {
            let nxt = views.subrange(0, i + 1);
            assert(nxt.drop_last() == pre);
            assert(nxt.last() == id@);
            assert(wanted(nxt, found@) == (if wanted(pre, found@).contains(id@) || !found_id(found@, id@) {
                wanted(pre, found@)
            } else {
                wanted(pre, found@).push(id@)
            }));
        }
        i = i + 1;
    }
    assert(views.subrange(0, i as int) =~= views);
    assert forall|k: int| 0 <= k < rows@.len() implies was_read(found@, #[trigger] rows@[k]) by {
        assert(0 <= src[k] < found@.len() && same_row(rows@[k], found@[src[k]]));
    }
    assert(forall|a: int, b: int| 0 <= a < b < rows@.len() ==> rows@[a].entry_id@ != rows@[b].entry_id@);
    rows
}

/// The compensating entry of a live one: a fresh id, the negated deltas, the
/// same additional fields, and a status that points at the reverted sequence.
pub open spec fn compensates(c: EntryWithConditionals, target: EntryWithBalance, fresh: EntryId) -> bool {
    &&& c.entry.account_id == target.account_id
    &&& c.entry.entry_id == fresh
    &&& named_view(c.entry.ledger_fields@) == negated(named_view(target.ledger_fields@))
    &&& c.entry.additional_fields == target.additional_fields
    &&& c.entry.status == EntryStatus::Revert(target.sequence)
    &&& c.conditionals@.len() == 0
}

/// Each row to revert has its compensating entry, in order.
#[verifier::opaque]
pub open spec fn all_compensate(c: Seq<EntryWithConditionals>, targets: Seq<EntryWithBalance>, fresh_ids: Seq<EntryId>) -> bool {
    &&& c.len() == targets.len()
    &&& targets.len() <= fresh_ids.len()
    &&& forall|i: int| 0 <= i < targets.len() ==> compensates(#[trigger] c[i], targets[i], fresh_ids[i])
}

/// The compensating entries of the rows to revert, in order; `None` where a
/// delta cannot be negated.
pub fn compensating_entries(targets: &Vec<EntryWithBalance>, fresh_ids: &Vec<EntryId>) -> (r: Option<Vec<EntryWithConditionals>>)
    requires
        fresh_ids@.len() >= targets@.len(),
    ensures
        r is None <==> exists|i: int, k: int| 0 <= i < targets@.len() && 0 <= k < targets@[i].ledger_fields@.len()
            && (#[trigger] targets@[i].ledger_fields@[k]).1 == i128::MIN,
        r matches Some(c) ==> all_compensate(c@, targets@, fresh_ids@),
{
    let mut out: Vec<EntryWithConditionals> = Vec::new();
    let mut i: usize = 0;
    while i < targets.len()
        invariant
            fresh_ids@.len() >= targets@.len(),
            i <= targets@.len(),
            out@.len() == i,
            forall|a: int| 0 <= a < i ==> compensates(#[trigger] out@[a], targets@[a], fresh_ids@[a]),
            forall|a: int, k: int| 0 <= a < i && 0 <= k < targets@[a].ledger_fields@.len() ==>
                (#[trigger] targets@[a].ledger_fields@[k]).1 != i128::MIN,
        decreases targets@.len() - i,
    {
        let o = &targets[i];
        let fields = match negate_fields(&o.ledger_fields) {
            Some(f) => f,
            None => {
                return None;
            },
        };
        let entry = Entry {
            account_id: o.account_id,
            entry_id: fresh_ids[i].copy(),
            ledger_fields: fields,
            additional_fields: o.additional_fields.clone(),
            status: EntryStatus::Revert(o.sequence),
        };
        out.push(EntryWithConditionals::from_entry(entry));
        i = i + 1;
    }
    proof {
        reveal(all_compensate);
    }
    Some(out)
}

/// A prepared revert: the compensating rows and the one transaction that
/// commits them, records the historical rows and removes the live ones.
#[derive(Debug)]
pub struct RevertPlan {
    /// The live rows being reverted, in request order.
    pub targets: Vec<EntryWithBalance>,
    /// Their compensating entries.
    pub compensating: Vec<EntryWithConditionals>,
    /// The committed form of the compensating entries.
    pub rows: Vec<EntryWithBalance>,
    pub writes: Vec<WriteItem>,
}

/// The historical record of a reverted row: the same row, now `Reverted` by
/// the compensating entry's sequence.
pub open spec fn historical(h: EntryWithBalance, target: EntryWithBalance, by: u64) -> bool {
    &&& h.account_id == target.account_id
    &&& h.entry_id == target.entry_id
    &&& h.ledger_balances@ == target.ledger_balances@
    &&& h.ledger_fields@ == target.ledger_fields@
    &&& h.additional_fields == target.additional_fields
    &&& h.sequence == target.sequence
    &&& h.created_at == target.created_at
    &&& h.status == EntryStatus::Reverted(by)
}

/// The put of the historical record of `target`, reverted by `row`.
pub open spec fn history_put(target: EntryWithBalance, row: EntryWithBalance, w: WriteItem) -> bool {
    &&& w matches WriteItem::PutNew(r)
    &&& exists|h: EntryWithBalance| historical(h, target, row.sequence) && stores(r, h, false)
}

/// The removal of the live row of `target`.
pub open spec fn history_delete(account_id: AccountId, target: EntryWithBalance, w: WriteItem) -> bool {
    &&& w matches WriteItem::Delete { pk, sk }
    &&& pk@ == pk_text(Pk::Entry(account_id, target.entry_id))
    &&& sk@ == sk_text(Sk::CurrentEntry)
}

/// Two writes per reverted row: its historical record, then the removal of its live row.
pub open spec fn history_writes_ok(account_id: AccountId, targets: Seq<EntryWithBalance>, rows: Seq<EntryWithBalance>, w: Seq<WriteItem>) -> bool {
    &&& w.len() == 2 * targets.len()
    &&& forall|i: int| 0 <= i < targets.len() ==> history_put(targets[i], rows[i], #[trigger] w[2 * i])
    &&& forall|i: int| 0 <= i < targets.len() ==> history_delete(account_id, targets[i], #[trigger] w[2 * i + 1])
}

#[verifier::opaque]
/// The writes of a revert: those of the append of the compensating rows,
/// then for each reverted row a put of its historical record and the removal
/// of its live row.
pub open spec fn revert_writes(
    account_id: AccountId,
    head: Option<EntryWithBalance>,
    targets: Seq<EntryWithBalance>,
    rows: Seq<EntryWithBalance>,
    w: Seq<WriteItem>,
) -> bool {
    let n = rows.len() + 1;
    &&& w.len() == n + 2 * targets.len()
    &&& append_writes(head, rows, w.subrange(0, n as int))
    &&& history_writes_ok(account_id, targets, rows, w.subrange(n as int, w.len() as int))
}

/// For each reverted row, a put of its historical record and the removal of
/// its live row; `None` where an instant has no calendar form.
pub fn history_writes(account_id: AccountId, targets: &Vec<EntryWithBalance>, rows: &Vec<EntryWithBalance>) -> (r: Option<Vec<WriteItem>>)
    requires
        rows@.len() == targets@.len(),
    ensures
        r matches Some(w) ==> history_writes_ok(account_id, targets@, rows@, w@),
        (forall|i: int| 0 <= i < targets@.len() ==> crate::entity::representable(#[trigger] targets@[i].created_at)) ==> r is Some,
{
    let mut writes: Vec<WriteItem> = Vec::new();
    let mut j: usize = 0;
    while j < targets.len()
        invariant
            j <= targets@.len(),
            rows@.len() == targets@.len(),
            writes@.len() == 2 * j,
            forall|i: int| 0 <= i < j ==> history_put(targets@[i], rows@[i], #[trigger] writes@[2 * i]),
            forall|i: int| 0 <= i < j ==> history_delete(account_id, targets@[i], #[trigger] writes@[2 * i + 1]),
        decreases targets@.len() - j,
    {
        let mut h = targets[j].copy();
        h.status = EntryStatus::Reverted(rows[j].sequence);
        let put = match stored_row(&h, false) {
            Some(row) => row,
            None => {
                return None;
            },
        };
        let pk = Pk::Entry(account_id, targets[j].entry_id.copy()).text();
        let sk = Sk::CurrentEntry.text();
        let ghost before = writes@;
        writes.push(WriteItem::PutNew(put));
        writes.push(WriteItem::Delete { pk, sk });
        assert(historical(h, targets@[j as int], rows@[j as int].sequence));
        assert forall|i: int| 0 <= i < j + 1 implies history_put(targets@[i], rows@[i], #[trigger] writes@[2 * i]) by {
            if i < j {
                assert(writes@[2 * i] == before[2 * i]);
            }
        }
        assert forall|i: int| 0 <= i < j + 1 implies history_delete(account_id, targets@[i], #[trigger] writes@[2 * i + 1]) by {
            if i < j {
                assert(writes@[2 * i + 1] == before[2 * i + 1]);
            }
        }
        j = j + 1;
    }
    Some(writes)
}

/// `plan` reverts `plan.targets`, live rows read for the request, with
/// the compensating entries `plan.compensating`.
#[verifier::opaque]
pub open spec fn revert_planned(
    account_id: AccountId,
    head: Option<EntryWithBalance>,
    requested: Seq<EntryId>,
    found: Seq<EntryWithBalance>,
    fresh_ids: Seq<EntryId>,
    now: Timestamp,
    plan: RevertPlan,
) -> bool {
    let targets = plan.targets@;
    let comp = plan.compensating@;
    &&& all_compensate(comp, targets, fresh_ids)
    &&& matched(found, targets)
    &&& ids_of(targets) == wanted(id_views(requested), found)
    &&& crate::append::append_outcome_ok(head, comp, now, plan.rows@)
    &&& revert_writes(account_id, head, targets, plan.rows@, plan.writes@)
}

/// The writes of a revert are those of its append followed by its history writes.
proof fn lemma_revert_writes(
    account_id: AccountId,
    head: Option<EntryWithBalance>,
    targets: Seq<EntryWithBalance>,
    rows: Seq<EntryWithBalance>,
    first: Seq<WriteItem>,
    second: Seq<WriteItem>,
    w: Seq<WriteItem>,
)
    requires
        rows.len() == targets.len(),
        append_writes(head, rows, first),
        history_writes_ok(account_id, targets, rows, second),
        w == first + second,
    ensures
        revert_writes(account_id, head, targets, rows, w),
{
    reveal(revert_writes);
    let n = rows.len() + 1;
    assert(w.subrange(0, n as int) =~= first);
    assert(w.subrange(n as int, w.len() as int) =~= second);
}

/// What a revert needs to go through: every requested id has a live row,
/// the request is not empty, there is a distinct fresh id per requested id,
/// every row read names each field once, has no delta of `i128::MIN` and an
/// instant with a calendar form, as does `now`, and the compensating entries
/// of the rows to revert fit over the HEAD.
pub open spec fn revert_can_succeed(
    head: Option<EntryWithBalance>,
    requested: Seq<EntryId>,
    found: Seq<EntryWithBalance>,
    fresh_ids: Seq<EntryId>,
    now: Timestamp,
) -> bool {
    &&& missing_of(requested, found).len() == 0
    &&& requested.len() > 0
    &&& fresh_ids.len() >= requested.len()
    &&& forall|a: int, b: int| 0 <= a < b < fresh_ids.len() ==> fresh_ids[a]@ != fresh_ids[b]@
    &&& forall|j: int| 0 <= j < found.len() ==> distinct_names(named_view((#[trigger] found[j]).ledger_fields@))
    &&& forall|j: int, k: int| 0 <= j < found.len() && 0 <= k < found[j].ledger_fields@.len()
        ==> (#[trigger] found[j].ledger_fields@[k]).1 != i128::MIN
    &&& forall|j: int| 0 <= j < found.len() ==> representable((#[trigger] found[j]).created_at)
    &&& representable(now)
    &&& forall|targets: Seq<EntryWithBalance>, comp: Seq<EntryWithConditionals>|
        matched(found, targets) && ids_of(targets) == wanted(id_views(requested), found)
            && #[trigger] all_compensate(comp, targets, fresh_ids) ==> batch_fits(head, comp)
}

/// No requested id is missing when none is reported missing.
proof fn lemma_all_found(requested: Seq<EntryId>, found: Seq<EntryWithBalance>)
    requires
        missing_of(requested, found).len() == 0,
    ensures
        forall|k: int| 0 <= k < id_views(requested).len() ==> found_id(found, #[trigger] id_views(requested)[k]),
{
    assert forall|k: int| 0 <= k < id_views(requested).len() implies found_id(found, #[trigger] id_views(requested)[k]) by {
        if !found_id(found, id_views(requested)[k]) {
            id_views(requested).lemma_filter_contains(not_found(found), k);
        }
    }
}

/// Under the success conditions, the compensating entries of the rows to
/// revert can be appended.
proof fn lemma_compensation_fits(
    head: Option<EntryWithBalance>,
    requested: Seq<EntryId>,
    found: Seq<EntryWithBalance>,
    fresh_ids: Seq<EntryId>,
    now: Timestamp,
    targets: Seq<EntryWithBalance>,
    comp: Seq<EntryWithConditionals>,
)
    requires
        revert_can_succeed(head, requested, found, fresh_ids, now),
        matched(found, targets),
        ids_of(targets) == wanted(id_views(requested), found),
        all_compensate(comp, targets, fresh_ids),
    ensures
        crate::append::ids_distinct(comp),
        crate::append::fields_distinct(comp),
        batch_fits(head, comp),
        forall|i: int| 0 <= i < comp.len() ==> (#[trigger] comp[i]).conditionals@.len() == 0,
{
    reveal(all_compensate);
    assert forall|i: int| 0 <= i < comp.len() implies distinct_names(named_view((#[trigger] comp[i]).entry.ledger_fields@)) by {
        assert(compensates(comp[i], targets[i], fresh_ids[i]));
        assert(was_read(found, targets[i]));
        let j = choose|j: int| 0 <= j < found.len() && same_row(targets[i], found[j]);
        let x = named_view(targets[i].ledger_fields@);
        assert(x == named_view(found[j].ledger_fields@));
        assert(distinct_names(x));
        assert forall|a: int, b: int| 0 <= a < b < negated(x).len() implies negated(x)[a].0 != negated(x)[b].0 by {
            assert(negated(x)[a].0 == x[a].0 && negated(x)[b].0 == x[b].0);
        }
    }
    assert forall|a: int, b: int| 0 <= a < b < comp.len() implies comp[a].entry.entry_id@ != comp[b].entry.entry_id@ by {
        assert(compensates(comp[a], targets[a], fresh_ids[a]));
        assert(compensates(comp[b], targets[b], fresh_ids[b]));
    }
    assert forall|i: int| 0 <= i < comp.len() implies (#[trigger] comp[i]).conditionals@.len() == 0 by {
        assert(compensates(comp[i], targets[i], fresh_ids[i]));
    }
    assert(all_compensate(comp, targets, fresh_ids));
}

/// The append of the compensating entries of a revert.
fn append_compensation(
    account_id: AccountId,
    head: Option<&EntryWithBalance>,
    comp: &Vec<EntryWithConditionals>,
    now: Timestamp,
) -> (r: Result<Vec<EntryWithBalance>, RevertEntriesError>)
    ensures
        r matches Ok(rows) ==> crate::append::append_outcome_ok(deref_head(head), comp@, now, rows@)
            && rows@.len() == comp@.len(),
        r matches Err(e) ==> e is Other,
        crate::append::ids_distinct(comp@) && crate::append::fields_distinct(comp@)
            && batch_fits(deref_head(head), comp@)
            && (forall|i: int| 0 <= i < comp@.len() ==> (#[trigger] comp@[i]).conditionals@.len() == 0) ==> r is Ok,
{
    assert forall|rows: Seq<EntryWithBalance>| (forall|i: int| 0 <= i < comp@.len() ==> (#[trigger] comp@[i]).conditionals@.len() == 0)
        implies crate::append::all_conditionals_hold(comp@, rows) by {}
    match prepare_append(account_id, head, comp, now) {
        Ok(rows) => Ok(rows),
        Err(e) => Err(RevertEntriesError::from_append(e)),
    }
}

/// Prepares the revert of the live rows read for the requested ids over the
/// HEAD just read, giving the compensating entries the ids `fresh_ids`, one
/// per distinct requested id in request order. Fails with
/// `EntriesDoesNotExists` naming, in request order, the requested ids with no
/// live row.
#[verifier::spinoff_prover]
pub fn prepare_revert(
    account_id: AccountId,
    head: Option<&EntryWithBalance>,
    requested: &Vec<EntryId>,
    found: &Vec<EntryWithBalance>,
    fresh_ids: &Vec<EntryId>,
    now: Timestamp,
) -> (r: Result<RevertPlan, RevertEntriesError>)
    ensures
        missing_of(requested@, found@).len() > 0 <==> r matches Err(RevertEntriesError::EntriesDoesNotExists(_, _)),
        r matches Err(RevertEntriesError::EntriesDoesNotExists(a, missing)) ==> a == account_id
            && missing@.map_values(|e: EntryId| e@) == missing_of(requested@, found@),
        r matches Ok(plan) ==> revert_planned(account_id, deref_head(head), requested@, found@, fresh_ids@, now, plan),
        revert_can_succeed(deref_head(head), requested@, found@, fresh_ids@, now) ==> r is Ok,
        !(r matches Err(RevertEntriesError::OptimisticLockError(_))),
{
    let ghost h = deref_head(head);
    let ghost ok = revert_can_succeed(h, requested@, found@, fresh_ids@, now);
    let missing = missing_ids(requested, found);
    if missing.len() > 0 {
        return Err(RevertEntriesError::EntriesDoesNotExists(account_id, missing));
    }
    proof {
        if ok {
            lemma_all_found(requested@, found@);
        }
    }
    let targets = rows_to_revert(requested, found);
    if targets.len() == 0 {
        proof {
            if ok {
                lemma_wanted_nonempty(id_views(requested@), found@);
            }
        }
        return Err(RevertEntriesError::Other(String::from_str("no entries to revert")));
    }
    proof {
        lemma_wanted_len(id_views(requested@), found@);
    }
    if fresh_ids.len() < targets.len() {
        return Err(RevertEntriesError::Other(String::from_str("not enough fresh entry ids")));
    }
    let comp = match compensating_entries(&targets, fresh_ids) {
        Some(c) => c,
        None => {
            proof {
                if ok {
                    let (i, k) = choose|i: int, k: int| 0 <= i < targets@.len() && 0 <= k < targets@[i].ledger_fields@.len()
                        && (#[trigger] targets@[i].ledger_fields@[k]).1 == i128::MIN;
                    assert(was_read(found@, targets@[i]));
                    let j = choose|j: int| 0 <= j < found@.len() && same_row(targets@[i], found@[j]);
                    assert(found@[j].ledger_fields@[k] == targets@[i].ledger_fields@[k]);
                }
            }
            return Err(RevertEntriesError::Other(String::from_str("a delta cannot be negated")));
        },
    };
    proof {
        if ok {
            lemma_compensation_fits(h, requested@, found@, fresh_ids@, now, targets@, comp@);
        }
    }
    let rows = match append_compensation(account_id, head, &comp, now) {
        Ok(rows) => rows,
        Err(e) => {
            return Err(e);
        },
    };
    assert(rows@.len() == targets@.len()) by {
        reveal(all_compensate);
    }
    proof {
        reveal(crate::append::append_outcome_ok);
        if ok {
            assert forall|i: int| 0 <= i < rows@.len() implies representable(#[trigger] rows@[i].created_at) by {
                assert(rows@[i].created_at == now);
            }
        }
    }
    let mut writes = match append_transaction(head, &rows) {
        Some(w) => w,
        None => {
            return Err(RevertEntriesError::Other(String::from_str("an instant has no calendar form")));
        },
    };
    proof {
        if ok {
            assert forall|i: int| 0 <= i < targets@.len() implies representable(#[trigger] targets@[i].created_at) by {
                assert(was_read(found@, targets@[i]));
                let j = choose|j: int| 0 <= j < found@.len() && same_row(targets@[i], found@[j]);
            }
        }
    }
    let mut extra = match history_writes(account_id, &targets, &rows) {
        Some(x) => x,
        None => {
            return Err(RevertEntriesError::Other(String::from_str("an instant has no calendar form")));
        },
    };
    let ghost first = writes@;
    let ghost second = extra@;
    writes.append(&mut extra);
    proof {
        lemma_revert_writes(account_id, deref_head(head), targets@, rows@, first, second, writes@);
    }
    let plan = RevertPlan { targets, compensating: comp, rows, writes };
    proof {
        reveal(revert_planned);
    }
    Ok(plan)
}

} // verus!
