//! Balance snapshots: how an entry moves the balances of the snapshot before it.
use vstd::prelude::*;

use crate::entity::{
    balance_name_of, named_view, EntryWithBalance, EntryWithConditionals,
    LedgerBalanceName, Timestamp, copy_fields,
};

verus! {

/// The amount recorded under `name`, or 0 where there is none.
pub open spec fn balance_of(s: Seq<(Seq<char>, int)>, name: Seq<char>) -> int
    decreases s.len(),
{
    if s.len() == 0 {
        0
    } else if s[0].0 == name {
        s[0].1
    } else {
        balance_of(s.drop_first(), name)
    }
}

/// No name is recorded twice.
pub open spec fn distinct_names(s: Seq<(Seq<char>, int)>) -> bool {
    forall|i: int, j: int| 0 <= i < j < s.len() ==> s[i].0 != s[j].0
}

/// `s` with the amount under `name` set to `v`: in place where the name is
/// recorded, else added at the end.
pub open spec fn set_balance(s: Seq<(Seq<char>, int)>, name: Seq<char>, v: int) -> Seq<(Seq<char>, int)>
    decreases s.len(),
{
    if s.len() == 0 {
        seq![(name, v)]
    } else if s[0].0 == name {
        seq![(name, v)] + s.drop_first()
    } else {
        seq![s[0]] + set_balance(s.drop_first(), name, v)
    }
}

/// The snapshot an entry with `fields` produces over the previous snapshot
/// `prev`: each field's balance becomes the previous balance (0 if absent)
/// plus the delta; every other balance is carried forward unchanged.
pub open spec fn forward_balances(
    prev: Seq<(Seq<char>, int)>,
    fields: Seq<(Seq<char>, int)>,
) -> Seq<(Seq<char>, int)>
    decreases fields.len(),
{
    if fields.len() == 0 {
        prev
    } else {
        let s = forward_balances(prev, fields.drop_last());
        let n = balance_name_of(fields.last().0);
        set_balance(s, n, balance_of(s, n) + fields.last().1)
    }
}

/// Every balance the entry moves stays within `i128`.
pub open spec fn forward_fits(prev: Seq<(Seq<char>, int)>, fields: Seq<(Seq<char>, int)>) -> bool
    decreases fields.len(),
{
    if fields.len() == 0 {
        true
    } else {
        let s = forward_balances(prev, fields.drop_last());
        let n = balance_name_of(fields.last().0);
        forward_fits(prev, fields.drop_last()) && i128::MIN <= balance_of(s, n) + fields.last().1 <= i128::MAX
    }
}

/// The amount under `name` after setting it is the new amount.
pub proof fn lemma_set_same(s: Seq<(Seq<char>, int)>, name: Seq<char>, v: int)
    ensures
        balance_of(set_balance(s, name, v), name) == v,
    decreases s.len(),
{
    if s.len() > 0 && s[0].0 != name {
        lemma_set_same(s.drop_first(), name, v);
        assert((seq![s[0]] + set_balance(s.drop_first(), name, v)).drop_first() =~= set_balance(s.drop_first(), name, v));
    }
}

/// Setting one name leaves the amounts under other names as they were.
pub proof fn lemma_set_other(s: Seq<(Seq<char>, int)>, name: Seq<char>, v: int, m: Seq<char>)
    requires
        m != name,
    ensures
        balance_of(set_balance(s, name, v), m) == balance_of(s, m),
    decreases s.len(),
{
    let t = set_balance(s, name, v);
    if s.len() == 0 {
        assert(t[0] == (name, v));
        assert(t.drop_first() =~= Seq::<(Seq<char>, int)>::empty());
        assert(balance_of(t.drop_first(), m) == 0);
    } else if s[0].0 == name {
        assert(t[0] == (name, v));
        assert(t.drop_first() =~= s.drop_first());
    } else {
        lemma_set_other(s.drop_first(), name, v, m);
        assert(t[0] == s[0]);
        assert(t.drop_first() =~= set_balance(s.drop_first(), name, v));
    }
}

/// Setting a name recorded first at `i` replaces that amount in place.
pub proof fn lemma_set_at(s: Seq<(Seq<char>, int)>, name: Seq<char>, v: int, i: int)
    requires
        0 <= i < s.len(),
        s[i].0 == name,
        forall|k: int| 0 <= k < i ==> s[k].0 != name,
    ensures
        set_balance(s, name, v) == s.update(i, (name, v)),
    decreases i,
{
    if i == 0 {
        assert(seq![(name, v)] + s.drop_first() =~= s.update(0, (name, v)));
    } else {
        assert forall|k: int| 0 <= k < i - 1 implies (#[trigger] s.drop_first()[k]).0 != name by {
            assert(s.drop_first()[k] == s[k + 1]);
        }
        lemma_set_at(s.drop_first(), name, v, i - 1);
        assert(seq![s[0]] + s.drop_first().update(i - 1, (name, v)) =~= s.update(i, (name, v)));
    }
}

/// Setting a name not recorded adds it at the end.
pub proof fn lemma_set_absent(s: Seq<(Seq<char>, int)>, name: Seq<char>, v: int)
    requires
        forall|k: int| 0 <= k < s.len() ==> s[k].0 != name,
    ensures
        set_balance(s, name, v) == s.push((name, v)),
    decreases s.len(),
{
    if s.len() > 0 {
        assert forall|k: int| 0 <= k < s.drop_first().len() implies (#[trigger] s.drop_first()[k]).0 != name by {
            assert(s.drop_first()[k] == s[k + 1]);
        }
        lemma_set_absent(s.drop_first(), name, v);
        assert(seq![s[0]] + s.drop_first().push((name, v)) =~= s.push((name, v)));
    } else {
        assert(seq![(name, v)] =~= s.push((name, v)));
    }
}

/// A prefix of fitting deltas fits.
pub proof fn lemma_fits_prefix(prev: Seq<(Seq<char>, int)>, fields: Seq<(Seq<char>, int)>, j: int)
    requires
        0 <= j <= fields.len(),
        forward_fits(prev, fields),
    ensures
        forward_fits(prev, fields.subrange(0, j)),
    decreases fields.len(),
{
    if j < fields.len() {
        assert(fields.drop_last() =~= fields.subrange(0, fields.len() - 1));
        lemma_fits_prefix(prev, fields.drop_last(), j);
        assert(fields.drop_last().subrange(0, j) =~= fields.subrange(0, j));
    } else {
        assert(fields.subrange(0, j) =~= fields);
    }
}

/// The snapshot after the first `n` of a run of entries, over `start`.
pub open spec fn chain(
    start: Seq<(Seq<char>, int)>,
    fields: Seq<Seq<(Seq<char>, int)>>,
    n: nat,
) -> Seq<(Seq<char>, int)>
    decreases n,
{
    if n == 0 {
        start
    } else {
        forward_balances(chain(start, fields, (n - 1) as nat), fields[n - 1])
    }
}

/// Every amount fits a signed 128-bit integer.
pub open spec fn fits_i128(s: Seq<(Seq<char>, int)>) -> bool {
    forall|k: int| 0 <= k < s.len() ==> i128::MIN <= #[trigger] s[k].1 <= i128::MAX
}

/// The field deltas of each entry of a batch.
pub open spec fn batch_fields(entries: Seq<EntryWithConditionals>) -> Seq<Seq<(Seq<char>, int)>> {
    entries.map_values(|e: EntryWithConditionals| named_view(e.entry.ledger_fields@))
}

/// The balances of the HEAD a batch is computed over (none for a fresh account).
pub open spec fn head_balances(head: Option<EntryWithBalance>) -> Seq<(Seq<char>, int)> {
    match head {
        Some(h) => named_view(h.ledger_balances@),
        None => seq![],
    }
}

/// The sequence number the first entry of a batch gets.
pub open spec fn first_sequence(head: Option<EntryWithBalance>) -> int {
    match head {
        Some(h) => h.sequence + 1,
        None => 0,
    }
}

/// Every balance and every sequence number the batch produces fits its type.
pub open spec fn batch_fits(head: Option<EntryWithBalance>, entries: Seq<EntryWithConditionals>) -> bool {
    &&& (entries.len() > 0 ==> first_sequence(head) + entries.len() - 1 <= u64::MAX)
    &&& forall|i: int|
        0 <= i < entries.len() ==> forward_fits(
            #[trigger] chain(head_balances(head), batch_fields(entries), i as nat),
            batch_fields(entries)[i],
        )
}

/// `r` is the committed form of `entries`, in order, over `head`: contiguous
/// sequence numbers after the HEAD's, each snapshot the previous one moved
/// forward by the entry's deltas, everything else carried over.
pub open spec fn forwarded(
    head: Option<EntryWithBalance>,
    entries: Seq<EntryWithConditionals>,
    now: Timestamp,
    r: Seq<EntryWithBalance>,
) -> bool {
    &&& r.len() == entries.len()
    &&& forall|i: int|
        0 <= i < r.len() ==> {
            &&& (#[trigger] r[i]).sequence == first_sequence(head) + i
            &&& named_view(r[i].ledger_balances@) == chain(
                head_balances(head),
                batch_fields(entries),
                (i + 1) as nat,
            )
            &&& r[i].account_id == entries[i].entry.account_id
            &&& r[i].entry_id == entries[i].entry.entry_id
            &&& r[i].ledger_fields@ == entries[i].entry.ledger_fields@
            &&& r[i].additional_fields == entries[i].entry.additional_fields
            &&& r[i].status == entries[i].entry.status
            &&& r[i].created_at == now
        }
}

/// The HEAD a reference points to, if any.
pub open spec fn deref_head(head: Option<&EntryWithBalance>) -> Option<EntryWithBalance> {
    match head {
        Some(h) => Some(*h),
        None => None,
    }
}

/// The amount recorded under `name`, or 0.
pub fn lookup_balance(v: &Vec<(LedgerBalanceName, i128)>, name: &LedgerBalanceName) -> (r: i128)
    ensures
        r as int == balance_of(named_view(v@), name@),
{
    let mut i: usize = 0;
    assert(named_view(v@).subrange(0, v@.len() as int) =~= named_view(v@));
    while i < v.len()
        invariant
            i <= v.len(),
            balance_of(named_view(v@), name@) == balance_of(
                named_view(v@).subrange(i as int, v@.len() as int),
                name@,
            ),
        decreases v.len() - i,
    {
        let ghost rest = named_view(v@).subrange(i as int, v@.len() as int);
        assert(rest.drop_first() =~= named_view(v@).subrange(i + 1, v@.len() as int));
        if v[i].0.same(name) {
            return v[i].1;
        }
        i = i + 1;
    }
    assert(named_view(v@).subrange(i as int, v@.len() as int).len() == 0);
    0
}

/// Sets the amount under `name` in place, or adds it at the end.
fn set_balance_in(v: &mut Vec<(LedgerBalanceName, i128)>, name: &LedgerBalanceName, value: i128)
    ensures
        named_view(final(v)@) == set_balance(named_view(old(v)@), name@, value as int),
{
    let ghost s = named_view(v@);
    let mut i: usize = 0;
    while i < v.len()
        invariant
            i <= v@.len(),
            s == named_view(v@),
            s == named_view(old(v)@),
            forall|k: int| 0 <= k < i ==> s[k].0 != name@,
        decreases v@.len() - i,
    {
        if v[i].0.same(name) {
            proof {
                assert(s[i as int].0 == name@);
                lemma_set_at(s, name@, value as int, i as int);
            }
            let ghost nm = name@;
            v.set(i, (name.copy(), value));
            assert(named_view(v@) =~= s.update(i as int, (nm, value as int)));
            return;
        }
        assert(s[i as int].0 != name@);
        i = i + 1;
    }
    proof {
        lemma_set_absent(s, name@, value as int);
    }
    let ghost nm = name@;
    v.push((name.copy(), value));
    assert(named_view(v@) =~= s.push((nm, value as int)));
}

/// The snapshot an entry with `fields` produces over `prev`, or `None` where
/// a balance would leave the range of `i128`.
pub fn next_balances(
    prev: &Vec<(LedgerBalanceName, i128)>,
    fields: &Vec<(crate::entity::LedgerFieldName, i128)>,
) -> (r: Option<Vec<(LedgerBalanceName, i128)>>)
    ensures
        r is Some <==> forward_fits(named_view(prev@), named_view(fields@)),
        r matches Some(b) ==> named_view(b@) == forward_balances(named_view(prev@), named_view(fields@)),
{
    let ghost p = named_view(prev@);
    let ghost f = named_view(fields@);
    let mut out = crate::entity::copy_balances(prev);
    let mut j: usize = 0;
    assert(f.subrange(0, 0).len() == 0);
    while j < fields.len()
        invariant
            j <= fields@.len(),
            f == named_view(fields@),
            p == named_view(prev@),
            named_view(out@) == forward_balances(p, f.subrange(0, j as int)),
            forward_fits(p, f.subrange(0, j as int)),
        decreases fields@.len() - j,
    {
        let ghost sub = f.subrange(0, j + 1);
        assert(sub.drop_last() =~= f.subrange(0, j as int));
        assert(sub.last() == f[j as int]);
        assert(f[j as int] == (fields@[j as int].0@, fields@[j as int].1 as int));
        let name = fields[j].0.balance_name();
        let before = lookup_balance(&out, &name);
        match before.checked_add(fields[j].1) {
            None => {
                proof {
                    if forward_fits(p, f) {
                        lemma_fits_prefix(p, f, j + 1);
                    }
                }
                return None;
            },
            Some(v) => {
                set_balance_in(&mut out, &name, v);
                j = j + 1;
            },
        }
    }
    assert(f.subrange(0, j as int) =~= f);
    Some(out)
}

/// Computes the committed form of a batch over the account's HEAD: the
/// balance-forward vector with sequence numbers `h+1 ..` (or `0 ..` for a fresh
/// account), all created at `now`. `None` where a balance or a sequence number
/// would overflow.
pub fn balance_forward(
    head: Option<&EntryWithBalance>,
    entries: &Vec<EntryWithConditionals>,
    now: Timestamp,
) -> (r: Option<Vec<EntryWithBalance>>)
    ensures
        r is Some <==> batch_fits(deref_head(head), entries@),
        r matches Some(v) ==> forwarded(deref_head(head), entries@, now, v@),
{
    let ghost h = deref_head(head);
    let ghost fs = batch_fields(entries@);
    let mut prev: Vec<(LedgerBalanceName, i128)> = match head {
        Some(hd) => crate::entity::copy_balances(&hd.ledger_balances),
        None => Vec::new(),
    };
    let first: u64 = match head {
        Some(hd) => {
            if hd.sequence == u64::MAX {
                if entries.len() == 0 {
                    return Some(Vec::new());
                }
                return None;
            }
            hd.sequence + 1
        },
        None => 0,
    };
    if entries.len() > 0 && u64::MAX - first < (entries.len() - 1) as u64 {
        return None;
    }
    let mut out: Vec<EntryWithBalance> = Vec::new();
    let mut i: usize = 0;
    while i < entries.len()
        invariant
            i <= entries.len(),
            h == deref_head(head),
            fs == batch_fields(entries@),
            out@.len() == i,
            first == first_sequence(h),
            entries.len() > 0 ==> first + entries.len() - 1 <= u64::MAX,
            named_view(prev@) == chain(head_balances(h), fs, i as nat),
            forall|k: int| 0 <= k < i ==> forward_fits(#[trigger] chain(head_balances(h), fs, k as nat), fs[k]),
            forall|k: int|
                0 <= k < i ==> {
                    &&& (#[trigger] out@[k]).sequence == first_sequence(h) + k
                    &&& named_view(out@[k].ledger_balances@) == chain(head_balances(h), fs, (k + 1) as nat)
                    &&& out@[k].account_id == entries@[k].entry.account_id
                    &&& out@[k].entry_id == entries@[k].entry.entry_id
                    &&& out@[k].ledger_fields@ == entries@[k].entry.ledger_fields@
                    &&& out@[k].additional_fields == entries@[k].entry.additional_fields
                    &&& out@[k].status == entries@[k].entry.status
                    &&& out@[k].created_at == now
                },
        decreases entries.len() - i,
    {
        let e = &entries[i].entry;
        assert(fs[i as int] == named_view(e.ledger_fields@));
        let nb = next_balances(&prev, &e.ledger_fields);
        let bals = match nb {
            None => {
                assert(!forward_fits(chain(head_balances(h), fs, i as nat), fs[i as int]));
                let ghost ii: int = i as int;
                assert(chain(head_balances(h), fs, ii as nat) == chain(head_balances(h), fs, i as nat));
                assert(!forward_fits(chain(head_balances(h), batch_fields(entries@), ii as nat), batch_fields(entries@)[ii]));
                assert(!batch_fits(h, entries@));
                return None;
            },
            Some(b) => b,
        };
        let row = EntryWithBalance {
            account_id: e.account_id,
            entry_id: e.entry_id.copy(),
            ledger_balances: crate::entity::copy_balances(&bals),
            ledger_fields: copy_fields(&e.ledger_fields),
            additional_fields: e.additional_fields.clone(),
            status: e.status,
            sequence: first + i as u64,
            created_at: now,
        };
        out.push(row);
        prev = bals;
        i = i + 1;
    }
    assert(forwarded(h, entries@, now, out@));
    Some(out)
}

} // verus!
