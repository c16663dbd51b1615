//! The domain model: accounts, entry ids, field and balance names, entries,
//! their statuses and the pagination cursors.
use vstd::prelude::*;

use crate::text::{contains_char, has_prefix, join, starts_with};

verus! {

/// Longest accepted entry id, in bytes of its UTF-8 encoding.
pub const MAX_ENTRY_ID_LEN: usize = 64;

/// The reserved separator of the storage keys.
pub open spec fn separator() -> char {
    '|'
}

/// The prefix that every balance name carries.
pub open spec fn balance_prefix() -> Seq<char> {
    seq!['b', 'a', 'l', 'a', 'n', 'c', 'e', '_']
}

/// The balance that accumulates the field `f`.
pub open spec fn balance_name_of(f: Seq<char>) -> Seq<char> {
    balance_prefix() + f
}

/// Why a value was refused at construction.
#[derive(Debug, Clone, Copy, PartialEq, Eq, Structural)]
pub enum ValidationError {
    EntryIdHasSeparator,
    EntryIdTooLong,
    FieldNameEmpty,
    FieldNameReserved,
    BalanceNameWithoutPrefix,
}

impl ValidationError {
    pub fn message(&self) -> (r: String) {
        match self {
            ValidationError::EntryIdHasSeparator => String::from_str("Entry id cannot contain the `|` char"),
            ValidationError::EntryIdTooLong => String::from_str("Entry id cannot be longer than 64 bytes"),
            ValidationError::FieldNameEmpty => String::from_str("Ledger field name cannot be empty"),
            ValidationError::FieldNameReserved => String::from_str("Ledger field cannot start with `balance_`"),
            ValidationError::BalanceNameWithoutPrefix => String::from_str("Ledger balance name must start with `balance_`"),
        }
    }
}

/// An account, identified by the 128-bit value of its UUID.
#[derive(Debug, Clone, Copy, PartialEq, Eq, Structural, Hash, PartialOrd, Ord)]
pub struct AccountId(pub u128);

impl AccountId {
    pub fn new(uuid: u128) -> (r: AccountId)
        ensures
            r.0 == uuid,
    {
        AccountId(uuid)
    }
}

/// A client-supplied entry identifier: at most 64 bytes, without `|`.
#[derive(Debug, Clone, PartialEq, Eq, Hash, PartialOrd, Ord)]
pub struct EntryId(String);

/// What makes a text an acceptable entry id.
pub open spec fn valid_entry_id(s: Seq<char>) -> bool {
    !s.contains(separator()) && vstd::utf8::encode_utf8(s).len() <= MAX_ENTRY_ID_LEN
}

impl View for EntryId {
    type V = Seq<char>;

    closed spec fn view(&self) -> Seq<char> {
        self.0@
    }
}

impl EntryId {
    pub fn new(entry_id: String) -> (r: Result<EntryId, ValidationError>)
        ensures
            entry_id@.contains(separator()) ==> r == Err::<EntryId, _>(ValidationError::EntryIdHasSeparator),
            !entry_id@.contains(separator()) && vstd::utf8::encode_utf8(entry_id@).len() > MAX_ENTRY_ID_LEN
                ==> r == Err::<EntryId, _>(ValidationError::EntryIdTooLong),
            valid_entry_id(entry_id@) <==> r is Ok,
            r matches Ok(e) ==> e@ == entry_id@,
    {
        if contains_char(entry_id.as_str(), '|') {
            return Err(ValidationError::EntryIdHasSeparator);
        }
        if entry_id.as_str().as_bytes().len() > MAX_ENTRY_ID_LEN {
            return Err(ValidationError::EntryIdTooLong);
        }
        Ok(EntryId(entry_id))
    }

    /// Wraps a text read back from storage, where it was checked on the way in.
    pub fn new_unchecked(entry_id: String) -> (r: EntryId)
        ensures
            r@ == entry_id@,
    {
        EntryId(entry_id)
    }

    pub fn as_str(&self) -> (r: &str)
        ensures
            r@ == self@,
    {
        self.0.as_str()
    }

    pub fn to_string(&self) -> (r: String)
        ensures
            r@ == self@,
    {
        self.0.clone()
    }

    pub fn copy(&self) -> (r: EntryId)
        ensures
            r == *self,
    {
        EntryId(self.0.clone())
    }

    pub fn same(&self, other: &EntryId) -> (r: bool)
        ensures
            r == (self@ == other@),
    {
        self.0 == other.0
    }
}

/// The name of a ledger field: non-empty, not starting with `balance_`.
#[derive(Debug, Clone, PartialEq, Eq, Hash, PartialOrd, Ord)]
pub struct LedgerFieldName(String);

/// What makes a text an acceptable field name.
pub open spec fn valid_field_name(s: Seq<char>) -> bool {
    s.len() > 0 && !has_prefix(s, balance_prefix())
}

impl View for LedgerFieldName {
    type V = Seq<char>;

    closed spec fn view(&self) -> Seq<char> {
        self.0@
    }
}

impl LedgerFieldName {
    pub fn new(field_name: String) -> (r: Result<LedgerFieldName, ValidationError>)
        ensures
            field_name@.len() == 0 ==> r == Err::<LedgerFieldName, _>(ValidationError::FieldNameEmpty),
            field_name@.len() > 0 && has_prefix(field_name@, balance_prefix())
                ==> r == Err::<LedgerFieldName, _>(ValidationError::FieldNameReserved),
            valid_field_name(field_name@) <==> r is Ok,
            r matches Ok(f) ==> f@ == field_name@,
    {
        proof {
            reveal_strlit("balance_");
            assert("balance_"@ =~= balance_prefix());
        }
        if field_name.as_str().unicode_len() == 0 {
            return Err(ValidationError::FieldNameEmpty);
        }
        if starts_with(field_name.as_str(), "balance_") {
            return Err(ValidationError::FieldNameReserved);
        }
        Ok(LedgerFieldName(field_name))
    }

    pub fn as_str(&self) -> (r: &str)
        ensures
            r@ == self@,
    {
        self.0.as_str()
    }

    pub fn copy(&self) -> (r: LedgerFieldName)
        ensures
            r == *self,
    {
        LedgerFieldName(self.0.clone())
    }

    pub fn same(&self, other: &LedgerFieldName) -> (r: bool)
        ensures
            r == (self@ == other@),
    {
        self.0 == other.0
    }

    /// The balance that accumulates this field: `balance_` followed by the name.
    pub fn balance_name(&self) -> (r: LedgerBalanceName)
        ensures
            r@ == balance_name_of(self@),
    {
        proof {
            reveal_strlit("balance_");
            assert("balance_"@ =~= balance_prefix());
        }
        LedgerBalanceName(join("balance_", self.0.as_str()))
    }
}

/// The name of a running balance: starts with `balance_`.
#[derive(Debug, Clone, PartialEq, Eq, Hash, PartialOrd, Ord)]
pub struct LedgerBalanceName(String);

impl View for LedgerBalanceName {
    type V = Seq<char>;

    closed spec fn view(&self) -> Seq<char> {
        self.0@
    }
}

impl LedgerBalanceName {
    pub fn new(value: String) -> (r: Result<LedgerBalanceName, ValidationError>)
        ensures
            has_prefix(value@, balance_prefix()) <==> r is Ok,
            !has_prefix(value@, balance_prefix())
                ==> r == Err::<LedgerBalanceName, _>(ValidationError::BalanceNameWithoutPrefix),
            r matches Ok(b) ==> b@ == value@,
    {
        proof {
            reveal_strlit("balance_");
            assert("balance_"@ =~= balance_prefix());
        }
        if !starts_with(value.as_str(), "balance_") {
            return Err(ValidationError::BalanceNameWithoutPrefix);
        }
        Ok(LedgerBalanceName(value))
    }

    pub fn as_str(&self) -> (r: &str)
        ensures
            r@ == self@,
    {
        self.0.as_str()
    }

    pub fn copy(&self) -> (r: LedgerBalanceName)
        ensures
            r == *self,
    {
        LedgerBalanceName(self.0.clone())
    }

    pub fn same(&self, other: &LedgerBalanceName) -> (r: bool)
        ensures
            r == (self@ == other@),
    {
        self.0 == other.0
    }
}


/// Where an entry stands in its lifecycle.
#[derive(Debug, Clone, Copy, PartialEq, Eq, Structural)]
pub enum EntryStatus {
    /// A live entry.
    Applied,
    /// A historical entry, cancelled by the entry at the given sequence.
    Reverted(u64),
    /// A compensating entry, cancelling the entry at the given sequence.
    Revert(u64),
}

/// A precondition on a balance after the entry is applied.
#[derive(Debug, Clone, PartialEq, Eq)]
pub enum Conditional {
    GreaterThanOrEqualTo { balance: LedgerBalanceName, value: i128 },
}

impl Conditional {
    pub fn copy(&self) -> (r: Conditional)
        ensures
            r == *self,
    {
        match self {
            Conditional::GreaterThanOrEqualTo { balance, value } => Conditional::GreaterThanOrEqualTo {
                balance: balance.copy(),
                value: *value,
            },
        }
    }
}

/// An instant in UTC: seconds since the Unix epoch and the nanoseconds past them.
#[derive(Debug, Clone, Copy, PartialEq, Eq, Structural, Hash, PartialOrd, Ord)]
pub struct Timestamp {
    pub seconds: i64,
    pub nanos: u32,
}

/// The first second of the calendar: January 1 of year -262143, 00:00:00 UTC.
pub const FIRST_SECOND: i64 = -8_334_601_315_200;

/// The last second of the calendar: December 31 of year 262142, 23:59:59 UTC.
pub const LAST_SECOND: i64 = 8_210_266_876_799;

/// An instant on the proleptic Gregorian calendar of years -262143 to
/// 262142, with its nanoseconds below one second.
pub open spec fn representable(t: Timestamp) -> bool {
    FIRST_SECOND <= t.seconds <= LAST_SECOND && t.nanos < 1_000_000_000
}

/// The UTC day number of an instant, rounding toward the past.
pub open spec fn day_of(seconds: int) -> int {
    if seconds >= 0 {
        seconds / 86400
    } else {
        -((-(seconds + 1)) / 86400) - 1
    }
}

/// The first second of an instant's day is at or before it, within a day.
pub proof fn lemma_day_bounds(seconds: int)
    ensures
        day_of(seconds) * 86400 <= seconds < day_of(seconds) * 86400 + 86400,
        seconds >= 0 ==> day_of(seconds) >= 0,
{
    if seconds >= 0 {
        let d = seconds / 86400;
        assert(d * 86400 <= seconds < d * 86400 + 86400 && d >= 0) by (nonlinear_arith)
            requires d == seconds / 86400, seconds >= 0;
    } else {
        let m = -(seconds + 1);
        let q = m / 86400;
        assert(q * 86400 <= m < q * 86400 + 86400) by (nonlinear_arith)
            requires q == m / 86400, m >= 0;
    }
}

/// Midnight of a day lies in that day.
pub proof fn lemma_day_of_midnight(d: int)
    ensures
        day_of(d * 86400) == d,
{
    lemma_day_bounds(d * 86400);
    let e = day_of(d * 86400);
    assert(e == d) by (nonlinear_arith)
        requires e * 86400 <= d * 86400, d * 86400 < e * 86400 + 86400;
}

/// The order of a listing by date.
#[derive(Debug, Clone, Copy, PartialEq, Eq, Structural)]
pub enum Order {
    Asc,
    Desc,
}

/// An entry to append to an account.
#[derive(Debug, Clone, PartialEq, Eq)]
pub struct Entry {
    pub account_id: AccountId,
    pub entry_id: EntryId,
    pub ledger_fields: Vec<(LedgerFieldName, i128)>,
    /// Free-form JSON, kept as its text.
    pub additional_fields: String,
    pub status: EntryStatus,
}

/// An entry with the preconditions that must hold once it is applied.
#[derive(Debug, Clone, PartialEq, Eq)]
pub struct EntryWithConditionals {
    pub entry: Entry,
    pub conditionals: Vec<Conditional>,
}

/// A committed entry with the balance snapshot it produced.
#[derive(Debug, Clone, PartialEq, Eq)]
pub struct EntryWithBalance {
    pub account_id: AccountId,
    pub entry_id: EntryId,
    pub ledger_balances: Vec<(LedgerBalanceName, i128)>,
    pub ledger_fields: Vec<(LedgerFieldName, i128)>,
    pub additional_fields: String,
    pub status: EntryStatus,
    pub sequence: u64,
    pub created_at: Timestamp,
}

/// A request to revert the live entry `entry_id` of an account.
#[derive(Debug, Clone, PartialEq, Eq)]
pub struct DeleteEntryRequest {
    pub account_id: AccountId,
    pub entry_id: EntryId,
}

/// Where a listing of an entry's chain goes on from.
#[derive(Debug, Clone, Copy, PartialEq, Eq, Structural)]
pub enum EntryToContinue {
    Start,
    CurrentEntry,
    Sequence(u64),
}

/// The continuation state of a paginated query.
#[derive(Debug, Clone, PartialEq, Eq)]
pub enum Cursor {
    FromEntriesQuery {
        account_id: AccountId,
        start_date: Timestamp,
        end_date: Timestamp,
        sequence: u64,
        order: Order,
    },
    FromEntryQuery { account_id: AccountId, entry_id: EntryId, entry_to_continue: EntryToContinue },
}

impl Cursor {
    pub fn account_id(&self) -> (r: AccountId)
        ensures
            r == (match self {
                Cursor::FromEntriesQuery { account_id, .. } => *account_id,
                Cursor::FromEntryQuery { account_id, .. } => *account_id,
            }),
    {
        match self {
            Cursor::FromEntriesQuery { account_id, .. } => *account_id,
            Cursor::FromEntryQuery { account_id, .. } => *account_id,
        }
    }
}

/// The view of a list of named amounts: names as text, amounts as integers.
pub open spec fn named_view<N: View<V = Seq<char>>>(v: Seq<(N, i128)>) -> Seq<(Seq<char>, int)> {
    v.map_values(|p: (N, i128)| (p.0@, p.1 as int))
}

/// A copy of a list of field amounts.
pub fn copy_fields(v: &Vec<(LedgerFieldName, i128)>) -> (r: Vec<(LedgerFieldName, i128)>)
    ensures
        r@ == v@,
{
    let mut r: Vec<(LedgerFieldName, i128)> = Vec::new();
    let mut i: usize = 0;
    while i < v.len()
        invariant
            i <= v.len(),
            r@ == v@.subrange(0, i as int),
        decreases v.len() - i,
    {
        r.push((v[i].0.copy(), v[i].1));
        i = i + 1;
        assert(r@ =~= v@.subrange(0, i as int));
    }
    assert(v@.subrange(0, v.len() as int) =~= v@);
    r
}

/// A copy of a list of balances.
pub fn copy_balances(v: &Vec<(LedgerBalanceName, i128)>) -> (r: Vec<(LedgerBalanceName, i128)>)
    ensures
        r@ == v@,
{
    let mut r: Vec<(LedgerBalanceName, i128)> = Vec::new();
    let mut i: usize = 0;
    while i < v.len()
        invariant
            i <= v.len(),
            r@ == v@.subrange(0, i as int),
        decreases v.len() - i,
    {
        r.push((v[i].0.copy(), v[i].1));
        i = i + 1;
        assert(r@ =~= v@.subrange(0, i as int));
    }
    assert(v@.subrange(0, v.len() as int) =~= v@);
    r
}

impl Entry {
    pub fn copy(&self) -> (r: Entry)
        ensures
            r.account_id == self.account_id,
            r.entry_id == self.entry_id,
            r.ledger_fields@ == self.ledger_fields@,
            r.additional_fields == self.additional_fields,
            r.status == self.status,
    {
        Entry {
            account_id: self.account_id,
            entry_id: self.entry_id.copy(),
            ledger_fields: copy_fields(&self.ledger_fields),
            additional_fields: self.additional_fields.clone(),
            status: self.status,
        }
    }

    /// The entry that a committed one was made from.
    pub fn from_entry_with_balance(value: EntryWithBalance) -> (r: Entry)
        ensures
            r.account_id == value.account_id,
            r.entry_id == value.entry_id,
            r.ledger_fields == value.ledger_fields,
            r.additional_fields == value.additional_fields,
            r.status == value.status,
    {
        Entry {
            account_id: value.account_id,
            entry_id: value.entry_id,
            ledger_fields: value.ledger_fields,
            additional_fields: value.additional_fields,
            status: value.status,
        }
    }
}

impl EntryWithConditionals {
    /// An entry without preconditions.
    pub fn from_entry(entry: Entry) -> (r: EntryWithConditionals)
        ensures
            r.entry == entry,
            r.conditionals@.len() == 0,
    {
        EntryWithConditionals { entry, conditionals: Vec::new() }
    }
}

/// Two committed entries hold the same values.
pub open spec fn same_row(a: EntryWithBalance, b: EntryWithBalance) -> bool {
    &&& a.account_id == b.account_id
    &&& a.entry_id == b.entry_id
    &&& a.ledger_balances@ == b.ledger_balances@
    &&& a.ledger_fields@ == b.ledger_fields@
    &&& a.additional_fields == b.additional_fields
    &&& a.status == b.status
    &&& a.sequence == b.sequence
    &&& a.created_at == b.created_at
}

impl EntryWithBalance {
    pub fn copy(&self) -> (r: EntryWithBalance)
        ensures
            same_row(r, *self),
    {
        EntryWithBalance {
            account_id: self.account_id,
            entry_id: self.entry_id.copy(),
            ledger_balances: copy_balances(&self.ledger_balances),
            ledger_fields: copy_fields(&self.ledger_fields),
            additional_fields: self.additional_fields.clone(),
            status: self.status,
            sequence: self.sequence,
            created_at: self.created_at,
        }
    }
}

} // verus!
