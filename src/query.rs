//! The read side: the sort-key predicate and the cursor of an entry's chain,
//! and the day-by-day scan of the by-date index with its cursor.
use vstd::prelude::*;

use crate::entity::{day_of, lemma_day_bounds, lemma_day_of_midnight, representable, AccountId, Cursor, EntryId, EntryStatus, EntryToContinue, EntryWithBalance, Order, Timestamp};
use crate::error::GetBalanceError;
use crate::keys::{created_at_key, created_key, hyphenated, sk_text, Sk};
use crate::outside::{rfc3339_of, rfc3339_text, utc_date_of, utc_date_text, uuid_text};
use crate::text::join;

verus! {

/// A predicate on the sort key of an entry's partition.
#[derive(Debug, Clone, PartialEq, Eq)]
pub enum SkCondition {
    BeginsWith(String),
    LessThan(String),
}

/// The sort-key predicate of a reverse scan of an entry's chain: every row
/// from the start, rows below the live one, or rows strictly older than the
/// historical row that was listed last.
pub fn chain_condition(c: EntryToContinue) -> (r: SkCondition)
    ensures
        c is Start ==> (r matches SkCondition::BeginsWith(p) && p@ == seq!['|']),
        c is CurrentEntry ==> (r matches SkCondition::LessThan(p) && p@ == sk_text(Sk::CurrentEntry)),
        c matches EntryToContinue::Sequence(s) ==> (r matches SkCondition::LessThan(p) && p@ == sk_text(Sk::RevertedEntry(s))),
{
    match c {
        EntryToContinue::Start => {
            proof {
                reveal_strlit("|");
                assert("|"@ =~= seq!['|']);
            }
            SkCondition::BeginsWith(String::from_str("|"))
        },
        EntryToContinue::CurrentEntry => SkCondition::LessThan(Sk::CurrentEntry.text()),
        EntryToContinue::Sequence(s) => SkCondition::LessThan(Sk::RevertedEntry(s).text()),
    }
}

/// An empty chain read from the start means the entry id is unknown.
pub fn chain_result(account_id: AccountId, c: EntryToContinue, entries: Vec<EntryWithBalance>) -> (r: Result<Vec<EntryWithBalance>, GetBalanceError>)
    ensures
        entries@.len() == 0 && c is Start ==> r == Err::<Vec<EntryWithBalance>, _>(GetBalanceError::NotFound(account_id)),
        !(entries@.len() == 0 && c is Start) ==> r == Ok::<_, GetBalanceError>(entries),
{
    if entries.len() == 0 {
        if let EntryToContinue::Start = c {
            return Err(GetBalanceError::NotFound(account_id));
        }
    }
    Ok(entries)
}

/// Where a chain listing goes on after `last`: below the live row, or below
/// the historical row with its sequence.
pub open spec fn continue_after(last: EntryWithBalance) -> EntryToContinue {
    match last.status {
        EntryStatus::Applied => EntryToContinue::CurrentEntry,
        _ => EntryToContinue::Sequence(last.sequence),
    }
}

/// The cursor of a page of an entry's chain: none where the page is shorter
/// than `limit` or empty, else one that goes on after its last row.
pub fn entry_chain_cursor(account_id: AccountId, entry_id: &EntryId, entries: &Vec<EntryWithBalance>, limit: u8) -> (r: Option<Cursor>)
    ensures
        (entries@.len() < limit || entries@.len() == 0) <==> r is None,
        r matches Some(Cursor::FromEntryQuery { account_id: a, entry_id: e, entry_to_continue: t }) ==>
            a == account_id && e@ == entry_id@ && t == continue_after(entries@.last()),
        r matches Some(c) ==> c is FromEntryQuery,
{
    if entries.len() < limit as usize || entries.len() == 0 {
        return None;
    }
    let last = &entries[entries.len() - 1];
    let t = match last.status {
        EntryStatus::Applied => EntryToContinue::CurrentEntry,
        _ => EntryToContinue::Sequence(last.sequence),
    };
    Some(Cursor::FromEntryQuery { account_id, entry_id: entry_id.copy(), entry_to_continue: t })
}

/// The query of a date-range cursor.
pub fn entries_cursor_query(cursor: Cursor) -> (r: Result<(AccountId, Timestamp, Timestamp, Order, u64), GetBalanceError>)
    ensures
        cursor matches Cursor::FromEntriesQuery { account_id, start_date, end_date, sequence, order } ==>
            r == Ok::<_, GetBalanceError>((account_id, start_date, end_date, order, sequence)),
        cursor is FromEntryQuery ==> r matches Err(GetBalanceError::Other(_)),
{
    match cursor {
        Cursor::FromEntriesQuery { account_id, start_date, end_date, sequence, order } => Ok((account_id, start_date, end_date, order, sequence)),
        Cursor::FromEntryQuery { .. } => Err(GetBalanceError::Other(String::from_str("Invalid cursor"))),
    }
}

/// The query of an entry-chain cursor.
pub fn entry_cursor_query(cursor: Cursor) -> (r: Result<(AccountId, EntryId, EntryToContinue), GetBalanceError>)
    ensures
        cursor matches Cursor::FromEntryQuery { account_id, entry_id, entry_to_continue } ==>
            r == Ok::<_, GetBalanceError>((account_id, entry_id, entry_to_continue)),
        cursor is FromEntriesQuery ==> r matches Err(GetBalanceError::Other(_)),
{
    match cursor {
        Cursor::FromEntryQuery { account_id, entry_id, entry_to_continue } => Ok((account_id, entry_id, entry_to_continue)),
        Cursor::FromEntriesQuery { .. } => Err(GetBalanceError::Other(String::from_str("Invalid cursor"))),
    }
}

/// Seconds in a day.
pub const DAY_SECONDS: i64 = 86400;

/// The UTC day number of an instant.
pub fn day_number(seconds: i64) -> (r: i64)
    ensures
        r == day_of(seconds as int),
        r * 86400 <= seconds < r * 86400 + 86400,
{
    if seconds >= 0 {
        let r = seconds / DAY_SECONDS;
        assert(r * 86400 <= seconds < r * 86400 + 86400) by (nonlinear_arith)
            requires r == seconds / 86400, seconds >= 0;
        r
    } else {
        let m = -(seconds + 1);
        let q = m / DAY_SECONDS;
        assert(q * 86400 <= m < q * 86400 + 86400) by (nonlinear_arith)
            requires q == m / 86400, m >= 0;
        -q - 1
    }
}

/// One query of the by-date index: a day's partition, an inclusive range of
/// sort keys, a page size and a direction.
#[derive(Debug)]
pub struct IndexQuery {
    pub partition: String,
    pub low: String,
    pub high: String,
    pub limit: u32,
    pub forward: bool,
}

/// A scan of an account's entries created in `[start, end]`, one UTC day at
/// a time in the direction of `order`, that stops once more than `limit`
/// entries are read or the far day is done.
#[derive(Debug)]
pub struct DateScan {
    pub account_id: AccountId,
    pub start: Timestamp,
    pub end: Timestamp,
    pub order: Order,
    pub limit: u8,
    /// The sequence of the last entry of the previous page, which is excluded.
    pub after: Option<u64>,
    pub day: i64,
    pub first_day: i64,
    pub last_day: i64,
    pub result: Vec<EntryWithBalance>,
    pub done: bool,
}

/// `a` is a later instant than `b`.
pub open spec fn after_instant(a: Timestamp, b: Timestamp) -> bool {
    a.seconds > b.seconds || (a.seconds == b.seconds && a.nanos > b.nanos)
}

/// The scan is between its first and last day.
pub open spec fn scan_wf(s: DateScan) -> bool {
    &&& s.first_day <= s.day <= s.last_day || s.done
    &&& s.first_day == day_of(s.start.seconds as int)
    &&& s.last_day == day_of(s.end.seconds as int)
}

impl DateScan {
    /// A scan that starts at the day of `start` (ascending) or `end`
    /// (descending); a reversed range has nothing to scan.
    pub fn new(account_id: AccountId, start: Timestamp, end: Timestamp, limit: u8, order: Order, after: Option<u64>) -> (r: DateScan)
        ensures
            scan_wf(r),
            r.account_id == account_id && r.start == start && r.end == end && r.limit == limit,
            r.order == order && r.after == after,
            r.result@.len() == 0,
            r.done == (after_instant(start, end) || day_of(start.seconds as int) > day_of(end.seconds as int)),
            !r.done ==> r.day == (if order == Order::Asc { r.first_day } else { r.last_day }),
    {
        let first_day = day_number(start.seconds);
        let last_day = day_number(end.seconds);
        let day = match order {
            Order::Asc => first_day,
            Order::Desc => last_day,
        };
        DateScan {
            account_id,
            start,
            end,
            order,
            limit,
            after,
            day,
            first_day,
            last_day,
            result: Vec::new(),
            done: start.seconds > end.seconds || (start.seconds == end.seconds && start.nanos > end.nanos)
                || first_day > last_day,
        }
    }

    /// The next query, or `None` when the scan is over or an instant has no
    /// calendar form. The range runs from the start instant (or, ascending
    /// after a cursor, just after the cursor's entry) to the end instant (or,
    /// descending after a cursor, just before the cursor's entry).
    pub fn next_query(&self) -> (r: Option<IndexQuery>)
        requires
            scan_wf(*self),
        ensures
            self.done ==> r is None,
            !self.done && self.result@.len() <= self.limit && representable(self.start) && representable(self.end) ==> r is Some,
            r matches Some(q) ==> {
                &&& q.partition@ == hyphenated(self.account_id.0) + seq!['|'] + utc_date_of(self.day as int)
                &&& q.forward == (self.order == Order::Asc)
                &&& q.limit == self.limit - self.result@.len() + 1
                &&& q.low@ == (match (self.order, self.after) {
                    (Order::Asc, Some(s)) => if s < u64::MAX { created_key(self.start, (s + 1) as u64) } else { created_key(self.start, s) + seq!['~'] },
                    _ => rfc3339_of(self.start),
                })
                &&& q.high@ == (match (self.order, self.after) {
                    (Order::Desc, Some(s)) => if s > 0 { created_key(self.end, (s - 1) as u64) } else { rfc3339_of(self.end) },
                    _ => created_key(self.end, u64::MAX),
                })
            },
    {
        if self.done || self.result.len() > self.limit as usize {
            return None;
        }
        proof {
            lemma_day_of_midnight(self.day as int);
            if representable(self.start) && representable(self.end) {
                lemma_day_bounds(self.start.seconds as int);
                lemma_day_bounds(self.end.seconds as int);
            }
        }
        let midnight = match self.day.checked_mul(DAY_SECONDS) {
            Some(m) => m,
            None => {
                return None;
            },
        };
        let date = match utc_date_text(midnight) {
            Some(d) => d,
            None => {
                return None;
            },
        };
        proof {
            reveal_strlit("|");
            reveal_strlit("~");
            assert("|"@ =~= seq!['|']);
            assert("~"@ =~= seq!['~']);
        }
        let u = uuid_text(self.account_id.0);
        let p = join(u.as_str(), "|");
        let partition = join(p.as_str(), date.as_str());
        let low = match (self.order, self.after) {
            (Order::Asc, Some(s)) => {
                if s < u64::MAX {
                    match created_at_key(self.start, s + 1) {
                        Some(k) => k,
                        None => {
                            return None;
                        },
                    }
                } else {
                    match created_at_key(self.start, s) {
                        Some(k) => join(k.as_str(), "~"),
                        None => {
                            return None;
                        },
                    }
                }
            },
            _ => match rfc3339_text(self.start) {
                Some(k) => k,
                None => {
                    return None;
                },
            },
        };
        let high = match (self.order, self.after) {
            (Order::Desc, Some(s)) => {
                if s > 0 {
                    match created_at_key(self.end, s - 1) {
                        Some(k) => k,
                        None => {
                            return None;
                        },
                    }
                } else {
                    match rfc3339_text(self.end) {
                        Some(k) => k,
                        None => {
                            return None;
                        },
                    }
                }
            },
            _ => match created_at_key(self.end, u64::MAX) {
                Some(k) => k,
                None => {
                    return None;
                },
            },
        };
        let limit = (self.limit as u32 - self.result.len() as u32) + 1;
        Some(IndexQuery { partition, low, high, limit, forward: self.order == Order::Asc })
    }

    /// Takes in the rows of the last query; the scan ends once more than
    /// `limit` rows are in, or the far day is done, else moves one day on.
    pub fn on_page(&mut self, rows: Vec<EntryWithBalance>)
        requires
            scan_wf(*old(self)),
            !old(self).done,
        ensures
            scan_wf(*final(self)),
            final(self).result@ == old(self).result@ + rows@,
            final(self).account_id == old(self).account_id && final(self).start == old(self).start,
            final(self).end == old(self).end && final(self).order == old(self).order,
            final(self).limit == old(self).limit && final(self).after == old(self).after,
            final(self).done == (final(self).result@.len() > old(self).limit
                || (old(self).order == Order::Asc && old(self).day == old(self).last_day)
                || (old(self).order == Order::Desc && old(self).day == old(self).first_day)),
            !final(self).done ==> final(self).day == (if old(self).order == Order::Asc { old(self).day + 1 } else { old(self).day - 1 }),
    {
        let mut rows = rows;
        self.result.append(&mut rows);
        if self.result.len() > self.limit as usize {
            self.done = true;
            return;
        }
        match self.order {
            Order::Asc => {
                if self.day == self.last_day {
                    self.done = true;
                } else {
                    self.day = self.day + 1;
                }
            },
            Order::Desc => {
                if self.day == self.first_day {
                    self.done = true;
                } else {
                    self.day = self.day - 1;
                }
            },
        }
    }

    /// The page: the first `limit` rows read, and a cursor where the page is
    /// full, which goes on after its last row: the range bound on the side the
    /// scan came from moves to that row's instant, and its sequence is kept.
    pub fn finish(self) -> (r: (Vec<EntryWithBalance>, Option<Cursor>))
        ensures
            r.0@ == (if self.result@.len() > self.limit { self.result@.subrange(0, self.limit as int) } else { self.result@ }),
            (r.0@.len() == 0 || r.0@.len() < self.limit) <==> r.1 is None,
            r.1 matches Some(c) ==> c == (if self.order == Order::Asc {
                Cursor::FromEntriesQuery {
                    account_id: self.account_id,
                    start_date: r.0@.last().created_at,
                    end_date: self.end,
                    sequence: r.0@.last().sequence,
                    order: self.order,
                }
            } else {
                Cursor::FromEntriesQuery {
                    account_id: self.account_id,
                    start_date: self.start,
                    end_date: r.0@.last().created_at,
                    sequence: r.0@.last().sequence,
                    order: self.order,
                }
            }),
    {
        let mut result = self.result;
        if result.len() > self.limit as usize {
            result.truncate(self.limit as usize);
        }
        if result.len() == 0 || result.len() < self.limit as usize {
            return (result, None);
        }
        let last = &result[result.len() - 1];
        let cursor = match self.order {
            Order::Asc => Cursor::FromEntriesQuery {
                account_id: self.account_id,
                start_date: last.created_at,
                end_date: self.end,
                sequence: last.sequence,
                order: self.order,
            },
            Order::Desc => Cursor::FromEntriesQuery {
                account_id: self.account_id,
                start_date: self.start,
                end_date: last.created_at,
                sequence: last.sequence,
                order: self.order,
            },
        };
        (result, Some(cursor))
    }
}

/// Largest page a listing may ask for.
pub const MAX_PAGE: u8 = 100;

/// The page size of a listing: accepted from 1 to 100, refused otherwise.
pub fn page_limit(limit: u8) -> (r: Option<u8>)
    ensures
        r is Some <==> 1 <= limit <= MAX_PAGE,
        r matches Some(l) ==> l == limit,
{
    if limit == 0 || limit > MAX_PAGE {
        None
    } else {
        Some(limit)
    }
}

} // verus!
