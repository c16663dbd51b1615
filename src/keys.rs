//! The storage key schema: partition keys, sort keys and the sort key of the
//! by-date index. Clients and stored data depend on these texts exactly.
use vstd::prelude::*;
use vstd::string::StrSliceExecFns;

use crate::entity::{representable, AccountId, EntryId, Timestamp};
use crate::outside::{uuid_sized, parse_uuid, rfc3339_of, rfc3339_text, uuid_text};
use crate::text::{has_prefix, join, starts_with};

verus! {

/// Digits in bases up to 16, lower case.
pub open spec fn digit_chars() -> Seq<char> {
    seq!['0', '1', '2', '3', '4', '5', '6', '7', '8', '9', 'a', 'b', 'c', 'd', 'e', 'f']
}

/// The last `n` digits of `v` in `base`, most significant first, zero-padded.
pub open spec fn digits(v: nat, base: nat, n: nat) -> Seq<char>
    decreases n,
{
    if n == 0 {
        seq![]
    } else {
        digits(v / base, base, (n - 1) as nat).push(digit_chars()[(v % base) as int])
    }
}

/// The lower-case hyphenated text of a UUID.
pub open spec fn hyphenated(v: u128) -> Seq<char> {
    let h = digits(v as nat, 16, 32);
    h.subrange(0, 8) + seq!['-'] + h.subrange(8, 12) + seq!['-'] + h.subrange(12, 16) + seq!['-']
        + h.subrange(16, 20) + seq!['-'] + h.subrange(20, 32)
}

/// Width of a zero-padded sequence number: every `u64` fits.
pub open spec fn sequence_width() -> nat {
    20
}

/// A sequence number as 20 zero-padded decimal digits.
pub open spec fn padded(s: u64) -> Seq<char> {
    digits(s as nat, 10, sequence_width())
}

pub open spec fn account_prefix() -> Seq<char> {
    seq!['A', 'C', 'C', 'O', 'U', 'N', 'T', '_', 'I', 'D', ':']
}

pub open spec fn entry_infix() -> Seq<char> {
    seq!['|', 'E', 'N', 'T', 'R', 'Y', '_', 'I', 'D', ':']
}

pub open spec fn reverted_prefix() -> Seq<char> {
    "|REVERT_ENTRY_SEQUENCE:"@
}

/// The partition a row lives in.
#[derive(Debug, Clone, PartialEq, Eq)]
pub enum Pk {
    /// All rows of one entry id of an account.
    Entry(AccountId, EntryId),
    /// The HEAD row of an account.
    Balance(AccountId),
}

/// `ACCOUNT_ID:<uuid>|ENTRY_ID:<entry_id>` or `ACCOUNT_ID:<uuid>`.
pub open spec fn pk_text(p: Pk) -> Seq<char> {
    match p {
        Pk::Entry(a, e) => account_prefix() + hyphenated(a.0) + entry_infix() + e@,
        Pk::Balance(a) => account_prefix() + hyphenated(a.0),
    }
}

/// The kind of row within a partition.
#[derive(Debug, Clone, Copy, PartialEq, Eq, Structural)]
pub enum Sk {
    /// The live row of an entry id, and the HEAD row.
    CurrentEntry,
    /// A compensating entry.
    RevertEntry,
    /// A historical row, cancelled by the entry at the given sequence.
    RevertedEntry(u64),
}

/// `|~`, `|REVERT` or `|REVERT_ENTRY_SEQUENCE:<20 digits>`.
pub open spec fn sk_text(s: Sk) -> Seq<char> {
    match s {
        Sk::CurrentEntry => seq!['|', '~'],
        Sk::RevertEntry => seq!['|', 'R', 'E', 'V', 'E', 'R', 'T'],
        Sk::RevertedEntry(n) => reverted_prefix() + padded(n),
    }
}

/// The index sort key of a row: its creation instant, `|`, its padded sequence.
pub open spec fn created_key(t: Timestamp, s: u64) -> Seq<char> {
    rfc3339_of(t) + seq!['|'] + padded(s)
}

/// The one-character text of a digit.
fn digit_text(d: u64) -> (r: &'static str)
    requires
        d < 16,
    ensures
        r@ == seq![digit_chars()[d as int]],
{
    let table = "0123456789abcdef";
    proof {
        reveal_strlit("0123456789abcdef");
        assert(table@ =~= digit_chars());
    }
    let r = table.substring_char(d as usize, d as usize + 1);
    assert(r@ =~= seq![digit_chars()[d as int]]);
    r
}

/// The last `n` decimal digits of `v`, zero-padded.
pub fn decimal_digits(v: u64, n: usize) -> (r: String)
    ensures
        r@ == digits(v as nat, 10, n as nat),
    decreases n,
{
    if n == 0 {
        String::new()
    } else {
        let mut s = decimal_digits(v / 10, n - 1);
        s.append(digit_text(v % 10));
        s
    }
}

/// A sequence number as 20 zero-padded decimal digits, so that the order of
/// the texts is the order of the numbers.
pub fn padded_sequence(s: u64) -> (r: String)
    ensures
        r@ == padded(s),
{
    decimal_digits(s, 20)
}

impl Pk {
    pub fn text(&self) -> (r: String)
        ensures
            r@ == pk_text(*self),
    {
        proof {
            reveal_strlit("ACCOUNT_ID:");
            reveal_strlit("|ENTRY_ID:");
            assert("ACCOUNT_ID:"@ =~= account_prefix());
            assert("|ENTRY_ID:"@ =~= entry_infix());
        }
        match self {
            Pk::Entry(a, e) => {
                let u = uuid_text(a.0);
                let s = join("ACCOUNT_ID:", u.as_str());
                let s = join(s.as_str(), "|ENTRY_ID:");
                join(s.as_str(), e.as_str())
            },
            Pk::Balance(a) => {
                let u = uuid_text(a.0);
                join("ACCOUNT_ID:", u.as_str())
            },
        }
    }
}

impl Sk {
    pub fn text(&self) -> (r: String)
        ensures
            r@ == sk_text(*self),
    {
        proof {
            reveal_strlit("|~");
            reveal_strlit("|REVERT");
            assert("|~"@ =~= seq!['|', '~']);
            assert("|REVERT"@ =~= seq!['|', 'R', 'E', 'V', 'E', 'R', 'T']);
        }
        match self {
            Sk::CurrentEntry => String::from_str("|~"),
            Sk::RevertEntry => String::from_str("|REVERT"),
            Sk::RevertedEntry(n) => {
                let p = padded_sequence(*n);
                join("|REVERT_ENTRY_SEQUENCE:", p.as_str())
            },
        }
    }
}

/// No digit is the separator `|`.
pub proof fn lemma_digits_no_separator(v: nat, base: nat, n: nat)
    requires
        0 < base <= 16,
    ensures
        !digits(v, base, n).contains('|'),
        digits(v, base, n).len() == n,
    decreases n,
{
    if n > 0 {
        lemma_digits_no_separator(v / base, base, (n - 1) as nat);
        let d = digits(v / base, base, (n - 1) as nat);
        assert(digits(v, base, n) == d.push(digit_chars()[(v % base) as int]));
        assert forall|k: int| 0 <= k < n implies digits(v, base, n)[k] != '|' by {
            if k < n - 1 {
                assert(digits(v, base, n)[k] == d[k]);
            }
        }
    }
}

/// The text of a UUID is 36 characters long and holds no `|`.
pub proof fn lemma_hyphenated_no_separator(v: u128)
    ensures
        !hyphenated(v).contains('|'),
        hyphenated(v).len() == 36,
{
    lemma_digits_no_separator(v as nat, 16, 32);
    let h = digits(v as nat, 16, 32);
    assert forall|k: int| 0 <= k < hyphenated(v).len() implies hyphenated(v)[k] != '|' by {
        if k < 8 {
            assert(hyphenated(v)[k] == h[k]);
        } else if k == 8 || k == 13 || k == 18 || k == 23 {
        } else if k < 13 {
            assert(hyphenated(v)[k] == h[k - 1]);
        } else if k < 18 {
            assert(hyphenated(v)[k] == h[k - 2]);
        } else if k < 23 {
            assert(hyphenated(v)[k] == h[k - 3]);
        } else {
            assert(hyphenated(v)[k] == h[k - 4]);
        }
    }
}

/// The index of the first `|` in `s`, if any.
fn find_separator(s: &str) -> (r: Option<usize>)
    ensures
        r is None ==> !s@.contains('|'),
        r matches Some(i) ==> i < s@.len() && s@[i as int] == '|' && forall|k: int| 0 <= k < i ==> s@[k] != '|',
{
    let n = s.unicode_len();
    let mut i: usize = 0;
    while i < n
        invariant
            n == s@.len(),
            i <= n,
            forall|k: int| 0 <= k < i ==> s@[k] != '|',
        decreases n - i,
    {
        if s.get_char(i) == '|' {
            return Some(i);
        }
        i = i + 1;
    }
    None
}

/// The account of a text that starts with `ACCOUNT_ID:`.
fn parse_account(s: &str) -> (r: Option<AccountId>)
    ensures
        forall|a: AccountId| s@ == account_prefix() + hyphenated(a.0) ==> r == Some(a),
        r is Some ==> has_prefix(s@, account_prefix()),
        forall|rest: Seq<char>| s@ == account_prefix() + rest && !uuid_sized(rest) ==> r is None,
{
    proof {
        reveal_strlit("ACCOUNT_ID:");
        assert("ACCOUNT_ID:"@ =~= account_prefix());
    }
    if !starts_with(s, "ACCOUNT_ID:") {
        proof {
            assert forall|a: AccountId| s@ != account_prefix() + hyphenated(a.0) by {
                if s@ == account_prefix() + hyphenated(a.0) {
                    assert(s@.subrange(0, 11) =~= account_prefix());
                }
            }
        }
        return None;
    }
    let n = s.unicode_len();
    let rest = s.substring_char(11, n);
    proof {
        assert forall|a: AccountId| s@ == account_prefix() + hyphenated(a.0) implies rest@ == hyphenated(a.0) by {
            assert(rest@ =~= hyphenated(a.0));
        }
        assert forall|x: Seq<char>| s@ == account_prefix() + x implies rest@ == x by {
            assert(rest@ =~= x);
        }
    }
    match parse_uuid(rest) {
        Some(v) => Some(AccountId(v)),
        None => None,
    }
}

impl Pk {
    /// Reads a partition key back: the key of any account and entry id reads
    /// back as that account and that entry id.
    pub fn parse(s: &str) -> (r: Option<Pk>)
        ensures
            forall|a: AccountId| s@ == pk_text(Pk::Balance(a)) ==> r == Some(Pk::Balance(a)),
            forall|a: AccountId, e: EntryId| s@ == pk_text(Pk::Entry(a, e)) ==>
                (r matches Some(Pk::Entry(a2, e2)) && a2 == a && e2@ == e@),
            !has_prefix(s@, account_prefix()) ==> r is None,
            forall|u: Seq<char>| s@ == account_prefix() + u && !u.contains('|') && !uuid_sized(u) ==> r is None,
            forall|u: Seq<char>, tail: Seq<char>| s@ == account_prefix() + u + tail && !u.contains('|')
                && tail.len() > 0 && tail[0] == '|' && !uuid_sized(u) ==> r is None,
            forall|i: int| 0 <= i < s@.len() && s@[i] == '|' && (forall|k: int| 0 <= k < i ==> s@[k] != '|')
                && !has_prefix(s@.subrange(i, s@.len() as int), entry_infix()) ==> r is None,
    {
        proof {
            reveal_strlit("|ENTRY_ID:");
            assert("|ENTRY_ID:"@ =~= entry_infix());
            assert forall|a: AccountId| !(#[trigger] hyphenated(a.0)).contains('|') && hyphenated(a.0).len() == 36 by {
                lemma_hyphenated_no_separator(a.0);
            }
        }
        let n = s.unicode_len();
        match find_separator(s) {
            None => {
                proof {
                    assert forall|a: AccountId, e: EntryId| s@ != pk_text(Pk::Entry(a, e)) by {
                        if s@ == pk_text(Pk::Entry(a, e)) {
                            assert(s@[47] == '|');
                        }
                    }
                    assert forall|u: Seq<char>, tail: Seq<char>| !(s@ == account_prefix() + u + tail && tail.len() > 0 && tail[0] == '|') by {
                        if s@ == account_prefix() + u + tail && tail.len() > 0 && tail[0] == '|' {
                            assert(s@[11 + u.len() as int] == '|');
                        }
                    }
                }
                match parse_account(s) {
                    Some(a) => Some(Pk::Balance(a)),
                    None => None,
                }
            },
            Some(i) => {
                proof {
                    assert forall|a: AccountId| s@ != pk_text(Pk::Balance(a)) by {
                        if s@ == pk_text(Pk::Balance(a)) {
                            assert(s@[i as int] == hyphenated(a.0)[i - 11]);
                        }
                    }
                }
                let head = s.substring_char(0, i);
                let tail = s.substring_char(i, n);
                proof {
                    assert forall|u: Seq<char>| !(s@ == account_prefix() + u && !u.contains('|')) by {
                        if s@ == account_prefix() + u && !u.contains('|') {
                            if i < 11 {
                                assert(s@[i as int] == account_prefix()[i as int]);
                            } else {
                                assert(s@[i as int] == u[i - 11]);
                            }
                        }
                    }
                    assert forall|u: Seq<char>, tl: Seq<char>| s@ == account_prefix() + u + tl && !u.contains('|')
                        && tl.len() > 0 && tl[0] == '|' implies head@ == account_prefix() + u by {
                        let j: int = 11 + u.len() as int;
                        assert(s@[j] == '|');
                        if i < j {
                            if i < 11 {
                                assert(s@[i as int] == account_prefix()[i as int]);
                            } else {
                                assert(s@[i as int] == u[i - 11]);
                            }
                        }
                        if i > j {
                            assert(s@[j] != '|');
                        }
                        assert(head@ =~= account_prefix() + u);
                    }
                    assert forall|a: AccountId, e: EntryId| s@ == pk_text(Pk::Entry(a, e)) implies
                        head@ == account_prefix() + hyphenated(a.0) && tail@ == entry_infix() + e@ by {
                        if i < 47 {
                            if i < 11 {
                                assert(s@[i as int] == account_prefix()[i as int]);
                            } else {
                                assert(s@[i as int] == hyphenated(a.0)[i - 11]);
                            }
                        }
                        if i > 47 {
                            assert(s@[47] == '|');
                        }
                        assert(head@ =~= account_prefix() + hyphenated(a.0));
                        assert(tail@ =~= entry_infix() + e@);
                    }
                }
                assert forall|j: int| 0 <= j < s@.len() && s@[j] == '|' && (forall|k: int| 0 <= k < j ==> s@[k] != '|') implies j == i by {
                    if j < i {
                        assert(s@[j] != '|');
                    } else if j > i {
                        assert(s@[i as int] != '|');
                    }
                }
                assert(tail@ =~= s@.subrange(i as int, s@.len() as int));
                if !starts_with(tail, "|ENTRY_ID:") {
                    proof {
                        assert forall|a: AccountId, e: EntryId| s@ != pk_text(Pk::Entry(a, e)) by {
                            if s@ == pk_text(Pk::Entry(a, e)) {
                                assert(tail@.subrange(0, 10) =~= entry_infix());
                            }
                        }
                    }
                    return None;
                }
                let m = tail.unicode_len();
                let id = tail.substring_char(10, m);
                proof {
                    assert forall|a: AccountId, e: EntryId| s@ == pk_text(Pk::Entry(a, e)) implies id@ == e@ by {
                        assert(id@ =~= e@);
                    }
                }
                match parse_account(head) {
                    Some(a) => {
                        assert(s@.subrange(0, 11) =~= head@.subrange(0, 11));
                        Some(Pk::Entry(a, EntryId::new_unchecked(id.to_string())))
                    },
                    None => None,
                }
            },
        }
    }
}

/// The index sort key of a row created at `t` with sequence `s`; `None` where
/// the instant has no calendar form.
pub fn created_at_key(t: Timestamp, s: u64) -> (r: Option<String>)
    ensures
        r matches Some(k) ==> k@ == created_key(t, s),
        representable(t) ==> r is Some,
{
    match rfc3339_text(t) {
        None => None,
        Some(ts) => {
            proof {
                reveal_strlit("|");
            }
            let k = join(ts.as_str(), "|");
            let p = padded_sequence(s);
            Some(join(k.as_str(), p.as_str()))
        },
    }
}

} // verus!
