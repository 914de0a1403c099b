use vstd::prelude::*;
use vstd::string::StringSliceAdditionalSpecFns;

use crate::error::AppError;

verus! {

/// The five kinds of record that the input stream carries.
#[derive(Debug, Clone, Copy, PartialEq, Eq)]
pub enum TransactionType {
    Deposit,
    Withdrawal,
    Dispute,
    Resolve,
    Chargeback,
}

/// One input record. `amount` is counted in ten-thousandths and is present
/// on deposits and withdrawals only.
#[derive(Debug, Clone, Copy, PartialEq, Eq)]
pub struct TransactionRecord {
    pub kind: TransactionType,
    pub client: u16,
    pub tx: u32,
    pub amount: Option<u64>,
}

/// A whole input stream, in arrival order.
#[derive(Debug, Clone)]
pub struct Transaction {
    pub transactions: Vec<TransactionRecord>,
}

/// The ledger entry kept for each deposit that was applied.
#[derive(Debug, Clone, Copy, PartialEq, Eq)]
pub struct TransactionStatus {
    pub deposited: TransactionRecord,
    pub disputed: bool,
    pub charged_back: bool,
    pub resolved: bool,
}

impl TransactionStatus {
    /// The entry that a freshly applied deposit gets.
    pub open spec fn fresh(record: TransactionRecord) -> TransactionStatus {
        TransactionStatus { deposited: record, disputed: false, charged_back: false, resolved: false }
    }
}

pub open spec fn is_digit(b: u8) -> bool {
    48 <= b <= 57
}

pub open spec fn all_digits(s: Seq<u8>) -> bool {
    forall|i: int| 0 <= i < s.len() ==> is_digit(#[trigger] s[i])
}

/// The number that a string of ASCII digits writes in base ten.
pub open spec fn digits_value(s: Seq<u8>) -> nat
    decreases s.len(),
{
    if s.len() == 0 {
        0
    } else {
        digits_value(s.drop_last()) * 10 + (s.last() - 48) as nat
    }
}

/// The value of a nonempty string of digits that is at most `max`.
pub open spec fn number_of(s: Seq<u8>, max: nat) -> Option<nat> {
    if s.len() > 0 && all_digits(s) && digits_value(s) <= max {
        Some(digits_value(s))
    } else {
        None
    }
}

/// `s` is digits, a point at `k`, then one to four digits.
pub open spec fn is_point_at(s: Seq<u8>, k: int) -> bool {
    &&& 0 < k < s.len()
    &&& s[k] == 46
    &&& all_digits(s.take(k))
    &&& all_digits(s.skip(k + 1))
    &&& 1 <= s.len() - k - 1 <= 4
}

/// The weight, in ten-thousandths, of the last of `n` fractional digits.
pub open spec fn fraction_weight(n: int) -> nat {
    if n == 1 {
        1000
    } else if n == 2 {
        100
    } else if n == 3 {
        10
    } else {
        1
    }
}

/// The value in ten-thousandths of a non-negative decimal: digits,
/// optionally followed by a point and one to four digits.
pub open spec fn amount_value(s: Seq<u8>) -> Option<nat> {
    if s.len() > 0 && all_digits(s) {
        Some(digits_value(s) * 10000)
    } else if exists|k: int| is_point_at(s, k) {
        let k = choose|k: int| is_point_at(s, k);
        Some(digits_value(s.take(k)) * 10000 + digits_value(s.skip(k + 1)) * fraction_weight(
            s.len() - k - 1,
        ))
    } else {
        None
    }
}

/// The amount field of a record: absent when empty, else a decimal that
/// fits in a `u64` of ten-thousandths.
pub open spec fn amount_field(s: Seq<u8>) -> Option<Option<u64>> {
    if s.len() == 0 {
        Some(None)
    } else {
        match amount_value(s) {
            Some(v) => if v <= u64::MAX {
                Some(Some(v as u64))
            } else {
                None
            },
            None => None,
        }
    }
}

/// The record type that a lowercase token names.
pub open spec fn kind_of(t: Seq<u8>) -> Option<TransactionType> {
    if t == "deposit".spec_bytes() {
        Some(TransactionType::Deposit)
    } else if t == "withdrawal".spec_bytes() {
        Some(TransactionType::Withdrawal)
    } else if t == "dispute".spec_bytes() {
        Some(TransactionType::Dispute)
    } else if t == "resolve".spec_bytes() {
        Some(TransactionType::Resolve)
    } else if t == "chargeback".spec_bytes() {
        Some(TransactionType::Chargeback)
    } else {
        None
    }
}

/// The record that four trimmed fields `type,client,tx,amount` describe.
pub open spec fn record_of(kind: Seq<u8>, client: Seq<u8>, tx: Seq<u8>, amount: Seq<u8>) -> Option<TransactionRecord> {
    match (kind_of(kind), number_of(client, u16::MAX as nat), number_of(tx, u32::MAX as nat), amount_field(amount)) {
        (Some(k), Some(c), Some(t), Some(a)) => Some(TransactionRecord { kind: k, client: c as u16, tx: t as u32, amount: a }),
        _ => None,
    }
}

pub open spec fn pow10(n: nat) -> nat
    decreases n,
{
    if n == 0 {
        1
    } else {
        10 * pow10((n - 1) as nat)
    }
}

/// `n` digits write a number below `10^n`.
proof fn lemma_digits_value_below(s: Seq<u8>)
    requires
        all_digits(s),
    ensures
        digits_value(s) < pow10(s.len()),
    decreases s.len(),
{
    if s.len() > 0 {
        lemma_digits_value_below(s.drop_last());
    }
}

/// A prefix of a string of digits is worth no more than the whole.
proof fn lemma_prefix_value_le(s: Seq<u8>, i: int)
    requires
        all_digits(s),
        0 <= i <= s.len(),
    ensures
        digits_value(s.take(i)) <= digits_value(s),
    decreases s.len(),
{
    if i < s.len() {
        assert(s.drop_last().take(i) =~= s.take(i));
        lemma_prefix_value_le(s.drop_last(), i);
    } else {
        assert(s.take(i) =~= s);
    }
}

fn bytes_equal(a: &[u8], b: &[u8]) -> (r: bool)
    ensures
        r == (a@ == b@),
{
    if a.len() != b.len() {
        return false;
    }
    let mut i: usize = 0;
    while i < a.len()
        invariant
            i <= a@.len(),
            a@.len() == b@.len(),
            forall|k: int| 0 <= k < i ==> a@[k] == b@[k],
        decreases a@.len() - i,
    {
        if a[i] != b[i] {
            return false;
        }
        i = i + 1;
    }
    assert(a@ =~= b@);
    true
}

impl TransactionType {
    /// The record type that a lowercase token names (`deposit`,
    /// `withdrawal`, `dispute`, `resolve`, `chargeback`).
    pub fn from_token(t: &[u8]) -> (r: Option<TransactionType>)
        ensures
            r == kind_of(t@),
    {
        if bytes_equal(t, "deposit".as_bytes()) {
            Some(TransactionType::Deposit)
        } else if bytes_equal(t, "withdrawal".as_bytes()) {
            Some(TransactionType::Withdrawal)
        } else if bytes_equal(t, "dispute".as_bytes()) {
            Some(TransactionType::Dispute)
        } else if bytes_equal(t, "resolve".as_bytes()) {
            Some(TransactionType::Resolve)
        } else if bytes_equal(t, "chargeback".as_bytes()) {
            Some(TransactionType::Chargeback)
        } else {
            None
        }
    }
}

/// Reads the digits `s[start..end]` as a base-ten number no larger than `max`.
fn parse_digits(s: &[u8], start: usize, end: usize, max: u64) -> (r: Option<u64>)
    requires
        start <= end <= s@.len(),
    ensures
        r == match number_of(s@.subrange(start as int, end as int), max as nat) {
            Some(v) => Some(v as u64),
            None => None::<u64>,
        },
{
    let ghost t = s@.subrange(start as int, end as int);
    if start == end {
        return None;
    }
    let mut acc: u64 = 0;
    let mut i: usize = start;
    while i < end
        invariant
            start <= i <= end <= s@.len(),
            t == s@.subrange(start as int, end as int),
            all_digits(t.take(i - start)),
            acc == digits_value(t.take(i - start)),
            acc <= max,
        decreases end - i,
    {
        let b = s[i];
        if b < 48 || b > 57 {
            assert(!is_digit(t[i - start]));
            return None;
        }
        assert(t.take(i - start + 1).drop_last() =~= t.take(i - start));
        let next: u128 = acc as u128 * 10 + (b - 48) as u128;
        if next > max as u128 {
            proof {
                if all_digits(t) {
                    lemma_prefix_value_le(t, i - start + 1);
                }
            }
            return None;
        }
        acc = next as u64;
        i = i + 1;
    }
    assert(t.take(i - start) =~= t);
    Some(acc)
}

/// Reads a non-negative decimal with at most four fractional digits as a
/// count of ten-thousandths (`100.5` gives `1005000`). `None` when the text
/// is no such decimal or its value does not fit in a `u64`.
pub fn parse_amount(s: &[u8]) -> (r: Option<u64>)
    ensures
        r == match amount_value(s@) {
            Some(v) => if v <= u64::MAX {
                Some(v as u64)
            } else {
                None::<u64>
            },
            None => None::<u64>,
        },
{
    let mut i: usize = 0;
    while i < s.len() && s[i] >= 48 && s[i] <= 57
        invariant
            i <= s@.len(),
            all_digits(s@.take(i as int)),
        decreases s@.len() - i,
    {
        assert(s@.take(i as int + 1) =~= s@.take(i as int).push(s@[i as int]));
        i = i + 1;
    }
    if i == 0 {
        proof {
            if s@.len() > 0 {
                assert(!is_digit(s@[0]));
            }
            assert forall|k: int| !is_point_at(s@, k) by {
                if 0 < k < s@.len() && all_digits(s@.take(k)) {
                    assert(is_digit(s@.take(k)[0]));
                }
            }
        }
        return None;
    }
    assert(s@.subrange(0, i as int) =~= s@.take(i as int));
    let whole = parse_digits(s, 0, i, u64::MAX);
    if i == s.len() {
        assert(s@.take(i as int) =~= s@);
        return match whole {
            Some(w) => {
                if w > u64::MAX / 10000 {
                    None
                } else {
                    Some(w * 10000)
                }
            },
            None => None,
        };
    }
    assert(!is_digit(s@[i as int]));
    assert(!all_digits(s@));
    proof {
        assert forall|k: int| is_point_at(s@, k) implies k == i by {
            if k < i {
                assert(is_digit(s@.take(i as int)[k]));
            } else if k > i {
                assert(is_digit(s@.take(k)[i as int]));
            }
        }
    }
    let frac_len = s.len() - i - 1;
    if s[i] != 46 || frac_len < 1 || frac_len > 4 {
        return None;
    }
    assert(s@.subrange(i as int + 1, s@.len() as int) =~= s@.skip(i as int + 1));
    let frac = parse_digits(s, i + 1, s.len(), u64::MAX);
    match frac {
        None => {
            proof {
                if all_digits(s@.skip(i as int + 1)) {
                    lemma_digits_value_below(s@.skip(i as int + 1));
                    reveal_with_fuel(pow10, 5);
                }
            }
            assert(!is_point_at(s@, i as int));
            None
        },
        Some(f) => {
            assert(is_point_at(s@, i as int));
            match whole {
                None => None,
                Some(w) => {
                    let weight: u64 = if frac_len == 1 {
                        1000
                    } else if frac_len == 2 {
                        100
                    } else if frac_len == 3 {
                        10
                    } else {
                        1
                    };
                    assert((f as int) * (weight as int) <= 18446744073709551615 * 1000) by (nonlinear_arith)
                        requires
                            f <= u64::MAX,
                            weight <= 1000,
                    ;
                    let value: u128 = w as u128 * 10000 + f as u128 * weight as u128;
                    if value > u64::MAX as u128 {
                        None
                    } else {
                        Some(value as u64)
                    }
                },
            }
        },
    }
}

impl TransactionRecord {
    /// Builds a record from the four trimmed fields of one input row
    /// (`type,client,tx,amount`); the amount field may be empty.
    pub fn from_fields(kind: &[u8], client: &[u8], tx: &[u8], amount: &[u8]) -> (r: Result<TransactionRecord, AppError>)
        ensures
            r == match record_of(kind@, client@, tx@, amount@) {
                Some(rec) => Ok(rec),
                None => Err::<TransactionRecord, AppError>(AppError::MalformedRecord),
            },
    {
        let k = TransactionType::from_token(kind);
        assert(client@.subrange(0, client@.len() as int) =~= client@);
        assert(tx@.subrange(0, tx@.len() as int) =~= tx@);
        let c = parse_digits(client, 0, client.len(), 65535);
        let t = parse_digits(tx, 0, tx.len(), 4294967295);
        let a = if amount.len() == 0 {
            Some(None)
        } else {
            match parse_amount(amount) {
                Some(v) => Some(Some(v)),
                None => None,
            }
        };
        match (k, c, t, a) {
            (Some(k), Some(c), Some(t), Some(a)) => Ok(
                TransactionRecord { kind: k, client: c as u16, tx: t as u32, amount: a },
            ),
            _ => Err(AppError::MalformedRecord),
        }
    }
}

} // verus!
