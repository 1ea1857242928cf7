//! Normalization of the text fields of an input record.
use vstd::prelude::*;
use crate::transaction::{Transaction, TransactionKind, fits_i64};

verus! {

/// Ten-thousandths in one unit.
pub const SCALE: u64 = 10000;

/// The largest whole part whose amount still fits in `i64`.
pub const MAX_WHOLE: u64 = 922337203685477;

/// What `str::to_lowercase` makes of the characters `s`.
pub uninterp spec fn lower_of(s: Seq<char>) -> Seq<char>;

/// Relies on `str::to_lowercase`: the lowercase mapping of each character of
/// `s`, which depends on those characters alone.
#[verifier::external_body]
fn lowercase(s: &str) -> (r: String)
    ensures
        r@ == lower_of(s@),
{
    s.to_lowercase()
}

/// The kind whose lowercase name is `l`.
pub open spec fn kind_named(l: Seq<char>) -> Option<TransactionKind> {
    if l == "deposit"@ {
        Some(TransactionKind::Deposit)
    } else if l == "withdrawal"@ {
        Some(TransactionKind::Withdrawal)
    } else if l == "dispute"@ {
        Some(TransactionKind::Dispute)
    } else if l == "resolve"@ {
        Some(TransactionKind::Resolve)
    } else if l == "chargeback"@ {
        Some(TransactionKind::Chargeback)
    } else {
        None
    }
}

/// The kind whose lowercase name is `l`, if any.
pub fn kind_from_lowercase(l: &String) -> (r: Option<TransactionKind>)
    ensures
        r == kind_named(l@),
{
    if *l == "deposit".to_owned() {
        Some(TransactionKind::Deposit)
    } else if *l == "withdrawal".to_owned() {
        Some(TransactionKind::Withdrawal)
    } else if *l == "dispute".to_owned() {
        Some(TransactionKind::Dispute)
    } else if *l == "resolve".to_owned() {
        Some(TransactionKind::Resolve)
    } else if *l == "chargeback".to_owned() {
        Some(TransactionKind::Chargeback)
    } else {
        None
    }
}

/// Reads a transaction kind, without regard to case.
pub fn parse_kind(s: &str) -> (r: Option<TransactionKind>)
    ensures
        r == kind_named(lower_of(s@)),
{
    let l = lowercase(s);
    kind_from_lowercase(&l)
}

/// Whether `b` is an ASCII decimal digit.
pub open spec fn is_digit(b: u8) -> bool {
    '0' as u8 <= b <= '9' as u8
}

/// Whether every byte of `s` is a decimal digit.
pub open spec fn all_digits(s: Seq<u8>) -> bool {
    forall|i: int| 0 <= i < s.len() ==> is_digit(#[trigger] s[i])
}

/// The number that the decimal digits `s` write.
pub open spec fn digits_value(s: Seq<u8>) -> int
    decreases s.len(),
{
    if s.len() == 0 {
        0
    } else {
        digits_value(s.drop_last()) * 10 + (s.last() - '0' as u8)
    }
}

/// The position of the first `.` in `s`, or its length when there is none.
pub open spec fn dot_index(s: Seq<u8>) -> int
    decreases s.len(),
{
    if s.len() == 0 {
        0
    } else if s[0] == '.' as u8 {
        0
    } else {
        1 + dot_index(s.subrange(1, s.len() as int))
    }
}

/// `10` to the power `n`.
pub open spec fn pow10(n: nat) -> int
    decreases n,
{
    if n == 0 { 1 } else { 10 * pow10((n - 1) as nat) }
}

/// The amount, in ten-thousandths, that the decimal text `s` writes.
///
/// The empty text is zero. Otherwise: an optional `+` or `-`, whole digits,
/// and optionally `.` followed by fraction digits, with at least one digit in
/// all. The magnitude is rounded to the nearest ten-thousandth, halves away
/// from zero; the amount must fit in `i64`.
pub open spec fn amount_of(s: Seq<u8>) -> Option<int> {
    if s.len() == 0 {
        Some(0)
    } else {
        let sign_len: int = if s[0] == '-' as u8 || s[0] == '+' as u8 { 1 } else { 0 };
        let body = s.subrange(sign_len, s.len() as int);
        let k = dot_index(body);
        let whole = body.subrange(0, k);
        let frac = if k < body.len() { body.subrange(k + 1, body.len() as int) } else { Seq::empty() };
        let kept = if frac.len() <= 4 { frac } else { frac.subrange(0, 4) };
        let round_up: int = if frac.len() > 4 && frac[4] >= '5' as u8 { 1 } else { 0 };
        let magnitude = digits_value(whole) * 10000 + digits_value(kept) * pow10((4 - kept.len()) as nat)
            + round_up;
        let v = if s[0] == '-' as u8 { -magnitude } else { magnitude };
        if all_digits(whole) && all_digits(frac) && whole.len() + frac.len() > 0 && fits_i64(v) {
            Some(v)
        } else {
            None
        }
    }
}

/// A longer run of digits is worth at least as much as its prefix.
proof fn digits_value_grows(s: Seq<u8>, j: int)
    requires
        all_digits(s),
        0 <= j <= s.len(),
    ensures
        digits_value(s.subrange(0, j)) <= digits_value(s),
        0 <= digits_value(s),
    decreases s.len(),
{
    if s.len() > 0 {
        assert(all_digits(s.drop_last()));
        if j == s.len() {
            assert(s.subrange(0, j) =~= s);
            digits_value_grows(s.drop_last(), 0);
        } else {
            assert(s.drop_last().subrange(0, j) =~= s.subrange(0, j));
            digits_value_grows(s.drop_last(), j);
        }
    }
}

/// The value of the digits `s[lo..hi]`, when they are all digits and their
/// value is at most `limit`.
fn read_digits(s: &[u8], lo: usize, hi: usize, limit: u64) -> (r: Option<u64>)
    requires
        lo <= hi <= s@.len(),
        9 <= limit,
    ensures
        match r {
            Some(v) => all_digits(s@.subrange(lo as int, hi as int))
                && v == digits_value(s@.subrange(lo as int, hi as int)) && v <= limit,
            None => !all_digits(s@.subrange(lo as int, hi as int))
                || digits_value(s@.subrange(lo as int, hi as int)) > limit,
        },
{
    let ghost t = s@.subrange(lo as int, hi as int);
    let mut v: u64 = 0;
    let mut i: usize = lo;
    while i < hi
        invariant
            lo <= i <= hi <= s@.len(),
            t == s@.subrange(lo as int, hi as int),
            all_digits(s@.subrange(lo as int, i as int)),
            v == digits_value(s@.subrange(lo as int, i as int)),
            v <= limit,
            9 <= limit,
        decreases hi - i,
    {
        let b = s[i];
        assert(s@.subrange(lo as int, i + 1).drop_last() =~= s@.subrange(lo as int, i as int));
        if b < '0' as u8 || b > '9' as u8 {
            assert(t[i - lo] == b);
            return None;
        }
        let d: u64 = (b - '0' as u8) as u64;
        assert(d <= 9);
        if v > (limit - d) / 10 {
            proof {
                assert(v * 10 + d > limit) by (nonlinear_arith)
                    requires v > (limit - d) / 10, d <= 9, d <= limit;
                if all_digits(t) {
                    assert(t.subrange(0, i + 1 - lo) =~= s@.subrange(lo as int, i + 1));
                    digits_value_grows(t, i + 1 - lo);
                }
            }
            return None;
        }
        proof {
            assert(v * 10 + d <= limit) by (nonlinear_arith)
                requires v <= (limit - d) / 10, d <= limit;
        }
        v = v * 10 + d;
        i = i + 1;
        assert(all_digits(s@.subrange(lo as int, i as int)));
    }
    assert(s@.subrange(lo as int, hi as int) == t);
    Some(v)
}

/// A run of digits is worth less than ten to the power of its length.
proof fn digits_value_below(s: Seq<u8>)
    requires
        all_digits(s),
    ensures
        0 <= digits_value(s) < pow10(s.len()),
    decreases s.len(),
{
    if s.len() > 0 {
        assert(all_digits(s.drop_last()));
        digits_value_below(s.drop_last());
        assert(is_digit(s[s.len() - 1]));
    }
}

/// Ten to the power `a`, times ten to the power `4 - a`, is ten thousand.
proof fn pow10_split(a: nat)
    requires
        a <= 4,
    ensures
        pow10(a) * pow10((4 - a) as nat) == 10000,
        pow10(a) >= 1,
        pow10((4 - a) as nat) >= 1,
        pow10(a) <= 10000,
        pow10(0) == 1,
        pow10(1) == 10,
        pow10(2) == 100,
        pow10(3) == 1000,
        pow10(4) == 10000,
{
    reveal_with_fuel(pow10, 5);
    assert(pow10(0) == 1);
    assert(pow10(1) == 10);
    assert(pow10(2) == 100);
    assert(pow10(3) == 1000);
    assert(pow10(4) == 10000);
    if a == 0 {
        assert(pow10(a) * pow10((4 - a) as nat) == 1 * 10000);
    } else if a == 1 {
        assert(pow10(a) * pow10((4 - a) as nat) == 10 * 1000);
    } else if a == 2 {
        assert(pow10(a) * pow10((4 - a) as nat) == 100 * 100);
    } else if a == 3 {
        assert(pow10(a) * pow10((4 - a) as nat) == 1000 * 10);
    } else {
        assert(pow10(a) * pow10((4 - a) as nat) == 10000 * 1);
    }
}

/// Whether the bytes `s[lo..hi]` are all decimal digits.
fn digits_only(s: &[u8], lo: usize, hi: usize) -> (r: bool)
    requires
        lo <= hi <= s@.len(),
    ensures
        r == all_digits(s@.subrange(lo as int, hi as int)),
{
    let mut i: usize = lo;
    while i < hi
        invariant
            lo <= i <= hi <= s@.len(),
            forall|j: int| lo <= j < i ==> is_digit(#[trigger] s@[j]),
        decreases hi - i,
    {
        if s[i] < '0' as u8 || s[i] > '9' as u8 {
            assert(s@.subrange(lo as int, hi as int)[i - lo] == s@[i as int]);
            return false;
        }
        i = i + 1;
    }
    assert forall|j: int| 0 <= j < hi - lo implies is_digit(#[trigger] s@.subrange(lo as int, hi as int)[j]) by {
        assert(s@.subrange(lo as int, hi as int)[j] == s@[lo + j]);
    }
    true
}

/// The position of the first `.` at or after `start`, or the length of `s`.
fn find_dot(s: &[u8], start: usize) -> (k: usize)
    requires
        start <= s@.len(),
    ensures
        start <= k <= s@.len(),
        k - start == dot_index(s@.subrange(start as int, s@.len() as int)),
{
    let n = s.len();
    let ghost body = s@.subrange(start as int, n as int);
    let mut k: usize = start;
    assert(s@.subrange(k as int, n as int) == body);
    while k < n && s[k] != '.' as u8
        invariant
            start <= k <= n,
            n == s@.len(),
            body == s@.subrange(start as int, n as int),
            dot_index(body) == (k - start) + dot_index(s@.subrange(k as int, n as int)),
        decreases n - k,
    {
        let ghost rest = s@.subrange(k as int, n as int);
        assert(rest[0] == s@[k as int]);
        assert(rest.subrange(1, rest.len() as int) =~= s@.subrange(k + 1, n as int));
        k = k + 1;
    }
    if k < n {
        assert(s@.subrange(k as int, n as int)[0] == s@[k as int]);
    }
    k
}

/// The amount `mag`, negated when `neg`, if it fits in `i64`.
fn signed_amount(neg: bool, mag: u64) -> (r: Option<i64>)
    ensures
        ({
            let v = if neg { -(mag as int) } else { mag as int };
            match r {
                Some(x) => fits_i64(v) && x == v,
                None => !fits_i64(v),
            }
        }),
{
    if neg {
        if mag > 9223372036854775808 {
            None
        } else if mag == 9223372036854775808 {
            Some(i64::MIN)
        } else {
            Some(-(mag as i64))
        }
    } else if mag > 9223372036854775807 {
        None
    } else {
        Some(mag as i64)
    }
}

/// A run of bytes is all digits exactly when both of its parts are.
proof fn all_digits_split(s: Seq<u8>, j: int)
    requires
        0 <= j <= s.len(),
    ensures
        all_digits(s) <==> all_digits(s.subrange(0, j)) && all_digits(s.subrange(j, s.len() as int)),
{
    let a = s.subrange(0, j);
    let b = s.subrange(j, s.len() as int);
    if all_digits(a) && all_digits(b) {
        assert forall|i: int| 0 <= i < s.len() implies is_digit(#[trigger] s[i]) by {
            if i < j {
                assert(s[i] == a[i]);
            } else {
                assert(s[i] == b[i - j]);
            }
        }
    }
    if all_digits(s) {
        assert forall|i: int| 0 <= i < a.len() implies is_digit(#[trigger] a[i]) by {
            assert(s[i] == a[i]);
        }
        assert forall|i: int| 0 <= i < b.len() implies is_digit(#[trigger] b[i]) by {
            assert(s[i + j] == b[i]);
        }
    }
}

/// Reads a decimal amount into ten-thousandths: see `amount_of`.
#[verifier::rlimit(50)]
pub fn parse_amount(s: &[u8]) -> (r: Option<i64>)
    ensures
        match r {
            Some(v) => amount_of(s@) == Some(v as int),
            None => amount_of(s@) is None,
        },
{
    let n = s.len();
    if n == 0 {
        return Some(0);
    }
    let neg = s[0] == '-' as u8;
    let start: usize = if s[0] == '-' as u8 || s[0] == '+' as u8 { 1 } else { 0 };
    let ghost body = s@.subrange(start as int, n as int);
    let k = find_dot(s, start);
    let ghost kk = dot_index(body);
    assert(body.subrange(0, kk) =~= s@.subrange(start as int, k as int));
    let frac_lo: usize = if k < n { k + 1 } else { n };
    let ghost frac = if kk < body.len() { body.subrange(kk + 1, body.len() as int) } else { Seq::empty() };
    assert(frac =~= s@.subrange(frac_lo as int, n as int));
    let whole_len = k - start;
    let frac_len = n - frac_lo;
    if whole_len + frac_len == 0 {
        return None;
    }
    let kept_hi: usize = if frac_len > 4 { frac_lo + 4 } else { n };
    let kept_len = kept_hi - frac_lo;
    let ghost kept = if frac.len() <= 4 { frac } else { frac.subrange(0, 4) };
    let ghost rest = s@.subrange(kept_hi as int, n as int);
    assert(kept =~= s@.subrange(frac_lo as int, kept_hi as int));
    proof {
        all_digits_split(frac, kept.len() as int);
        assert(frac.subrange(0, kept.len() as int) =~= kept);
        assert(frac.subrange(kept.len() as int, frac.len() as int) =~= rest);
    }
    let w = read_digits(s, start, k, MAX_WHOLE);
    let f = read_digits(s, frac_lo, kept_hi, 9999);
    let rest_ok = digits_only(s, kept_hi, n);
    let ghost whole = s@.subrange(start as int, k as int);
    proof {
        pow10_split(kept.len());
        if all_digits(kept) {
            digits_value_below(kept);
        }
        if all_digits(whole) {
            digits_value_below(whole);
        }
    }
    match (w, f) {
        (Some(wv), Some(fv)) => {
            if !rest_ok {
                return None;
            }
            let scale: u64 = if kept_len == 0 {
                10000
            } else if kept_len == 1 {
                1000
            } else if kept_len == 2 {
                100
            } else if kept_len == 3 {
                10
            } else {
                1
            };
            assert(scale == pow10((4 - kept.len()) as nat));
            proof {
                let p = pow10(kept.len());
                assert(fv * scale <= 9999) by (nonlinear_arith)
                    requires fv < p, p * scale == 10000, fv >= 0, scale >= 1;
            }
            let round_up: u64 = if frac_len > 4 && s[frac_lo + 4] >= '5' as u8 { 1 } else { 0 };
            assert(frac_len > 4 ==> frac[4] == s@[frac_lo + 4]);
            let mag: u64 = wv * SCALE + fv * scale + round_up;
            signed_amount(neg, mag)
        },
        _ => {
            proof {
                if all_digits(whole) && all_digits(frac) {
                    assert(digits_value(kept) <= 9999);
                    assert(digits_value(whole) > MAX_WHOLE);
                    assert(digits_value(whole) * 10000 > i64::MAX + 1) by (nonlinear_arith)
                        requires digits_value(whole) > 922337203685477;
                    let p = pow10((4 - kept.len()) as nat);
                    assert(digits_value(kept) * p >= 0) by (nonlinear_arith)
                        requires digits_value(kept) >= 0, p >= 1;
                }
            }
            None
        },
    }
}

/// Why an input record cannot be turned into a transaction.
#[derive(Clone, Copy, Debug, PartialEq, Eq, Structural)]
pub enum RecordError {
    /// The amount field is not a decimal amount (see `amount_of`).
    InvalidAmount,
}

/// Builds the transaction of one input record from its fields.
///
/// A malformed amount is an error; a record of an unknown kind is
/// well formed but carries no transaction (`Ok(None)`).
pub fn normalize(kind: &str, client: u16, tx: u32, amount: &[u8]) -> (r: Result<Option<Transaction>, RecordError>)
    ensures
        match amount_of(amount@) {
            None => r == Err::<Option<Transaction>, RecordError>(RecordError::InvalidAmount),
            Some(a) => match kind_named(lower_of(kind@)) {
                None => r == Ok::<Option<Transaction>, RecordError>(None),
                Some(k) => r == Ok::<Option<Transaction>, RecordError>(
                    Some(Transaction { kind: k, client, tx, amount: a as i64 }),
                ),
            },
        },
{
    let a = match parse_amount(amount) {
        Some(a) => a,
        None => {
            return Err(RecordError::InvalidAmount);
        },
    };
    match parse_kind(kind) {
        Some(k) => Ok(Some(Transaction { kind: k, client, tx, amount: a })),
        None => Ok(None),
    }
}

/// Splits an amount in ten-thousandths into its sign, its whole units and its
/// four fraction digits, for writing it as decimal text.
pub fn split_amount(v: i64) -> (r: (bool, u64, u64))
    ensures
        r.0 == (v < 0),
        r.2 < SCALE,
        (if r.0 { -(r.1 * 10000 + r.2) } else { r.1 * 10000 + r.2 }) == v,
{
    let mag: u64 = if v < 0 {
        if v == i64::MIN { 9223372036854775808 } else { (-v) as u64 }
    } else {
        v as u64
    };
    (v < 0, mag / SCALE, mag % SCALE)
}

} // verus!
