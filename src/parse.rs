use vstd::prelude::*;

use crate::transaction::{Transaction, TransactionKind};

verus! {

/// The ASCII codes that the fields are read by.
pub const ZERO: u8 = 48;
pub const NINE: u8 = 57;
pub const MINUS: u8 = 45;
pub const DOT: u8 = 46;

/// Why a record's fields could not be read.
#[derive(Clone, Copy, Debug, PartialEq, Eq, Structural)]
pub enum RecordError {
    /// The type field is none of the five lowercase tokens.
    UnknownKind,
    /// The client field is not a decimal integer that fits in a `u16`.
    BadClient,
    /// The tx field is not a decimal integer that fits in a `u32`.
    BadTx,
    /// The amount field is neither empty nor a decimal with at most four
    /// fractional digits whose ten-thousandths fit in an `i64`.
    BadAmount,
    /// A deposit or withdrawal with an empty amount field.
    MissingAmount,
}

pub open spec fn is_digit(b: u8) -> bool {
    ZERO <= b <= NINE
}

pub open spec fn all_digits(s: Seq<u8>) -> bool {
    forall|i: int| 0 <= i < s.len() ==> is_digit(#[trigger] s[i])
}

/// The number that the decimal digits `s` write, most significant first.
pub open spec fn digits_value(s: Seq<u8>) -> int
    decreases s.len(),
{
    if s.len() == 0 {
        0
    } else {
        digits_value(s.drop_last()) * 10 + (s.last() - ZERO)
    }
}

/// How many bytes at the start of `s` are digits.
pub open spec fn leading_digits(s: Seq<u8>) -> int
    decreases s.len(),
{
    if s.len() == 0 || !is_digit(s[0]) {
        0
    } else {
        1 + leading_digits(s.drop_first())
    }
}

pub open spec fn pow10(n: nat) -> int
    decreases n,
{
    if n == 0 {
        1
    } else {
        10 * pow10((n - 1) as nat)
    }
}

/// The value of a non-empty field of decimal digits that does not exceed `max`.
pub open spec fn unsigned_value(s: Seq<u8>, max: int) -> Option<int> {
    if s.len() > 0 && all_digits(s) && digits_value(s) <= max {
        Some(digits_value(s))
    } else {
        None
    }
}

/// The ten-thousandths that an amount field writes: an optional `-`, then
/// digits, then optionally `.` and at most four more digits, with at least
/// one digit in all. `None` where the field has another shape or the
/// magnitude exceeds `i64::MAX`.
pub open spec fn amount_value(s: Seq<u8>) -> Option<int> {
    let neg = s.len() > 0 && s[0] == MINUS;
    let body = if neg { s.drop_first() } else { s };
    let p = leading_digits(body);
    let whole = body.subrange(0, p);
    let rest = body.subrange(p, body.len() as int);
    let frac = if rest.len() > 0 { rest.drop_first() } else { rest };
    if (rest.len() == 0 || rest[0] == DOT) && all_digits(frac) && frac.len() <= 4 && whole.len()
        + frac.len() > 0 {
        let mag = digits_value(whole) * 10000 + digits_value(frac) * pow10((4 - frac.len()) as nat);
        if mag <= i64::MAX {
            Some(if neg { -mag } else { mag })
        } else {
            None
        }
    } else {
        None
    }
}

/// The token that names `k` in the type field, in ASCII.
pub open spec fn kind_token(k: TransactionKind) -> Seq<u8> {
    match k {
        // deposit
        TransactionKind::Deposit => seq![100u8, 101u8, 112u8, 111u8, 115u8, 105u8, 116u8],
        // withdrawal
        TransactionKind::Withdrawal => seq![119u8, 105u8, 116u8, 104u8, 100u8, 114u8, 97u8, 119u8, 97u8, 108u8],
        // dispute
        TransactionKind::Dispute => seq![100u8, 105u8, 115u8, 112u8, 117u8, 116u8, 101u8],
        // resolve
        TransactionKind::Resolve => seq![114u8, 101u8, 115u8, 111u8, 108u8, 118u8, 101u8],
        // chargeback
        TransactionKind::Chargeback => seq![99u8, 104u8, 97u8, 114u8, 103u8, 101u8, 98u8, 97u8, 99u8, 107u8],
    }
}

/// The kind whose token is `s`, if any.
pub open spec fn kind_of(s: Seq<u8>) -> Option<TransactionKind> {
    if s == kind_token(TransactionKind::Deposit) {
        Some(TransactionKind::Deposit)
    } else if s == kind_token(TransactionKind::Withdrawal) {
        Some(TransactionKind::Withdrawal)
    } else if s == kind_token(TransactionKind::Dispute) {
        Some(TransactionKind::Dispute)
    } else if s == kind_token(TransactionKind::Resolve) {
        Some(TransactionKind::Resolve)
    } else if s == kind_token(TransactionKind::Chargeback) {
        Some(TransactionKind::Chargeback)
    } else {
        None
    }
}

proof fn lemma_prefix_value_le(s: Seq<u8>, k: int)
    requires
        all_digits(s),
        0 <= k <= s.len(),
    ensures
        0 <= digits_value(s.subrange(0, k)) <= digits_value(s),
    decreases s.len(),
{
    if k == s.len() {
        assert(s.subrange(0, k) =~= s);
        lemma_value_nonneg(s);
    } else {
        let t = s.drop_last();
        assert(all_digits(t)) by {
            assert forall|i: int| 0 <= i < t.len() implies is_digit(#[trigger] t[i]) by {
                assert(t[i] == s[i]);
            }
        }
        lemma_prefix_value_le(t, k);
        assert(t.subrange(0, k) =~= s.subrange(0, k));
        assert(is_digit(s[s.len() - 1]));
    }
}

proof fn lemma_value_nonneg(s: Seq<u8>)
    requires
        all_digits(s),
    ensures
        digits_value(s) >= 0,
    decreases s.len(),
{
    if s.len() > 0 {
        let t = s.drop_last();
        assert forall|i: int| 0 <= i < t.len() implies is_digit(#[trigger] t[i]) by {
            assert(t[i] == s[i]);
        }
        lemma_value_nonneg(t);
        assert(is_digit(s[s.len() - 1]));
    }
}

pub(crate) proof fn lemma_leading_digits(s: Seq<u8>, p: int)
    requires
        0 <= p <= s.len(),
        forall|j: int| 0 <= j < p ==> is_digit(#[trigger] s[j]),
        p == s.len() || !is_digit(s[p]),
    ensures
        leading_digits(s) == p,
    decreases p,
{
    if p > 0 {
        let t = s.drop_first();
        assert forall|j: int| 0 <= j < p - 1 implies is_digit(#[trigger] t[j]) by {
            assert(t[j] == s[j + 1]);
            assert(is_digit(s[j + 1]));
        }
        lemma_leading_digits(t, p - 1);
        assert(is_digit(s[0]));
    }
}

/// The value of the digits `b[lo..hi]`, where all are digits and the value
/// does not exceed `max`.
fn parse_digits(b: &[u8], lo: usize, hi: usize, max: u64) -> (r: Option<u64>)
    requires
        lo <= hi <= b@.len(),
    ensures
        r == (if all_digits(b@.subrange(lo as int, hi as int)) && digits_value(
            b@.subrange(lo as int, hi as int),
        ) <= max {
            Some(digits_value(b@.subrange(lo as int, hi as int)) as u64)
        } else {
            None::<u64>
        }),
{
    let ghost s = b@.subrange(lo as int, hi as int);
    let mut acc: u128 = 0;
    let mut i: usize = lo;
    assert(b@.subrange(lo as int, lo as int) =~= Seq::<u8>::empty());
    while i < hi
        invariant
            lo <= i <= hi <= b@.len(),
            s == b@.subrange(lo as int, hi as int),
            all_digits(b@.subrange(lo as int, i as int)),
            acc == digits_value(b@.subrange(lo as int, i as int)),
            acc <= max,
        decreases hi - i,
    {
        let d = b[i];
        let ghost next = b@.subrange(lo as int, i + 1);
        assert(next.drop_last() =~= b@.subrange(lo as int, i as int));
        assert(s[i - lo] == d);
        if d < ZERO || d > NINE {
            return None;
        }
        assert(all_digits(next)) by {
            assert forall|j: int| 0 <= j < next.len() implies is_digit(#[trigger] next[j]) by {
                if j < next.len() - 1 {
                    assert(next[j] == b@.subrange(lo as int, i as int)[j]);
                }
            }
        }
        assert(acc * 10 + 9 <= u64::MAX as int * 10 + 9) by (nonlinear_arith)
            requires
                acc <= u64::MAX,
        ;
        let v = acc * 10 + (d - ZERO) as u128;
        if v > max as u128 {
            proof {
                assert(next =~= s.subrange(0, i + 1 - lo));
                if all_digits(s) {
                    lemma_prefix_value_le(s, i + 1 - lo);
                }
            }
            return None;
        }
        acc = v;
        i = i + 1;
    }
    assert(b@.subrange(lo as int, i as int) =~= s);
    Some(acc as u64)
}

/// The value of a non-empty field of digits, where it does not exceed `max`.
pub fn parse_unsigned(b: &[u8], max: u64) -> (r: Option<u64>)
    ensures
        match unsigned_value(b@, max as int) {
            Some(v) => r == Some(v as u64),
            None => r is None,
        },
        r matches Some(x) ==> unsigned_value(b@, max as int) == Some(x as int),
{
    if b.len() == 0 {
        return None;
    }
    let r = parse_digits(b, 0, b.len(), max);
    assert(b@.subrange(0, b@.len() as int) =~= b@);
    proof {
        if all_digits(b@) {
            lemma_value_nonneg(b@);
        }
    }
    r
}

/// Whether `a` and `b` hold the same bytes.
fn same_bytes(a: &[u8], b: &[u8]) -> (r: bool)
    ensures
        r == (a@ == b@),
{
    if a.len() != b.len() {
        return false;
    }
    let mut i: usize = 0;
    while i < a.len()
        invariant
            a@.len() == b@.len(),
            i <= a@.len(),
            forall|j: int| 0 <= j < i ==> a@[j] == b@[j],
        decreases a@.len() - i,
    {
        if a[i] != b[i] {
            return false;
        }
        i = i + 1;
    }
    assert(a@ =~= b@);
    true
}

/// The token of `k`, as bytes.
fn token(k: TransactionKind) -> (r: Vec<u8>)
    ensures
        r@ == kind_token(k),
{
    // The bytes of the tokens, as `kind_token` lists them.
    let r = match k {
        TransactionKind::Deposit => vec![100u8, 101, 112, 111, 115, 105, 116],
        TransactionKind::Withdrawal => vec![119u8, 105, 116, 104, 100, 114, 97, 119, 97, 108],
        TransactionKind::Dispute => vec![100u8, 105, 115, 112, 117, 116, 101],
        TransactionKind::Resolve => vec![114u8, 101, 115, 111, 108, 118, 101],
        TransactionKind::Chargeback => vec![99u8, 104, 97, 114, 103, 101, 98, 97, 99, 107],
    };
    assert(r@ =~= kind_token(k));
    r
}

/// The kind that the type field names, if any.
pub fn parse_kind(b: &[u8]) -> (r: Option<TransactionKind>)
    ensures
        r == kind_of(b@),
{
    if same_bytes(b, token(TransactionKind::Deposit).as_slice()) {
        Some(TransactionKind::Deposit)
    } else if same_bytes(b, token(TransactionKind::Withdrawal).as_slice()) {
        Some(TransactionKind::Withdrawal)
    } else if same_bytes(b, token(TransactionKind::Dispute).as_slice()) {
        Some(TransactionKind::Dispute)
    } else if same_bytes(b, token(TransactionKind::Resolve).as_slice()) {
        Some(TransactionKind::Resolve)
    } else if same_bytes(b, token(TransactionKind::Chargeback).as_slice()) {
        Some(TransactionKind::Chargeback)
    } else {
        None
    }
}

/// How many ten-thousandths one unit of the `n`-th fractional digit is worth.
fn scale(n: usize) -> (r: u128)
    requires
        n <= 4,
    ensures
        r == pow10((4 - n) as nat),
        1 <= r <= 10000,
{
    reveal_with_fuel(pow10, 5);
    if n == 0 {
        10000
    } else if n == 1 {
        1000
    } else if n == 2 {
        100
    } else if n == 3 {
        10
    } else {
        1
    }
}

/// The ten-thousandths that an amount field writes (see `amount_value`).
pub fn parse_amount(b: &[u8]) -> (r: Option<i64>)
    ensures
        match amount_value(b@) {
            Some(v) => r == Some(v as i64),
            None => r is None,
        },
{
    let ghost s = b@;
    let neg = b.len() > 0 && b[0] == MINUS;
    let start: usize = if neg { 1 } else { 0 };
    let ghost body = if neg { s.drop_first() } else { s };
    assert(body =~= s.subrange(start as int, s.len() as int));
    let mut p: usize = start;
    while p < b.len() && ZERO <= b[p] && b[p] <= NINE
        invariant
            start <= p <= b@.len(),
            forall|j: int| start <= j < p ==> is_digit(#[trigger] b@[j]),
        decreases b@.len() - p,
    {
        p = p + 1;
    }
    proof {
        assert forall|j: int| 0 <= j < p - start implies is_digit(#[trigger] body[j]) by {
            assert(body[j] == s[j + start]);
        }
        if p < s.len() {
            assert(body[p - start] == s[p as int]);
        }
        lemma_leading_digits(body, p - start);
    }
    let ghost whole = body.subrange(0, p - start);
    let ghost rest = body.subrange(p - start, body.len() as int);
    assert(whole =~= s.subrange(start as int, p as int));
    let frac_lo: usize = if p < b.len() { p + 1 } else { p };
    let ghost frac = if rest.len() > 0 { rest.drop_first() } else { rest };
    assert(frac =~= s.subrange(frac_lo as int, s.len() as int));
    if p < b.len() && b[p] != DOT {
        assert(rest[0] == s[p as int]);
        return None;
    }
    if p < b.len() {
        assert(rest[0] == s[p as int]);
    }
    let n = b.len() - frac_lo;
    assert(frac.len() == n && whole.len() == p - start);
    if n > 4 || (p == start && n == 0) {
        return None;
    }
    let k = scale(n);
    let w = match parse_digits(b, start, p, i64::MAX as u64) {
        Some(w) => w,
        None => {
            proof {
                if all_digits(frac) {
                    lemma_value_nonneg(frac);
                    let fv = digits_value(frac);
                    assert(fv * k >= 0) by (nonlinear_arith)
                        requires
                            fv >= 0,
                            k >= 1,
                    ;
                }
            }
            return None;
        },
    };
    let f = match parse_digits(b, frac_lo, b.len(), 9999) {
        Some(f) => f,
        None => {
            proof {
                if all_digits(frac) {
                    lemma_frac_bound(frac);
                }
            }
            return None;
        },
    };
    proof {
        lemma_value_nonneg(whole);
        lemma_value_nonneg(frac);
    }
    assert(w as int * 10000 + f as int * k as int <= i64::MAX as int * 10000 + 9999 * 10000)
        by (nonlinear_arith)
        requires
            w <= i64::MAX,
            f <= 9999,
            k <= 10000,
    ;
    let mag: u128 = w as u128 * 10000 + f as u128 * k;
    if mag > i64::MAX as u128 {
        return None;
    }
    let m = mag as i64;
    if neg {
        Some(-m)
    } else {
        Some(m)
    }
}

proof fn lemma_frac_bound(s: Seq<u8>)
    requires
        all_digits(s),
        s.len() <= 4,
    ensures
        0 <= digits_value(s) <= 9999,
{
    lemma_value_nonneg(s);
    lemma_value_below_pow10(s);
    reveal_with_fuel(pow10, 5);
}

proof fn lemma_value_below_pow10(s: Seq<u8>)
    requires
        all_digits(s),
    ensures
        digits_value(s) < pow10(s.len()),
    decreases s.len(),
{
    if s.len() > 0 {
        let t = s.drop_last();
        assert forall|i: int| 0 <= i < t.len() implies is_digit(#[trigger] t[i]) by {
            assert(t[i] == s[i]);
        }
        lemma_value_below_pow10(t);
        assert(is_digit(s[s.len() - 1]));
        assert(pow10(s.len()) == 10 * pow10(t.len()));
    }
}

/// The transaction that the four fields of a record write, or why they do
/// not write one. An empty amount field means no amount.
pub open spec fn record_of(kind: Seq<u8>, client: Seq<u8>, tx: Seq<u8>, amount: Seq<u8>) -> Result<
    Transaction,
    RecordError,
> {
    match kind_of(kind) {
        None => Err(RecordError::UnknownKind),
        Some(k) => match unsigned_value(client, u16::MAX as int) {
            None => Err(RecordError::BadClient),
            Some(c) => match unsigned_value(tx, u32::MAX as int) {
                None => Err(RecordError::BadTx),
                Some(t) => if amount.len() == 0 {
                    if k == TransactionKind::Deposit || k == TransactionKind::Withdrawal {
                        Err(RecordError::MissingAmount)
                    } else {
                        Ok(Transaction { kind: k, client: c as u16, tx: t as u32, amount: None })
                    }
                } else {
                    match amount_value(amount) {
                        None => Err(RecordError::BadAmount),
                        Some(v) => Ok(
                            Transaction { kind: k, client: c as u16, tx: t as u32, amount: Some(v as i64) },
                        ),
                    }
                },
            },
        },
    }
}

/// Reads one record from its type, client, tx and amount fields.
pub fn parse_record(kind: &[u8], client: &[u8], tx: &[u8], amount: &[u8]) -> (r: Result<
    Transaction,
    RecordError,
>)
    ensures
        r == record_of(kind@, client@, tx@, amount@),
{
    let k = match parse_kind(kind) {
        Some(k) => k,
        None => return Err(RecordError::UnknownKind),
    };
    let c = match parse_unsigned(client, 0xffff) {
        Some(c) => c as u16,
        None => return Err(RecordError::BadClient),
    };
    let t = match parse_unsigned(tx, 0xffff_ffff) {
        Some(t) => t as u32,
        None => return Err(RecordError::BadTx),
    };
    if amount.len() == 0 {
        match k {
            TransactionKind::Deposit | TransactionKind::Withdrawal => Err(RecordError::MissingAmount),
            _ => Ok(Transaction { kind: k, client: c, tx: t, amount: None }),
        }
    } else {
        match parse_amount(amount) {
            Some(v) => Ok(Transaction { kind: k, client: c, tx: t, amount: Some(v) }),
            None => Err(RecordError::BadAmount),
        }
    }
}

} // verus!
