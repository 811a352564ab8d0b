use vstd::prelude::*;

use crate::parse::{
    all_digits, amount_value, digits_value, is_digit, lemma_leading_digits, pow10, DOT, MINUS, ZERO,
};

verus! {

/// The decimal digits of `n`, most significant first, without leading zeros.
pub open spec fn decimal(n: nat) -> Seq<u8>
    decreases n,
{
    if n < 10 {
        seq![(ZERO + n) as u8]
    } else {
        decimal(n / 10).push((ZERO + n % 10) as u8)
    }
}

/// `s` without trailing zeros, keeping at least one byte.
pub open spec fn trimmed(s: Seq<u8>) -> Seq<u8>
    decreases s.len(),
{
    if s.len() > 1 && s.last() == ZERO {
        trimmed(s.drop_last())
    } else {
        s
    }
}

/// The four fractional digits of `n` ten-thousandths.
pub open spec fn fraction(n: nat) -> Seq<u8> {
    let f = n % 10000;
    seq![
        (ZERO + f / 1000) as u8,
        (ZERO + f / 100 % 10) as u8,
        (ZERO + f / 10 % 10) as u8,
        (ZERO + f % 10) as u8,
    ]
}

pub open spec fn abs(v: int) -> nat {
    if v < 0 {
        (-v) as nat
    } else {
        v as nat
    }
}

/// How an amount of `v` ten-thousandths is written: a `-` where it is
/// negative, the whole units, a `.`, and the fractional digits without
/// trailing zeros but at least one.
pub open spec fn rendered(v: int) -> Seq<u8> {
    let sign = if v < 0 { seq![MINUS] } else { Seq::<u8>::empty() };
    sign + decimal(abs(v) / 10000) + seq![DOT] + trimmed(fraction(abs(v)))
}

/// Appends the decimal digits of `n` to `out`.
fn push_decimal(out: &mut Vec<u8>, n: u64)
    ensures
        final(out)@ == old(out)@ + decimal(n as nat),
    decreases n,
{
    if n >= 10 {
        push_decimal(out, n / 10);
    }
    out.push(ZERO + (n % 10) as u8);
    proof {
        if n < 10 {
            assert(decimal(n as nat) == seq![(ZERO + n) as u8]);
        }
    }
    assert(final(out)@ =~= old(out)@ + decimal(n as nat)) by {
        if n >= 10 {
            assert(decimal(n as nat) == decimal((n / 10) as nat).push((ZERO + n % 10) as u8));
        }
    }
}

/// Writes an amount of `v` ten-thousandths as a decimal.
pub fn render_amount(v: i64) -> (r: Vec<u8>)
    ensures
        r@ == rendered(v as int),
{
    let mut r: Vec<u8> = Vec::new();
    if v < 0 {
        r.push(MINUS);
    }
    let m: u64 = if v < 0 { (-(v as i128)) as u64 } else { v as u64 };
    assert(m as nat == abs(v as int));
    push_decimal(&mut r, m / 10000);
    r.push(DOT);
    let f = m % 10000;
    let mut digits: Vec<u8> = vec![
        ZERO + (f / 1000) as u8,
        ZERO + (f / 100 % 10) as u8,
        ZERO + (f / 10 % 10) as u8,
        ZERO + (f % 10) as u8,
    ];
    assert(digits@ =~= fraction(m as nat));
    while digits.len() > 1 && digits[digits.len() - 1] == ZERO
        invariant
            trimmed(digits@) == trimmed(fraction(m as nat)),
        decreases digits@.len(),
    {
        let ghost before = digits@;
        digits.pop();
        assert(digits@ =~= before.drop_last());
    }
    let ghost head = r@;
    let mut i: usize = 0;
    while i < digits.len()
        invariant
            i <= digits@.len(),
            r@ == head + digits@.subrange(0, i as int),
        decreases digits@.len() - i,
    {
        r.push(digits[i]);
        assert(digits@.subrange(0, i + 1) =~= digits@.subrange(0, i as int).push(digits@[i as int]));
        i = i + 1;
    }
    assert(digits@.subrange(0, i as int) =~= digits@);
    assert(trimmed(digits@) == digits@);
    let ghost sign = if v < 0 { seq![MINUS] } else { Seq::<u8>::empty() };
    assert(r@ =~= rendered(v as int));
    r
}

proof fn lemma_decimal(n: nat)
    ensures
        decimal(n).len() >= 1,
        all_digits(decimal(n)),
        digits_value(decimal(n)) == n,
    decreases n,
{
    if n >= 10 {
        lemma_decimal(n / 10);
        let d = decimal(n / 10);
        let e = decimal(n);
        assert(e.drop_last() =~= d);
        assert forall|i: int| 0 <= i < e.len() implies is_digit(#[trigger] e[i]) by {
            if i < d.len() {
                assert(e[i] == d[i]);
            }
        }
        assert(e.last() - ZERO == n % 10);
        assert(n == (n / 10) * 10 + n % 10);
        assert(digits_value(e) == digits_value(d) * 10 + (e.last() - ZERO));
    } else {
        let e = decimal(n);
        assert(e.drop_last() =~= Seq::<u8>::empty());
        assert(e.last() - ZERO == n);
        assert(digits_value(e.drop_last()) == 0);
        assert(digits_value(e) == digits_value(e.drop_last()) * 10 + (e.last() - ZERO));
    }
}

proof fn lemma_trimmed(s: Seq<u8>)
    requires
        1 <= s.len() <= 4,
        all_digits(s),
    ensures
        1 <= trimmed(s).len() <= s.len(),
        all_digits(trimmed(s)),
        digits_value(trimmed(s)) * pow10((4 - trimmed(s).len()) as nat) == digits_value(s) * pow10(
            (4 - s.len()) as nat,
        ),
    decreases s.len(),
{
    if s.len() > 1 && s.last() == ZERO {
        let t = s.drop_last();
        assert forall|i: int| 0 <= i < t.len() implies is_digit(#[trigger] t[i]) by {
            assert(t[i] == s[i]);
        }
        lemma_trimmed(t);
        let a = digits_value(t);
        let pt = pow10((4 - t.len()) as nat);
        let ps = pow10((4 - s.len()) as nat);
        assert(pt == 10 * ps);
        assert(digits_value(s) == a * 10);
        assert(a * pt == (a * 10) * ps) by (nonlinear_arith)
            requires
                pt == 10 * ps,
        ;
    }
}

proof fn lemma_fraction(m: nat)
    ensures
        fraction(m).len() == 4,
        all_digits(fraction(m)),
        digits_value(fraction(m)) == m % 10000,
{
    let s = fraction(m);
    let f = (m % 10000) as u64;
    assert((((f / 1000) * 10 + f / 100 % 10) * 10 + f / 10 % 10) * 10 + f % 10 == f) by (bit_vector)
        requires
            f < 10000,
    ;
    assert(s.drop_last().drop_last().drop_last().drop_last() =~= Seq::<u8>::empty());
    assert(s.drop_last().drop_last().drop_last().last() == s[0]);
    assert(s.drop_last().drop_last().last() == s[1]);
    assert(s.drop_last().last() == s[2]);
    reveal_with_fuel(digits_value, 5);
}

/// A rendered amount reads back as the same number of ten-thousandths. The
/// one exception is `i64::MIN`, whose magnitude is beyond what an amount
/// field may write.
pub proof fn lemma_render_reads_back(v: i64)
    requires
        v > i64::MIN,
    ensures
        amount_value(rendered(v as int)) == Some(v as int),
{
    let m = abs(v as int);
    let q = m / 10000;
    let d = decimal(q);
    let f = fraction(m);
    let tr = trimmed(f);
    lemma_decimal(q);
    lemma_fraction(m);
    lemma_trimmed(f);
    let s = rendered(v as int);
    let body = d + seq![DOT] + tr;
    if v < 0 {
        assert(s[0] == MINUS);
        assert(s.drop_first() =~= body);
    } else {
        assert(s =~= body);
        assert(is_digit(d[0]));
    }
    assert forall|j: int| 0 <= j < d.len() implies is_digit(#[trigger] body[j]) by {
        assert(body[j] == d[j]);
    }
    assert(body[d.len() as int] == DOT);
    lemma_leading_digits(body, d.len() as int);
    assert(body.subrange(0, d.len() as int) =~= d);
    let rest = body.subrange(d.len() as int, body.len() as int);
    assert(rest =~= seq![DOT] + tr);
    assert(rest.drop_first() =~= tr);
    assert(digits_value(tr) * pow10((4 - tr.len()) as nat) == m % 10000);
}

} // verus!
