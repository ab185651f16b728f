//! Canonical decimal numerals, as they appear in HTTP versions and status codes.
use vstd::prelude::*;

verus! {

/// The ASCII code of the digit `0`.
pub const DIGIT_ZERO: u8 = 48;

/// True for the ASCII digits `0` to `9`.
pub open spec fn is_digit(b: u8) -> bool {
    48 <= b <= 57
}

/// The number that a sequence of ASCII digits denotes, read most significant first.
pub open spec fn digits_value(d: Seq<u8>) -> nat
    decreases d.len(),
{
    if d.len() == 0 {
        0
    } else {
        digits_value(d.drop_last()) * 10 + (d.last() - 48) as nat
    }
}

/// The shortest decimal numeral of `n`: no sign, no leading zero.
pub open spec fn decimal_digits(n: nat) -> Seq<u8>
    decreases n,
{
    if n < 10 {
        seq![(n + 48) as u8]
    } else {
        decimal_digits(n / 10).push(((n % 10) + 48) as u8)
    }
}

/// A numeral that `decimal_digits` could have written for a `u16`: one to five digits,
/// no leading zero unless the numeral is `0`, and a value of at most 65535.
pub open spec fn is_canonical_u16(d: Seq<u8>) -> bool {
    &&& 1 <= d.len() <= 5
    &&& forall|i: int| 0 <= i < d.len() ==> #[trigger] is_digit(d[i])
    &&& (d.len() == 1 || d[0] != 48)
    &&& digits_value(d) <= 65535
}

/// The `u16` that a numeral denotes, where it is canonical.
pub open spec fn parse_u16(d: Seq<u8>) -> Option<u16> {
    if is_canonical_u16(d) {
        Some(digits_value(d) as u16)
    } else {
        None
    }
}

/// `10` to the power `k`.
pub open spec fn pow10(k: nat) -> nat
    decreases k,
{
    if k == 0 {
        1
    } else {
        10 * pow10((k - 1) as nat)
    }
}

/// Reads the numeral `s[start..end]` as a `u16`, where it is canonical.
pub fn parse_u16_at(s: &[u8], start: usize, end: usize) -> (r: Option<u16>)
    requires
        start <= end <= s@.len(),
    ensures
        r == parse_u16(s@.subrange(start as int, end as int)),
{
    let ghost d = s@.subrange(start as int, end as int);
    if end - start == 0 || end - start > 5 {
        return None;
    }
    if end - start > 1 && s[start] == DIGIT_ZERO {
        assert(d[0] == 48);
        return None;
    }
    let mut acc: u32 = 0;
    let mut i: usize = start;
    assert(s@.subrange(start as int, start as int).len() == 0);
    while i < end
        invariant
            start <= i <= end <= s@.len(),
            end - start <= 5,
            d == s@.subrange(start as int, end as int),
            forall|j: int| start <= j < i ==> #[trigger] is_digit(s@[j]),
            acc as nat == digits_value(s@.subrange(start as int, i as int)),
            acc < pow10((i - start) as nat),
        decreases end - i,
    {
        let b = s[i];
        if b < 48 || b > 57 {
            assert(!is_digit(d[i - start]));
            return None;
        }
        let ghost prev = s@.subrange(start as int, i as int);
        let ghost next = s@.subrange(start as int, i + 1);
        assert(next.drop_last() =~= prev);
        let ghost k = (i - start) as nat;
        assert(pow10(k + 1) == 10 * pow10(k));
        assert(k <= 4 ==> pow10(k) <= 10000) by {
            assert(pow10(0) == 1);
            assert(pow10(1) == 10);
            assert(pow10(2) == 100);
            assert(pow10(3) == 1000);
            assert(pow10(4) == 10000);
        }
        assert(acc * 10 + 9 < 10 * pow10(k)) by (nonlinear_arith)
            requires
                acc < pow10(k),
        ;
        acc = acc * 10 + (b - 48) as u32;
        i = i + 1;
    }
    assert(s@.subrange(start as int, i as int) =~= d);
    assert forall|j: int| 0 <= j < d.len() implies #[trigger] is_digit(d[j]) by {
        assert(d[j] == s@[start + j]);
    }
    if end - start > 1 {
        assert(d[0] == s@[start as int]);
    }
    if acc > 65535 {
        return None;
    }
    Some(acc as u16)
}

/// Appends the shortest decimal numeral of `n` to `out`.
pub fn push_decimal(out: &mut Vec<u8>, n: u16)
    ensures
        final(out)@ == old(out)@ + decimal_digits(n as nat),
    decreases n,
{
    if n >= 10 {
        push_decimal(out, n / 10);
    }
    out.push((n % 10) as u8 + DIGIT_ZERO);
    proof {
        if n >= 10 {
            assert(decimal_digits(n as nat) == decimal_digits((n / 10) as nat).push(((n % 10) + 48) as u8));
        }
        assert(final(out)@ =~= old(out)@ + decimal_digits(n as nat));
    }
}

/// The numeral `decimal_digits` writes: digits only, its value, no leading zero, and its length.
pub proof fn lemma_decimal_digits_props(n: nat)
    ensures
        decimal_digits(n).len() >= 1,
        forall|i: int| 0 <= i < decimal_digits(n).len() ==> #[trigger] is_digit(decimal_digits(n)[i]),
        digits_value(decimal_digits(n)) == n,
        n >= 10 ==> decimal_digits(n)[0] != 48,
        n < 10 ==> decimal_digits(n).len() == 1,
        n < 100 ==> decimal_digits(n).len() <= 2,
        n < 1000 ==> decimal_digits(n).len() <= 3,
        n < 10000 ==> decimal_digits(n).len() <= 4,
        n < 100000 ==> decimal_digits(n).len() <= 5,
    decreases n,
{
    let d = decimal_digits(n);
    if n < 10 {
        assert(d.drop_last().len() == 0);
        assert(digits_value(d.drop_last()) == 0);
        assert(d.last() == (n + 48) as u8);
    } else {
        lemma_decimal_digits_props(n / 10);
        assert(d.drop_last() =~= decimal_digits(n / 10));
        assert((n / 10) * 10 + n % 10 == n && n % 10 < 10) by (nonlinear_arith);
        assert(n < 100000 ==> n / 10 < 10000) by (nonlinear_arith);
        assert(n < 10000 ==> n / 10 < 1000) by (nonlinear_arith);
        assert(n < 1000 ==> n / 10 < 100) by (nonlinear_arith);
        assert(n < 100 ==> n / 10 < 10) by (nonlinear_arith);
        assert(d.last() == ((n % 10) + 48) as u8);
        if n / 10 >= 10 {
            assert(d[0] == decimal_digits(n / 10)[0]);
        } else {
            assert(d[0] == decimal_digits(n / 10)[0]);
        }
        assert forall|i: int| 0 <= i < d.len() implies #[trigger] is_digit(d[i]) by {
            if i < d.len() - 1 {
                assert(d[i] == decimal_digits(n / 10)[i]);
            }
        }
    }
}

proof fn lemma_leading_digit_positive(d: Seq<u8>)
    requires
        d.len() >= 1,
        forall|i: int| 0 <= i < d.len() ==> #[trigger] is_digit(d[i]),
        d[0] != 48,
    ensures
        digits_value(d) >= 1,
        d.len() >= 2 ==> digits_value(d) >= 10,
    decreases d.len(),
{
    if d.len() == 1 {
        assert(d.drop_last().len() == 0);
        assert(digits_value(d.drop_last()) == 0);
        assert(is_digit(d[0]));
    } else {
        let p = d.drop_last();
        assert forall|i: int| 0 <= i < p.len() implies #[trigger] is_digit(p[i]) by {
            assert(p[i] == d[i]);
        }
        assert(p[0] == d[0]);
        lemma_leading_digit_positive(p);
        assert(is_digit(d[d.len() - 1]));
    }
}

proof fn lemma_digits_of_value(d: Seq<u8>)
    requires
        d.len() >= 1,
        forall|i: int| 0 <= i < d.len() ==> #[trigger] is_digit(d[i]),
        d.len() == 1 || d[0] != 48,
    ensures
        decimal_digits(digits_value(d)) == d,
    decreases d.len(),
{
    if d.len() == 1 {
        assert(d.drop_last().len() == 0);
        assert(digits_value(d.drop_last()) == 0);
        assert(is_digit(d[0]));
        let x = (d[0] - 48) as nat;
        assert(digits_value(d) == x);
        assert(((x + 48) as u8) == d[0]);
        assert(decimal_digits(digits_value(d)) =~= d);
    } else {
        let p = d.drop_last();
        assert forall|i: int| 0 <= i < p.len() implies #[trigger] is_digit(p[i]) by {
            assert(p[i] == d[i]);
        }
        assert(p[0] == d[0]);
        lemma_digits_of_value(p);
        lemma_leading_digit_positive(p);
        let v = digits_value(d);
        let pv = digits_value(p);
        let x = (d.last() - 48) as nat;
        assert(is_digit(d[d.len() - 1]));
        assert(v == pv * 10 + x);
        assert(v / 10 == pv && v % 10 == x) by (nonlinear_arith)
            requires
                v == pv * 10 + x,
                x < 10,
        ;
        assert(decimal_digits(v) =~= d);
    }
}

/// Reading back the numeral that `decimal_digits` writes for a `u16` gives the number again.
pub proof fn lemma_parse_decimal_digits(n: u16)
    ensures
        parse_u16(decimal_digits(n as nat)) == Some(n),
{
    lemma_decimal_digits_props(n as nat);
}

/// A numeral that reads as a `u16` is exactly the one that `decimal_digits` writes for it.
pub proof fn lemma_decimal_digits_parse(d: Seq<u8>)
    requires
        parse_u16(d) is Some,
    ensures
        decimal_digits(parse_u16(d).unwrap() as nat) == d,
{
    lemma_digits_of_value(d);
}

} // verus!
