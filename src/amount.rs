//! Exact token amounts: an unsigned integer of any size counting base units,
//! and the number of decimal places that one whole unit has.
use vstd::prelude::*;
use crate::hexfmt::{
    all_hex, hex_char_value, hex_quantity, hex_value, is_hex_char, is_hex_digit, push_char,
};

verus! {

pub open spec fn pow10(k: nat) -> nat
    decreases k,
{
    if k == 0 {
        1
    } else {
        10 * pow10((k - 1) as nat)
    }
}

proof fn lemma_pow10_positive(k: nat)
    ensures
        pow10(k) > 0,
    decreases k,
{
    if k > 0 {
        lemma_pow10_positive((k - 1) as nat);
    }
}

pub open spec fn digit_char(d: nat) -> char {
    (d + 48) as u8 as char
}

/// Decimal digits of `n`, most significant first, with no leading zero
/// (zero itself is `"0"`).
pub open spec fn decimal_digits(n: nat) -> Seq<char>
    decreases n,
{
    if n < 10 {
        seq![digit_char(n)]
    } else {
        decimal_digits(n / 10).push(digit_char(n % 10))
    }
}

/// The last `k` decimal digits of `n`, zero-padded to exactly `k` characters.
pub open spec fn padded_digits(n: nat, k: nat) -> Seq<char>
    decreases k,
{
    if k == 0 {
        Seq::empty()
    } else {
        padded_digits(n / 10, (k - 1) as nat).push(digit_char(n % 10))
    }
}

pub open spec fn trim_trailing_zeros(s: Seq<char>) -> Seq<char>
    decreases s.len(),
{
    if s.len() > 0 && s.last() == '0' {
        trim_trailing_zeros(s.drop_last())
    } else {
        s
    }
}

/// Fractional digits of `raw / 10^k` without trailing zeros, or `"0"` when
/// there are none.
pub open spec fn fraction_text(raw: nat, k: nat) -> Seq<char> {
    let t = trim_trailing_zeros(padded_digits(raw, k));
    if t.len() == 0 {
        seq!['0']
    } else {
        t
    }
}

/// The exact decimal text of `raw / 10^k`: whole part, a point, and the
/// fraction with trailing zeros removed (at least one digit).
pub open spec fn amount_text(raw: nat, k: nat) -> Seq<char> {
    decimal_digits(raw / pow10(k)) + seq!['.'] + fraction_text(raw, k)
}

/// The number that base-16 digit values denote, most significant first.
pub open spec fn digits_value(d: Seq<u8>) -> nat
    decreases d.len(),
{
    if d.len() == 0 {
        0
    } else {
        digits_value(d.drop_last()) * 16 + d.last() as nat
    }
}

/// Base-16 digit values with no leading zero; zero has no digits.
pub open spec fn canonical(d: Seq<u8>) -> bool {
    &&& forall|i: int| 0 <= i < d.len() ==> #[trigger] d[i] < 16
    &&& d.len() == 0 || d[0] != 0
}

/// An unsigned integer of any size.
#[derive(Debug, PartialEq, Eq)]
pub struct BigNat {
    digits: Vec<u8>,
}

impl Clone for BigNat {
    fn clone(&self) -> (r: BigNat)
        ensures
            r.value() == self.value(),
    {
        proof {
            use_type_invariant(self);
        }
        let digits = self.digits.clone();
        assert(digits@ =~= self.digits@);
        BigNat { digits }
    }
}

/// `raw / 10^decimals` whole units, held exactly.
#[derive(Clone, Debug, PartialEq, Eq)]
pub struct Amount {
    pub raw: BigNat,
    pub decimals: u8,
}

impl BigNat {
    #[verifier::type_invariant]
    spec fn inv(self) -> bool {
        canonical(self.digits@)
    }

    pub closed spec fn value(self) -> nat {
        digits_value(self.digits@)
    }

    pub fn from_u128(x: u128) -> (r: BigNat)
        ensures
            r.value() == x as nat,
    {
        BigNat { digits: digits_of_u128(x) }
    }

    /// Decimal digits of the number, with no leading zero.
    pub fn to_decimal_string(&self) -> (r: String)
        ensures
            r@ == decimal_digits(self.value()),
    {
        proof {
            use_type_invariant(self);
        }
        let mut out = String::new();
        append_decimal(&mut out, &self.digits);
        out
    }
}

impl Amount {
    pub open spec fn text(self) -> Seq<char> {
        amount_text(self.raw.value(), self.decimals as nat)
    }

    /// Exact, unrounded decimal text of the amount, such as `"1.0"` or
    /// `"0.000123"`.
    pub fn to_decimal_string(&self) -> (r: String)
        ensures
            r@ == self.text(),
    {
        let mut out = String::new();
        append_amount(&mut out, &self.raw, self.decimals);
        out
    }
}

fn digits_of_u128(x: u128) -> (d: Vec<u8>)
    ensures
        canonical(d@),
        digits_value(d@) == x as nat,
    decreases x,
{
    if x < 16 {
        let mut d: Vec<u8> = Vec::new();
        assert(digits_value(Seq::<u8>::empty()) == 0);
        if x > 0 {
            d.push(x as u8);
            assert(d@.drop_last() =~= Seq::<u8>::empty());
        }
        d
    } else {
        let mut d = digits_of_u128(x / 16);
        let ghost prev = d@;
        proof {
            lemma_value_positive(d@);
        }
        assert(prev.len() > 0);
        d.push((x % 16) as u8);
        assert(d@.drop_last() =~= prev);
        assert(x as nat == (x / 16) as nat * 16 + (x % 16) as nat);
        assert(d@[0] == prev[0]);
        d
    }
}

proof fn lemma_value_positive(d: Seq<u8>)
    requires
        canonical(d),
    ensures
        d.len() >= 1 ==> digits_value(d) >= 1,
        d.len() >= 2 ==> digits_value(d) >= 16,
    decreases d.len(),
{
    if d.len() >= 2 {
        lemma_value_positive(d.drop_last());
    }
}

/// Long division by ten: `value(q) * 10 + r == value(n)`.
fn divmod10(n: &Vec<u8>) -> (res: (Vec<u8>, u8))
    requires
        forall|i: int| 0 <= i < n@.len() ==> #[trigger] n@[i] < 16,
    ensures
        canonical(res.0@),
        res.1 < 10,
        digits_value(res.0@) == digits_value(n@) / 10,
        res.1 as nat == digits_value(n@) % 10,
{
    let mut q: Vec<u8> = Vec::new();
    let mut r: u8 = 0;
    let mut i: usize = 0;
    while i < n.len()
        invariant
            0 <= i <= n@.len(),
            forall|k: int| 0 <= k < n@.len() ==> #[trigger] n@[k] < 16,
            canonical(q@),
            r < 10,
            digits_value(q@) * 10 + r == digits_value(n@.take(i as int)),
        decreases n@.len() - i,
    {
        let d = n[i];
        let cur: u8 = r * 16 + d;
        let qd: u8 = cur / 10;
        let ghost vq = digits_value(q@);
        assert(n@.take(i + 1).drop_last() =~= n@.take(i as int));
        assert((vq * 16 + qd) * 10 + cur % 10 == (vq * 10 + r) * 16 + d) by (nonlinear_arith)
            requires
                cur == r * 16 + d,
                qd == cur / 10,
        ;
        if q.len() > 0 || qd != 0 {
            let ghost old_q = q@;
            q.push(qd);
            assert(q@.drop_last() =~= old_q);
        } else {
            assert(vq == 0);
        }
        r = cur % 10;
        i = i + 1;
    }
    assert(n@.take(n@.len() as int) =~= n@);
    proof {
        vstd::arithmetic::div_mod::lemma_fundamental_div_mod_converse(
            digits_value(n@) as int,
            10,
            digits_value(q@) as int,
            r as int,
        );
    }
    (q, r)
}

fn digit_of(d: u8) -> (c: char)
    requires
        d < 10,
    ensures
        c == digit_char(d as nat),
{
    (d + 48) as char
}

/// Appends the decimal digits of the number whose base-16 digits are `n`.
fn append_decimal(out: &mut String, n: &Vec<u8>)
    requires
        canonical(n@),
    ensures
        final(out)@ == old(out)@ + decimal_digits(digits_value(n@)),
    decreases digits_value(n@),
{
    proof {
        lemma_value_positive(n@);
    }
    if n.len() == 0 || (n.len() == 1 && n[0] < 10) {
        let v: u8 = if n.len() == 0 {
            0
        } else {
            n[0]
        };
        proof {
            if n.len() == 1 {
                assert(n@.drop_last() =~= Seq::<u8>::empty());
                assert(digits_value(Seq::<u8>::empty()) == 0);
                assert(digits_value(n@) == n@[0] as nat);
            }
            assert(digits_value(n@) == v as nat);
        }
        push_char(out, digit_of(v));
        assert(out@ =~= old(out)@ + decimal_digits(digits_value(n@)));
    } else {
        proof {
            if n.len() == 1 {
                assert(n@.drop_last() =~= Seq::<u8>::empty());
            }
        }
        let (q, r) = divmod10(n);
        append_decimal(out, &q);
        push_char(out, digit_of(r));
        assert(out@ =~= old(out)@ + decimal_digits(digits_value(n@)));
    }
}

/// Appends the exact decimal text of `raw / 10^k`.
#[verifier::rlimit(40)]
pub fn append_amount(out: &mut String, raw: &BigNat, k: u8)
    ensures
        final(out)@ == old(out)@ + amount_text(raw.value(), k as nat),
{
    proof {
        use_type_invariant(raw);
    }
    let ghost v = raw.value();
    let kk = k as usize;
    let mut frac: Vec<char> = Vec::new();
    let mut j: usize = 0;
    while j < kk
        invariant
            0 <= j <= kk,
            frac@.len() == j,
            forall|i: int| 0 <= i < j ==> frac@[i] == '0',
        decreases kk - j,
    {
        frac.push('0');
        j = j + 1;
    }
    let mut n: Vec<u8> = raw.digits.clone();
    let mut j: usize = 0;
    assert(pow10(0) == 1);
    assert(n@ == raw.digits@);
    while j < kk
        invariant
            0 <= j <= kk,
            frac@.len() == kk,
            canonical(n@),
            digits_value(n@) == v / pow10(j as nat),
            padded_digits(v, kk as nat) == padded_digits(digits_value(n@), (kk - j) as nat)
                + frac@.subrange(kk - j, kk as int),
        decreases kk - j,
    {
        let ghost old_frac = frac@;
        let ghost nv = digits_value(n@);
        let (q, r) = divmod10(&n);
        let c = digit_of(r);
        frac.set(kk - 1 - j, c);
        proof {
            assert(frac@.subrange(kk - j - 1, kk as int) =~= seq![c] + old_frac.subrange(
                kk - j,
                kk as int,
            ));
            assert(padded_digits(nv, (kk - j) as nat) == padded_digits(
                nv / 10,
                (kk - j - 1) as nat,
            ).push(c));
            assert(padded_digits(v, kk as nat) =~= padded_digits(
                nv / 10,
                (kk - j - 1) as nat,
            ) + frac@.subrange(kk - j - 1, kk as int));
            lemma_pow10_positive(j as nat);
            vstd::arithmetic::div_mod::lemma_div_denominator(v as int, pow10(j as nat) as int, 10);
            assert(pow10((j + 1) as nat) == pow10(j as nat) * 10);
        }
        n = q;
        j = j + 1;
    }
    proof {
        assert(frac@.subrange(0, kk as int) =~= frac@);
        assert(padded_digits(v, kk as nat) =~= frac@);
    }
    append_decimal(out, &n);
    push_char(out, '.');
    let mut e: usize = kk;
    while e > 0 && frac[e - 1] == '0'
        invariant
            0 <= e <= kk,
            frac@.len() == kk,
            trim_trailing_zeros(frac@) == trim_trailing_zeros(frac@.take(e as int)),
        decreases e,
    {
        proof {
            assert(frac@.take(e as int).drop_last() =~= frac@.take(e - 1));
        }
        e = e - 1;
    }
    let ghost t = frac@.take(e as int);
    proof {
        if e > 0 {
            assert(t.last() != '0');
        }
        assert(trim_trailing_zeros(t) == t);
    }
    let ghost before = out@;
    if e == 0 {
        push_char(out, '0');
    } else {
        let mut i: usize = 0;
        while i < e
            invariant
                0 <= i <= e <= kk,
                frac@.len() == kk,
                t == frac@.take(e as int),
                out@ == before + t.take(i as int),
            decreases e - i,
        {
            push_char(out, frac[i]);
            i = i + 1;
            assert(out@ =~= before + t.take(i as int));
        }
        assert(t.take(e as int) =~= t);
    }
    assert(final(out)@ =~= old(out)@ + amount_text(v, k as nat));
}

/// Reads a `0x`-prefixed hex quantity of any size; `None` when the text is
/// not `0x` followed by at least one hex digit.
pub fn parse_hex_quantity(s: &str) -> (r: Option<BigNat>)
    ensures
        match r {
            Some(b) => hex_quantity(s@) == Some(b.value()),
            None => hex_quantity(s@) is None,
        },
{
    let n = s.unicode_len();
    if n < 3 || s.get_char(0) != '0' || s.get_char(1) != 'x' {
        return None;
    }
    let ghost digits = s@.subrange(2, n as int);
    let mut i: usize = 2;
    while i < n
        invariant
            2 <= i <= n,
            n == s@.len(),
            digits == s@.subrange(2, n as int),
            forall|k: int| 0 <= k < i - 2 ==> is_hex_digit(#[trigger] digits[k]),
        decreases n - i,
    {
        if !is_hex_char(s.get_char(i)) {
            assert(!is_hex_digit(digits[i - 2]));
            return None;
        }
        i = i + 1;
    }
    let mut d: Vec<u8> = Vec::new();
    let mut i: usize = 2;
    while i < n
        invariant
            2 <= i <= n,
            n == s@.len(),
            digits == s@.subrange(2, n as int),
            all_hex(digits),
            canonical(d@),
            digits_value(d@) == hex_value(digits.take(i - 2)),
        decreases n - i,
    {
        let c = s.get_char(i);
        assert(c == digits[i - 2]);
        let x = hex_char_value(c);
        assert(digits.take(i - 1).drop_last() =~= digits.take(i - 2));
        if d.len() > 0 || x != 0 {
            let ghost old_d = d@;
            d.push(x);
            assert(d@.drop_last() =~= old_d);
        }
        i = i + 1;
    }
    assert(digits.take(n - 2) =~= digits);
    Some(BigNat { digits: d })
}

} // verus!
