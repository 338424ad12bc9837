//! Exact numbers: fractions of 64-bit integers kept in lowest terms.
use vstd::prelude::*;

verus! {

/// The largest magnitude of a numerator or denominator.
pub const NUM_LIMIT: i64 = 9223372036854775807;

/// The number of digits written after the decimal point, at most.
pub const FRACTION_DIGITS: u64 = 16;

/// The fraction `num / den`.
#[derive(Clone, Copy, Debug, PartialEq, Eq, Structural)]
pub struct Number {
    num: i64,
    den: i64,
}

impl Number {
    /// The numerator.
    pub closed spec fn num_spec(self) -> int {
        self.num as int
    }

    /// The denominator.
    pub closed spec fn den_spec(self) -> int {
        self.den as int
    }

    pub open spec fn wf(self) -> bool {
        -NUM_LIMIT <= self.num_spec() <= NUM_LIMIT && 1 <= self.den_spec() <= NUM_LIMIT
    }

    #[verifier::type_invariant]
    spec fn inv(self) -> bool {
        self.wf()
    }

    /// The numerator.
    pub fn numerator(&self) -> (r: i64)
        ensures
            r == self.num_spec(),
    {
        self.num
    }

    /// The denominator, which is positive.
    pub fn denominator(&self) -> (r: i64)
        ensures
            r == self.den_spec(),
            r > 0,
    {
        proof {
            use_type_invariant(self);
        }
        self.den
    }

    /// The number `num / den` in lowest terms; `None` where `den` is zero or
    /// the result cannot be held exactly.
    pub fn fraction(num: i64, den: i64) -> (r: Option<Number>)
        ensures
            r == quotient(num, den),
    {
        if den == 0 || num == i64::MIN || den == i64::MIN {
            return None;
        }
        Number { num, den: 1 }.div(Number { num: den, den: 1 })
    }
}

pub open spec fn gcd(a: nat, b: nat) -> nat
    decreases b,
{
    if b == 0 {
        a
    } else {
        gcd(b, a % b)
    }
}

pub open spec fn abs(n: int) -> nat {
    if n < 0 {
        (-n) as nat
    } else {
        n as nat
    }
}

/// `n / d` divided through by the greatest common divisor of `n` and `d`.
pub open spec fn reduce(n: int, d: int) -> (int, int) {
    let an = abs(n) as int;
    let ad = abs(d) as int;
    let g = gcd(abs(n), abs(d)) as int;
    if g > 0 && an % g == 0 && ad % g == 0 {
        (if n < 0 { -(an / g) } else { an / g }, if d < 0 { -(ad / g) } else { ad / g })
    } else {
        (n, d)
    }
}

pub open spec fn fits(p: (int, int)) -> bool {
    -NUM_LIMIT <= p.0 <= NUM_LIMIT && 1 <= p.1 <= NUM_LIMIT
}

/// The number with numerator and denominator `p`, when both fit.
pub closed spec fn make(p: (int, int)) -> Option<Number> {
    if fits(p) {
        Some(Number { num: p.0 as i64, den: p.1 as i64 })
    } else {
        None
    }
}

/// `make(p)` is the number with numerator `p.0` and denominator `p.1`,
/// present exactly where both fit.
pub broadcast proof fn lemma_make(p: (int, int))
    ensures
        (#[trigger] make(p) is Some) == fits(p),
        make(p) matches Some(x) ==> x.num_spec() == p.0 && x.den_spec() == p.1,
{
}

pub open spec fn add_spec(a: Number, b: Number) -> Option<Number> {
    make(reduce(a.num_spec() * b.den_spec() + b.num_spec() * a.den_spec(), a.den_spec() * b.den_spec()))
}

pub open spec fn sub_spec(a: Number, b: Number) -> Option<Number> {
    make(reduce(a.num_spec() * b.den_spec() - b.num_spec() * a.den_spec(), a.den_spec() * b.den_spec()))
}

pub open spec fn mul_spec(a: Number, b: Number) -> Option<Number> {
    make(reduce(a.num_spec() * b.num_spec(), a.den_spec() * b.den_spec()))
}

pub open spec fn div_spec(a: Number, b: Number) -> Option<Number> {
    if b.num_spec() == 0 {
        None
    } else if b.num_spec() < 0 {
        make(reduce(-(a.num_spec() * b.den_spec()), -(a.den_spec() * b.num_spec())))
    } else {
        make(reduce(a.num_spec() * b.den_spec(), a.den_spec() * b.num_spec()))
    }
}

/// `n / d` in lowest terms, where `d` is not zero and `n`, `d` and the result
/// lie within the limit.
pub open spec fn quotient(n: i64, d: i64) -> Option<Number> {
    if n < -NUM_LIMIT || d < -NUM_LIMIT || d == 0 {
        None
    } else if d < 0 {
        make(reduce(-n, -d))
    } else {
        make(reduce(n as int, d as int))
    }
}

/// Two fractions denote the same rational number.
pub open spec fn same_value(a: Number, b: Number) -> bool {
    a.num_spec() * b.den_spec() == b.num_spec() * a.den_spec()
}

proof fn lemma_mul_bound(x: int, y: int)
    requires
        -NUM_LIMIT <= x <= NUM_LIMIT,
        -NUM_LIMIT <= y <= NUM_LIMIT,
    ensures
        -(NUM_LIMIT * NUM_LIMIT) <= x * y <= NUM_LIMIT * NUM_LIMIT,
{
    assert(-(NUM_LIMIT * NUM_LIMIT) <= x * y <= NUM_LIMIT * NUM_LIMIT) by (nonlinear_arith)
        requires
            -NUM_LIMIT <= x <= NUM_LIMIT,
            -NUM_LIMIT <= y <= NUM_LIMIT,
    ;
}

fn gcd_exec(a: u128, b: u128) -> (r: u128)
    ensures
        r == gcd(a as nat, b as nat),
    decreases b,
{
    if b == 0 {
        a
    } else {
        gcd_exec(b, a % b)
    }
}

fn abs_exec(n: i128) -> (r: u128)
    requires
        n > i128::MIN,
    ensures
        r == abs(n as int),
{
    if n < 0 {
        (-n) as u128
    } else {
        n as u128
    }
}

fn reduce_exec(n: i128, d: i128) -> (r: (i128, i128))
    requires
        n > i128::MIN,
        d > i128::MIN,
    ensures
        r.0 == reduce(n as int, d as int).0,
        r.1 == reduce(n as int, d as int).1,
{
    let an = abs_exec(n);
    let ad = abs_exec(d);
    let g = gcd_exec(an, ad);
    if g > 0 && an % g == 0 && ad % g == 0 {
        assert(an / g <= an) by (nonlinear_arith)
            requires
                g > 0,
        ;
        assert(ad / g <= ad) by (nonlinear_arith)
            requires
                g > 0,
        ;
        let qn = (an / g) as i128;
        let qd = (ad / g) as i128;
        (if n < 0 { -qn } else { qn }, if d < 0 { -qd } else { qd })
    } else {
        (n, d)
    }
}

fn make_exec(n: i128, d: i128) -> (r: Option<Number>)
    ensures
        r == make((n as int, d as int)),
{
    if -(NUM_LIMIT as i128) <= n && n <= NUM_LIMIT as i128 && 1 <= d && d <= NUM_LIMIT as i128 {
        Some(Number { num: n as i64, den: d as i64 })
    } else {
        None
    }
}

impl Number {
    /// `self + other`, or `None` where the result cannot be held exactly.
    pub fn add(self, other: Number) -> (r: Option<Number>)
        ensures
            r == add_spec(self, other),
            r matches Some(x) ==> x.wf(),
    {
        proof {
            use_type_invariant(&self);
            use_type_invariant(&other);
            lemma_mul_bound(self.num as int, other.den as int);
            lemma_mul_bound(other.num as int, self.den as int);
            lemma_mul_bound(self.den as int, other.den as int);
        }
        let n = (self.num as i128) * (other.den as i128) + (other.num as i128) * (self.den as i128);
        let d = (self.den as i128) * (other.den as i128);
        let p = reduce_exec(n, d);
        make_exec(p.0, p.1)
    }

    /// `self - other`, or `None` where the result cannot be held exactly.
    pub fn sub(self, other: Number) -> (r: Option<Number>)
        ensures
            r == sub_spec(self, other),
            r matches Some(x) ==> x.wf(),
    {
        proof {
            use_type_invariant(&self);
            use_type_invariant(&other);
            lemma_mul_bound(self.num as int, other.den as int);
            lemma_mul_bound(other.num as int, self.den as int);
            lemma_mul_bound(self.den as int, other.den as int);
        }
        let n = (self.num as i128) * (other.den as i128) - (other.num as i128) * (self.den as i128);
        let d = (self.den as i128) * (other.den as i128);
        let p = reduce_exec(n, d);
        make_exec(p.0, p.1)
    }

    /// `self * other`, or `None` where the result cannot be held exactly.
    pub fn mul(self, other: Number) -> (r: Option<Number>)
        ensures
            r == mul_spec(self, other),
            r matches Some(x) ==> x.wf(),
    {
        proof {
            use_type_invariant(&self);
            use_type_invariant(&other);
            lemma_mul_bound(self.num as int, other.num as int);
            lemma_mul_bound(self.den as int, other.den as int);
        }
        let n = (self.num as i128) * (other.num as i128);
        let d = (self.den as i128) * (other.den as i128);
        let p = reduce_exec(n, d);
        make_exec(p.0, p.1)
    }

    /// `self / other`; `None` where `other` is zero or the result cannot be
    /// held exactly.
    pub fn div(self, other: Number) -> (r: Option<Number>)
        ensures
            r == div_spec(self, other),
            r matches Some(x) ==> x.wf(),
    {
        if other.num == 0 {
            return None;
        }
        proof {
            use_type_invariant(&self);
            use_type_invariant(&other);
            lemma_mul_bound(self.num as int, other.den as int);
            lemma_mul_bound(self.den as int, other.num as int);
        }
        let n = (self.num as i128) * (other.den as i128);
        let d = (self.den as i128) * (other.num as i128);
        if other.num < 0 {
            let p = reduce_exec(-n, -d);
            make_exec(p.0, p.1)
        } else {
            let p = reduce_exec(n, d);
            make_exec(p.0, p.1)
        }
    }

    /// Whether the two numbers are equal.
    pub fn same(self, other: Number) -> (r: bool)
        ensures
            r == same_value(self, other),
    {
        proof {
            use_type_invariant(&self);
            use_type_invariant(&other);
            lemma_mul_bound(self.num as int, other.den as int);
            lemma_mul_bound(other.num as int, self.den as int);
        }
        (self.num as i128) * (other.den as i128) == (other.num as i128) * (self.den as i128)
    }
}

/// The character of the decimal digit `d`.
pub open spec fn digit_char(d: int) -> char {
    if d == 0 {
        '0'
    } else if d == 1 {
        '1'
    } else if d == 2 {
        '2'
    } else if d == 3 {
        '3'
    } else if d == 4 {
        '4'
    } else if d == 5 {
        '5'
    } else if d == 6 {
        '6'
    } else if d == 7 {
        '7'
    } else if d == 8 {
        '8'
    } else {
        '9'
    }
}

/// The value of the decimal digit character `c`.
pub open spec fn digit_value(c: char) -> int {
    c as int - '0' as int
}

pub open spec fn is_digit(c: char) -> bool {
    '0' <= c <= '9'
}

/// The decimal digits of `n`, with no leading zero.
pub open spec fn int_text(n: nat) -> Seq<char>
    decreases n,
{
    if n < 10 {
        seq![digit_char(n as int)]
    } else {
        int_text(n / 10).push(digit_char((n % 10) as int))
    }
}

/// The first `k` digits after the point of `r / d`, stopping where the
/// expansion ends.
pub open spec fn fraction_text(r: nat, d: nat, k: nat) -> Seq<char>
    decreases k,
{
    if r == 0 || k == 0 || d == 0 {
        Seq::empty()
    } else {
        seq![digit_char(((r * 10) / d) as int)] + fraction_text((r * 10) % d, d, (k - 1) as nat)
    }
}

/// How a number is written: a sign where it is negative, the whole part,
/// then the fractional part (truncated after `FRACTION_DIGITS` digits) where
/// there is one.
pub open spec fn render(x: Number) -> Seq<char> {
    let a = abs(x.num_spec() as int);
    let d = x.den_spec() as nat;
    let sign = if x.num_spec() < 0 { seq!['-'] } else { Seq::empty() };
    let frac = if a % d == 0 {
        Seq::empty()
    } else {
        seq!['.'] + fraction_text(a % d, d, FRACTION_DIGITS as nat)
    };
    sign + int_text(a / d) + frac
}

fn digit_char_exec(d: u128) -> (c: char)
    ensures
        c == digit_char(d as int),
{
    if d == 0 {
        '0'
    } else if d == 1 {
        '1'
    } else if d == 2 {
        '2'
    } else if d == 3 {
        '3'
    } else if d == 4 {
        '4'
    } else if d == 5 {
        '5'
    } else if d == 6 {
        '6'
    } else if d == 7 {
        '7'
    } else if d == 8 {
        '8'
    } else {
        '9'
    }
}

fn push_int_text(n: u128, out: &mut Vec<char>)
    ensures
        final(out)@ == old(out)@ + int_text(n as nat),
    decreases n,
{
    if n < 10 {
        out.push(digit_char_exec(n));
        assert(final(out)@ =~= old(out)@ + int_text(n as nat));
    } else {
        push_int_text(n / 10, out);
        out.push(digit_char_exec(n % 10));
        assert(final(out)@ =~= old(out)@ + int_text(n as nat));
    }
}

fn push_fraction_text(r0: u128, d: u128, k0: u64, out: &mut Vec<char>)
    requires
        r0 < d <= NUM_LIMIT,
    ensures
        final(out)@ == old(out)@ + fraction_text(r0 as nat, d as nat, k0 as nat),
{
    let mut r = r0;
    let mut k = k0;
    while r != 0 && k != 0
        invariant
            r < d <= NUM_LIMIT,
            out@ + fraction_text(r as nat, d as nat, k as nat) == old(out)@ + fraction_text(
                r0 as nat,
                d as nat,
                k0 as nat,
            ),
        decreases k,
    {
        let ghost before = out@;
        let ghost rn = r as int;
        let ghost dn = d as int;
        assert((rn * 10) % dn < dn) by (nonlinear_arith)
            requires
                dn > 0,
        ;
        let c = digit_char_exec((r * 10) / d);
        out.push(c);
        r = (r * 10) % d;
        k = k - 1;
        assert(fraction_text(rn as nat, dn as nat, (k + 1) as nat) == seq![c] + fraction_text(
            r as nat,
            dn as nat,
            k as nat,
        ));
        assert(out@ =~= before + seq![c]);
        assert(out@ + fraction_text(r as nat, d as nat, k as nat) =~= before + fraction_text(
            rn as nat,
            dn as nat,
            (k + 1) as nat,
        ));
    }
}

impl Number {
    /// The text of this number, as `shout` prints it.
    pub fn render(self) -> (r: Vec<char>)
        ensures
            r@ == render(self),
    {
        proof {
            use_type_invariant(&self);
        }
        let a = abs_exec(self.num as i128);
        let d = self.den as u128;
        let mut out: Vec<char> = Vec::new();
        if self.num < 0 {
            out.push('-');
        }
        push_int_text(a / d, &mut out);
        if a % d != 0 {
            out.push('.');
            push_fraction_text(a % d, d, FRACTION_DIGITS, &mut out);
        }
        assert(out@ =~= render(self));
        out
    }
}

/// Whether `cs` holds a dot.
pub open spec fn has_dot(cs: Seq<char>) -> bool {
    cs.contains('.')
}

/// The digits of a numeric literal read as one whole number, the dot left out.
pub open spec fn mantissa(cs: Seq<char>) -> int
    decreases cs.len(),
{
    if cs.len() == 0 {
        0
    } else if cs.last() == '.' {
        mantissa(cs.drop_last())
    } else {
        mantissa(cs.drop_last()) * 10 + digit_value(cs.last())
    }
}

/// The number of digits after the dot of a numeric literal.
pub open spec fn fraction_len(cs: Seq<char>) -> nat
    decreases cs.len(),
{
    if cs.len() == 0 || cs.last() == '.' || !has_dot(cs.drop_last()) {
        0
    } else {
        fraction_len(cs.drop_last()) + 1
    }
}

pub open spec fn pow10(k: nat) -> int
    decreases k,
{
    if k == 0 {
        1
    } else {
        10 * pow10((k - 1) as nat)
    }
}

/// Every prefix of the literal has a mantissa and a scale within the limit.
pub open spec fn literal_fits(cs: Seq<char>) -> bool
    decreases cs.len(),
{
    cs.len() == 0 || (literal_fits(cs.drop_last()) && mantissa(cs) <= NUM_LIMIT && pow10(
        fraction_len(cs),
    ) <= NUM_LIMIT)
}

proof fn lemma_literal_fits_prefix(cs: Seq<char>, k: int)
    requires
        literal_fits(cs),
        0 <= k <= cs.len(),
    ensures
        literal_fits(cs.subrange(0, k)),
    decreases cs.len(),
{
    if k < cs.len() {
        lemma_literal_fits_prefix(cs.drop_last(), k);
        assert(cs.drop_last().subrange(0, k) =~= cs.subrange(0, k));
    } else {
        assert(cs.subrange(0, k) =~= cs);
    }
}

/// The value of a numeric literal of digits and at most one dot, where it can
/// be held exactly.
pub open spec fn literal_value(cs: Seq<char>) -> Option<Number> {
    if literal_fits(cs) {
        make(reduce(mantissa(cs), pow10(fraction_len(cs))))
    } else {
        None
    }
}

/// Reads the numeric literal `cs[start..end]`, which holds digits and at most
/// one dot.
pub fn parse_literal(cs: &Vec<char>, start: usize, end: usize) -> (r: Option<Number>)
    requires
        start <= end <= cs@.len(),
        forall|i: int| start <= i < end ==> is_digit(#[trigger] cs@[i]) || cs@[i] == '.',
    ensures
        r == literal_value(cs@.subrange(start as int, end as int)),
        r matches Some(x) ==> x.wf(),
{
    let ghost lit = cs@.subrange(start as int, end as int);
    let mut acc: i128 = 0;
    let mut scale: i128 = 1;
    let mut seen_dot = false;
    let mut i = start;
    while i < end
        invariant
            start <= i <= end <= cs@.len(),
            lit == cs@.subrange(start as int, end as int),
            forall|j: int| start <= j < end ==> is_digit(#[trigger] cs@[j]) || cs@[j] == '.',
            literal_fits(cs@.subrange(start as int, i as int)),
            acc == mantissa(cs@.subrange(start as int, i as int)),
            scale == pow10(fraction_len(cs@.subrange(start as int, i as int))),
            seen_dot == has_dot(cs@.subrange(start as int, i as int)),
            0 <= acc <= NUM_LIMIT,
            1 <= scale <= NUM_LIMIT,
        decreases end - i,
    {
        let ghost pre = cs@.subrange(start as int, i as int);
        let ghost next = cs@.subrange(start as int, i + 1);
        assert(next.drop_last() =~= pre);
        assert(next.last() == cs@[i as int]);
        assert(has_dot(next) == (has_dot(pre) || cs@[i as int] == '.')) by {
            if cs@[i as int] == '.' {
                assert(next[next.len() - 1] == '.');
            }
            if has_dot(pre) {
                let k = choose|k: int| 0 <= k < pre.len() && pre[k] == '.';
                assert(next[k] == '.');
            }
            if has_dot(next) && cs@[i as int] != '.' {
                let k = choose|k: int| 0 <= k < next.len() && next[k] == '.';
                assert(pre[k] == '.');
            }
        }
        let c = cs[i];
        if c == '.' {
            seen_dot = true;
            scale = 1;
        } else {
            let dv = (c as u32 - '0' as u32) as i128;
            if acc > (NUM_LIMIT as i128 - dv) / 10 {
                proof {
                    assert(!literal_fits(next));
                    assert(lit.subrange(0, i + 1 - start) =~= next);
                    if literal_fits(lit) {
                        lemma_literal_fits_prefix(lit, i + 1 - start);
                    }
                }
                return None;
            }
            acc = acc * 10 + dv;
            if seen_dot {
                if scale > NUM_LIMIT as i128 / 10 {
                    proof {
                        assert(!literal_fits(next));
                        assert(lit.subrange(0, i + 1 - start) =~= next);
                        if literal_fits(lit) {
                            lemma_literal_fits_prefix(lit, i + 1 - start);
                        }
                    }
                    return None;
                }
                scale = scale * 10;
            } else {
                scale = 1;
            }
        }
        i = i + 1;
    }
    assert(cs@.subrange(start as int, i as int) =~= lit);
    let p = reduce_exec(acc, scale);
    make_exec(p.0, p.1)
}

} // verus!
