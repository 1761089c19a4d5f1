//! Exact rational numbers for the interpreter's value stack.
//!
//! A [`Number`] is a fraction `num / den` with a signed numerator and a
//! positive denominator, both bounded so that every arithmetic operation can
//! be carried out exactly in 128-bit intermediates.  Number literals in
//! source text are decimals, so the lexer always produces denominators that
//! are powers of ten; division may introduce any denominator.  When an exact
//! result would leave the representable range, the operation returns a
//! saturated integer value in the direction of the exact result's sign.

use vstd::prelude::*;

verus! {

/// Largest magnitude a numerator may take.
pub const NUM_LIMIT: i64 = 1_000_000_000_000_000_000;

/// Largest value a denominator may take.
pub const DEN_LIMIT: u64 = 1_000_000_000_000_000_000;

/// A rational number `num / den`.
#[derive(Clone, Copy, PartialEq, Eq, Structural, Debug)]
pub struct Number {
    /// Signed numerator, within `-NUM_LIMIT ..= NUM_LIMIT`.
    pub num: i64,
    /// Positive denominator, within `1 ..= DEN_LIMIT`.
    pub den: u64,
}

impl Number {
    /// The representation invariant: both components stay in bounds, so that
    /// products of two components always fit in 128-bit integers.
    pub open spec fn wf(self) -> bool {
        &&& -(NUM_LIMIT as int) <= self.num as int <= NUM_LIMIT as int
        &&& 1 <= self.den as int <= DEN_LIMIT as int
    }

    /// The numerator is zero exactly when the represented value is zero.
    pub open spec fn is_zero(self) -> bool {
        self.num == 0
    }
}

/// The saturated value used when an exact result of sign `n` does not fit.
pub open spec fn clamp_overflow(n: int) -> Number {
    Number { num: (if n >= 0 { NUM_LIMIT as int } else { -(NUM_LIMIT as int) }) as i64, den: 1 }
}

/// Builds `n / d` when both parts are in range, and saturates otherwise.
pub open spec fn make_number(n: int, d: int) -> Number {
    if -(NUM_LIMIT as int) <= n <= NUM_LIMIT as int && 1 <= d <= DEN_LIMIT as int {
        Number { num: n as i64, den: d as u64 }
    } else {
        clamp_overflow(n)
    }
}

/// Exact sum `a + b` over the common denominator, saturated if out of range.
pub open spec fn spec_add(a: Number, b: Number) -> Number {
    make_number(
        (a.num as int) * (b.den as int) + (b.num as int) * (a.den as int),
        (a.den as int) * (b.den as int),
    )
}

/// Exact difference `a - b` over the common denominator, saturated if out of range.
pub open spec fn spec_sub(a: Number, b: Number) -> Number {
    make_number(
        (a.num as int) * (b.den as int) - (b.num as int) * (a.den as int),
        (a.den as int) * (b.den as int),
    )
}

/// Exact product `a * b`, saturated if out of range.
pub open spec fn spec_mul(a: Number, b: Number) -> Number {
    make_number((a.num as int) * (b.num as int), (a.den as int) * (b.den as int))
}

/// Exact quotient `a / b` for `b` nonzero: multiply by the inverse of `b`,
/// keeping the denominator positive.  Saturated if out of range.
pub open spec fn spec_div(a: Number, b: Number) -> Number {
    if b.num >= 0 {
        make_number((a.num as int) * (b.den as int), (a.den as int) * (b.num as int))
    } else {
        make_number(-((a.num as int) * (b.den as int)), (a.den as int) * (-(b.num as int)))
    }
}

/// Bounds the product of two bounded factors.
proof fn lemma_mul_bound(x: int, y: int, bx: int, by: int)
    requires
        -bx <= x <= bx,
        -by <= y <= by,
        0 <= bx,
        0 <= by,
    ensures
        -(bx * by) <= x * y <= bx * by,
{
    assert(-(bx * by) <= x * y <= bx * by) by (nonlinear_arith)
        requires
            -bx <= x <= bx,
            -by <= y <= by,
            0 <= bx,
            0 <= by,
    ;
}

/// The product of two positive factors is positive.
proof fn lemma_mul_pos(x: int, y: int)
    requires
        x >= 1,
        y >= 1,
    ensures
        x * y >= 1,
{
    assert(x * y >= 1) by (nonlinear_arith)
        requires
            x >= 1,
            y >= 1,
    ;
}

impl Number {
    /// Narrows an exact 128-bit fraction back into a `Number`, saturating.
    fn from_wide(n: i128, d: u128) -> (r: Number)
        requires
            1 <= d,
        ensures
            r == make_number(n as int, d as int),
            r.wf(),
    {
        if -(NUM_LIMIT as i128) <= n && n <= NUM_LIMIT as i128 && d <= DEN_LIMIT as u128 {
            Number { num: n as i64, den: d as u64 }
        } else if n >= 0 {
            Number { num: NUM_LIMIT, den: 1 }
        } else {
            Number { num: -NUM_LIMIT, den: 1 }
        }
    }

    /// Builds `num / den`, saturating out-of-range input; a zero denominator
    /// also saturates, so the result is always well formed.
    pub fn new(num: i64, den: u64) -> (r: Number)
        ensures
            r == make_number(num as int, den as int),
            r.wf(),
    {
        if den == 0 {
            if num >= 0 {
                Number { num: NUM_LIMIT, den: 1 }
            } else {
                Number { num: -NUM_LIMIT, den: 1 }
            }
        } else {
            Self::from_wide(num as i128, den as u128)
        }
    }

    /// The whole number `value / 1`, saturated if out of range.
    pub fn from_int(value: i64) -> (r: Number)
        ensures
            r == make_number(value as int, 1),
            r.wf(),
    {
        Self::new(value, 1)
    }

    /// Exact addition, saturating on overflow.
    pub fn add(self, other: Number) -> (r: Number)
        requires
            self.wf(),
            other.wf(),
        ensures
            r == spec_add(self, other),
            r.wf(),
    {
        proof {
            lemma_mul_bound(self.num as int, other.den as int, NUM_LIMIT as int, DEN_LIMIT as int);
            lemma_mul_bound(other.num as int, self.den as int, NUM_LIMIT as int, DEN_LIMIT as int);
            lemma_mul_bound(self.den as int, other.den as int, DEN_LIMIT as int, DEN_LIMIT as int);
            lemma_mul_pos(self.den as int, other.den as int);
        }
        let n: i128 = (self.num as i128) * (other.den as i128)
            + (other.num as i128) * (self.den as i128);
        let d: u128 = (self.den as u128) * (other.den as u128);
        Self::from_wide(n, d)
    }

    /// Exact subtraction, saturating on overflow.
    pub fn sub(self, other: Number) -> (r: Number)
        requires
            self.wf(),
            other.wf(),
        ensures
            r == spec_sub(self, other),
            r.wf(),
    {
        proof {
            lemma_mul_bound(self.num as int, other.den as int, NUM_LIMIT as int, DEN_LIMIT as int);
            lemma_mul_bound(other.num as int, self.den as int, NUM_LIMIT as int, DEN_LIMIT as int);
            lemma_mul_bound(self.den as int, other.den as int, DEN_LIMIT as int, DEN_LIMIT as int);
            lemma_mul_pos(self.den as int, other.den as int);
        }
        let n: i128 = (self.num as i128) * (other.den as i128)
            - (other.num as i128) * (self.den as i128);
        let d: u128 = (self.den as u128) * (other.den as u128);
        Self::from_wide(n, d)
    }

    /// Exact multiplication, saturating on overflow.
    pub fn mul(self, other: Number) -> (r: Number)
        requires
            self.wf(),
            other.wf(),
        ensures
            r == spec_mul(self, other),
            r.wf(),
    {
        proof {
            lemma_mul_bound(self.num as int, other.num as int, NUM_LIMIT as int, NUM_LIMIT as int);
            lemma_mul_bound(self.den as int, other.den as int, DEN_LIMIT as int, DEN_LIMIT as int);
            lemma_mul_pos(self.den as int, other.den as int);
        }
        let n: i128 = (self.num as i128) * (other.num as i128);
        let d: u128 = (self.den as u128) * (other.den as u128);
        Self::from_wide(n, d)
    }

    /// Exact division for a nonzero divisor, saturating on overflow.
    pub fn div(self, other: Number) -> (r: Number)
        requires
            self.wf(),
            other.wf(),
            !other.is_zero(),
        ensures
            r == spec_div(self, other),
            r.wf(),
    {
        proof {
            lemma_mul_bound(self.num as int, other.den as int, NUM_LIMIT as int, DEN_LIMIT as int);
        }
        let n: i128 = (self.num as i128) * (other.den as i128);
        if other.num > 0 {
            proof {
                lemma_mul_bound(self.den as int, other.num as int, DEN_LIMIT as int, NUM_LIMIT as int);
                lemma_mul_pos(self.den as int, other.num as int);
            }
            let d: i128 = (self.den as i128) * (other.num as i128);
            Self::from_wide(n, d as u128)
        } else {
            proof {
                lemma_mul_bound(self.den as int, -(other.num as int), DEN_LIMIT as int, NUM_LIMIT as int);
                lemma_mul_pos(self.den as int, -(other.num as int));
            }
            let d: i128 = (self.den as i128) * (-(other.num as i128));
            Self::from_wide(-n, d as u128)
        }
    }
}

/// The decimal digits of `n`, most significant first, as ASCII bytes.
pub open spec fn dec_digits(n: nat) -> Seq<u8>
    decreases n,
{
    if n < 10 {
        seq![(48 + n) as u8]
    } else {
        dec_digits(n / 10).push((48 + n % 10) as u8)
    }
}

/// Exactly `k` decimal digits of `n`, leading zeros included.
pub open spec fn dec_digits_padded(n: nat, k: nat) -> Seq<u8>
    decreases k,
{
    if k == 0 {
        Seq::empty()
    } else {
        dec_digits_padded(n / 10, (k - 1) as nat).push((48 + n % 10) as u8)
    }
}

/// Ten to the `k`.
pub open spec fn ten_pow(k: nat) -> int
    decreases k,
{
    if k == 0 {
        1
    } else {
        10 * ten_pow((k - 1) as nat)
    }
}

/// Powers of ten are positive.
pub proof fn lemma_ten_pow_pos(k: nat)
    ensures
        ten_pow(k) >= 1,
    decreases k,
{
    if k > 0 {
        lemma_ten_pow_pos((k - 1) as nat);
    }
}

/// Powers of ten grow with the exponent.
pub proof fn lemma_ten_pow_mono(j: nat, k: nat)
    requires
        j <= k,
    ensures
        ten_pow(j) <= ten_pow(k),
    decreases k,
{
    if j < k {
        lemma_ten_pow_mono(j, (k - 1) as nat);
        lemma_ten_pow_pos((k - 1) as nat);
    }
}

/// The smallest exponent `j` at or above `k` for which `d` divides ten to
/// the `j`, searched no further than eighteen — the largest power of ten a
/// denominator can be.
pub open spec fn decimal_exp_from(d: nat, k: nat) -> Option<nat>
    decreases 19 - k,
{
    if k > 18 {
        None
    } else if ten_pow(k) % (d as int) == 0 {
        Some(k)
    } else {
        decimal_exp_from(d, (k + 1) as nat)
    }
}

/// The textual form of a number: zero as `0`; otherwise an optional minus
/// sign, then the plain numerator for whole numbers, a finite decimal
/// whenever the denominator divides a power of ten and the scaled numerator
/// still fits a machine word, and `numerator/denominator` in every other
/// case.
pub open spec fn spec_render_number(v: Number) -> Seq<u8> {
    let mag = (if v.num < 0 {
        -(v.num as int)
    } else {
        v.num as int
    }) as nat;
    let sign = if v.num < 0 {
        seq![45u8]
    } else {
        Seq::<u8>::empty()
    };
    if v.num == 0 {
        seq![48u8]
    } else if v.den == 1 {
        sign + dec_digits(mag)
    } else {
        match decimal_exp_from(v.den as nat, 0) {
            Some(k) => {
                let p = ten_pow(k);
                let mag2 = (mag as int) * (p / (v.den as int));
                if mag2 <= u64::MAX as int {
                    sign + dec_digits((mag2 / p) as nat) + seq![46u8] + dec_digits_padded(
                        (mag2 % p) as nat,
                        k,
                    )
                } else {
                    sign + dec_digits(mag) + seq![47u8] + dec_digits(v.den as nat)
                }
            },
            None => sign + dec_digits(mag) + seq![47u8] + dec_digits(v.den as nat),
        }
    }
}

/// Writes the decimal digits of `n` in order.
pub fn render_u64(n: u64) -> (r: Vec<u8>)
    ensures
        r@ == dec_digits(n as nat),
    decreases n,
{
    if n < 10 {
        let mut v: Vec<u8> = Vec::new();
        v.push(48 + (n as u8));
        proof {
            assert(v@ =~= dec_digits(n as nat));
        }
        v
    } else {
        let mut v = render_u64(n / 10);
        v.push(48 + ((n % 10) as u8));
        v
    }
}

/// Writes exactly `k` decimal digits of `n`, leading zeros included.
fn render_padded(n: u64, k: usize) -> (r: Vec<u8>)
    ensures
        r@ == dec_digits_padded(n as nat, k as nat),
    decreases k,
{
    if k == 0 {
        let v: Vec<u8> = Vec::new();
        proof {
            assert(v@ =~= dec_digits_padded(n as nat, 0));
        }
        v
    } else {
        let mut v = render_padded(n / 10, k - 1);
        v.push(48 + ((n % 10) as u8));
        v
    }
}

/// Finds the smallest exponent at or above `k` for which `den` divides ten
/// to that exponent, together with that power of ten; `pow` is ten to the
/// `k`.
fn decimal_exp_search(den: u64, k: usize, pow: u64) -> (r: Option<(usize, u64)>)
    requires
        1 <= den,
        k <= 19,
        pow as int == ten_pow(k as nat),
    ensures
        match r {
            Some(kp) => decimal_exp_from(den as nat, k as nat) == Some(kp.0 as nat) && kp.0 <= 18
                && kp.1 as int == ten_pow(kp.0 as nat) && kp.1 % den == 0,
            None => decimal_exp_from(den as nat, k as nat) is None,
        },
    decreases 19 - k,
{
    if k > 18 {
        None
    } else if pow % den == 0 {
        Some((k, pow))
    } else {
        proof {
            lemma_ten_pow_mono(k as nat, 18);
            reveal_with_fuel(ten_pow, 19);
            assert(ten_pow(18) == 1_000_000_000_000_000_000);
        }
        decimal_exp_search(den, k + 1, pow * 10)
    }
}

impl Number {
    /// Renders the number in its textual form.
    pub fn render(self) -> (r: Vec<u8>)
        requires
            self.wf(),
        ensures
            r@ == spec_render_number(self),
    {
        if self.num == 0 {
            let mut v: Vec<u8> = Vec::new();
            v.push(48);
            proof {
                assert(v@ =~= spec_render_number(self));
            }
            return v;
        }
        let mut v: Vec<u8> = Vec::new();
        if self.num < 0 {
            v.push(45);
        }
        let mag: u64 = if self.num < 0 {
            (-self.num) as u64
        } else {
            self.num as u64
        };
        if self.den == 1 {
            let mut ds = render_u64(mag);
            v.append(&mut ds);
        } else {
            let mut decimal_done = false;
            match decimal_exp_search(self.den, 0, 1) {
                Some(kp) => {
                    let (k, pow) = kp;
                    let scale = pow / self.den;
                    proof {
                        lemma_ten_pow_mono(k as nat, 18);
                        reveal_with_fuel(ten_pow, 19);
                        assert(ten_pow(18) == 1_000_000_000_000_000_000);
                        lemma_mul_bound(mag as int, scale as int, NUM_LIMIT as int, DEN_LIMIT as int);
                    }
                    let wide: u128 = (mag as u128) * (scale as u128);
                    if wide <= u64::MAX as u128 {
                        let mag2 = wide as u64;
                        let mut whole = render_u64(mag2 / pow);
                        v.append(&mut whole);
                        v.push(46);
                        let mut frac = render_padded(mag2 % pow, k);
                        v.append(&mut frac);
                        decimal_done = true;
                    }
                },
                None => {},
            }
            if !decimal_done {
                let mut ds = render_u64(mag);
                v.append(&mut ds);
                v.push(47);
                let mut dd = render_u64(self.den);
                v.append(&mut dd);
            }
        }
        proof {
            assert(v@ =~= spec_render_number(self));
        }
        v
    }
}

} // verus!
