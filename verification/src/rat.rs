//! Exact rational arithmetic on 64-bit numerator/denominator pairs.
//!
//! The estimator needs exact scalar arithmetic with division, so its scalars
//! are rationals with an `i64` numerator and a strictly positive `i64`
//! denominator. Every operation computes the exact mathematical result in
//! 128-bit intermediates, reduces it to lowest terms, and reports failure
//! (`None`) precisely when the reduced result does not fit the 64-bit
//! representation.

use vstd::prelude::*;
use vstd::arithmetic::div_mod::{lemma_fundamental_div_mod, lemma_fundamental_div_mod_converse};

verus! {

/// The mathematical value of a rational: an unbounded numerator/denominator
/// pair. A well-formed value keeps `d >= 1`; two values denote the same
/// rational exactly when [`rat_eq`] holds of them.
pub struct SRat {
    pub n: int,
    pub d: int,
}

impl SRat {
    /// Well-formedness: the denominator is strictly positive.
    pub open spec fn wf(self) -> bool {
        self.d >= 1
    }
}

/// The rational zero.
pub open spec fn rat_zero() -> SRat {
    SRat { n: 0, d: 1 }
}

/// The rational one.
pub open spec fn rat_one() -> SRat {
    SRat { n: 1, d: 1 }
}

/// Value equality of two rationals, by cross-multiplication.
pub open spec fn rat_eq(a: SRat, b: SRat) -> bool {
    a.n * b.d == b.n * a.d
}

/// Strict order on rationals (meaningful when both are well-formed).
pub open spec fn rat_lt(a: SRat, b: SRat) -> bool {
    a.n * b.d < b.n * a.d
}

/// Non-strict order on rationals (meaningful when both are well-formed).
pub open spec fn rat_le(a: SRat, b: SRat) -> bool {
    a.n * b.d <= b.n * a.d
}

/// Exact sum of two rationals.
pub open spec fn rat_add(a: SRat, b: SRat) -> SRat {
    SRat { n: a.n * b.d + b.n * a.d, d: a.d * b.d }
}

/// Exact difference of two rationals.
pub open spec fn rat_sub(a: SRat, b: SRat) -> SRat {
    SRat { n: a.n * b.d - b.n * a.d, d: a.d * b.d }
}

/// Exact product of two rationals.
pub open spec fn rat_mul(a: SRat, b: SRat) -> SRat {
    SRat { n: a.n * b.n, d: a.d * b.d }
}

/// Absolute value of an integer, as a natural number.
pub open spec fn nabs(n: int) -> nat {
    if n < 0 {
        (-n) as nat
    } else {
        n as nat
    }
}

/// Exact quotient of two rationals; meaningful only when the divisor is
/// nonzero (the sign is moved onto the numerator so that the result's
/// denominator stays positive).
pub open spec fn rat_div(a: SRat, b: SRat) -> SRat {
    SRat {
        n: if b.n < 0 {
            -(a.n * b.d)
        } else {
            a.n * b.d
        },
        d: a.d * (nabs(b.n) as int),
    }
}

/// Greatest common divisor by Euclid's recursion.
pub open spec fn gcd(a: nat, b: nat) -> nat
    decreases b,
{
    if b == 0 {
        a
    } else {
        gcd(b, a % b)
    }
}

/// A rational reduced to lowest terms (denominator divided by the gcd of the
/// numerator's magnitude and the denominator).
pub open spec fn rat_norm(p: SRat) -> SRat
    recommends
        p.d >= 1,
{
    let g = gcd(nabs(p.n), p.d as nat) as int;
    let m = (nabs(p.n) as int) / g;
    SRat { n: if p.n < 0 { -m } else { m }, d: p.d / g }
}

/// Whether a rational's components fit the 64-bit representation. The range
/// is kept symmetric, so a representable value always has a representable
/// negation.
pub open spec fn rat_fits(p: SRat) -> bool {
    &&& -0x7fff_ffff_ffff_ffff <= p.n <= 0x7fff_ffff_ffff_ffff
    &&& 1 <= p.d <= 0x7fff_ffff_ffff_ffff
}

/// The reduced form of `p` when it is representable, `None` otherwise.
pub open spec fn rat_checked(p: SRat) -> Option<SRat> {
    if rat_fits(rat_norm(p)) {
        Some(rat_norm(p))
    } else {
        None
    }
}

/// Checked sum: the exact sum in lowest terms, or `None` when that does not
/// fit 64 bits.
pub open spec fn c_add(a: SRat, b: SRat) -> Option<SRat> {
    rat_checked(rat_add(a, b))
}

/// Checked difference.
pub open spec fn c_sub(a: SRat, b: SRat) -> Option<SRat> {
    rat_checked(rat_sub(a, b))
}

/// Checked product.
pub open spec fn c_mul(a: SRat, b: SRat) -> Option<SRat> {
    rat_checked(rat_mul(a, b))
}

/// Checked quotient: `None` on a zero divisor, else the exact quotient in
/// lowest terms when it fits 64 bits.
pub open spec fn c_div(a: SRat, b: SRat) -> Option<SRat> {
    if b.n == 0 {
        None
    } else {
        rat_checked(rat_div(a, b))
    }
}

/// Checked sum lifted over earlier checked results.
pub open spec fn o_add(a: Option<SRat>, b: Option<SRat>) -> Option<SRat> {
    match (a, b) {
        (Some(x), Some(y)) => c_add(x, y),
        _ => None,
    }
}

/// Checked difference lifted over earlier checked results.
pub open spec fn o_sub(a: Option<SRat>, b: Option<SRat>) -> Option<SRat> {
    match (a, b) {
        (Some(x), Some(y)) => c_sub(x, y),
        _ => None,
    }
}

/// Checked product lifted over earlier checked results.
pub open spec fn o_mul(a: Option<SRat>, b: Option<SRat>) -> Option<SRat> {
    match (a, b) {
        (Some(x), Some(y)) => c_mul(x, y),
        _ => None,
    }
}

/// An executable rational: numerator and strictly positive denominator.
/// A value built by hand must keep `d >= 1` ([`Rat::wf`]); the constructors
/// and operations only produce such values.
#[derive(Clone, Copy, Debug)]
pub struct Rat {
    pub n: i64,
    pub d: i64,
}

impl View for Rat {
    type V = SRat;

    open spec fn view(&self) -> SRat {
        SRat { n: self.n as int, d: self.d as int }
    }
}

/// How an executable checked result relates to its specification: it is
/// `Some` exactly when the specification is, and then holds exactly the
/// specified (reduced, well-formed) value.
pub open spec fn opt_matches(r: Option<Rat>, c: Option<SRat>) -> bool {
    match r {
        Some(x) => c is Some && x@ == c->Some_0 && x.wf(),
        None => c is None,
    }
}

/// The gcd of `a` and `b` is positive and divides both, provided the two are
/// not both zero.
proof fn lemma_gcd_props(a: nat, b: nat)
    requires
        a + b > 0,
    ensures
        gcd(a, b) >= 1,
        a as int % (gcd(a, b) as int) == 0,
        b as int % (gcd(a, b) as int) == 0,
    decreases b,
{
    if b == 0 {
        lemma_fundamental_div_mod_converse(a as int, a as int, 1, 0);
        lemma_fundamental_div_mod_converse(0, a as int, 0, 0);
    } else {
        lemma_gcd_props(b, a % b);
        let g = gcd(b, a % b) as int;
        let r = (a % b) as int;
        lemma_fundamental_div_mod(a as int, b as int);
        lemma_fundamental_div_mod(b as int, g);
        lemma_fundamental_div_mod(r, g);
        let kb = b as int / g;
        let kr = r / g;
        let q = a as int / b as int;
        assert(a as int == g * (kb * q + kr)) by (nonlinear_arith)
            requires
                b as int == g * kb,
                r == g * kr,
                a as int == b as int * q + r,
        ;
        lemma_fundamental_div_mod_converse(a as int, g, kb * q + kr, 0);
    }
}

/// Reducing a rational preserves its value and keeps the denominator
/// positive; the numerator keeps its sign.
pub proof fn lemma_norm_eq(p: SRat)
    requires
        p.d >= 1,
    ensures
        rat_norm(p).d >= 1,
        rat_eq(rat_norm(p), p),
        rat_norm(p).n == 0 <==> p.n == 0,
        rat_norm(p).n < 0 <==> p.n < 0,
{
    let na = nabs(p.n);
    lemma_gcd_props(na, p.d as nat);
    let g = gcd(na, p.d as nat) as int;
    lemma_fundamental_div_mod(na as int, g);
    lemma_fundamental_div_mod(p.d, g);
    let qn = na as int / g;
    let qd = p.d / g;
    assert(na as int == g * qn);
    assert(p.d == g * qd);
    assert(qd >= 1) by (nonlinear_arith)
        requires
            p.d == g * qd,
            p.d >= 1,
            g >= 1,
    ;
    assert(qn >= 0) by (nonlinear_arith)
        requires
            na as int == g * qn,
            na as int >= 0,
            g >= 1,
    ;
    if p.n < 0 {
        assert((-qn) * p.d == p.n * qd) by (nonlinear_arith)
            requires
                na as int == g * qn,
                p.d == g * qd,
                p.n == -(na as int),
        ;
        assert(qn > 0) by (nonlinear_arith)
            requires
                na as int == g * qn,
                na as int > 0,
                g >= 1,
                qn >= 0,
        ;
    } else {
        assert(qn * p.d == p.n * qd) by (nonlinear_arith)
            requires
                na as int == g * qn,
                p.d == g * qd,
                p.n == na as int,
        ;
        assert(p.n == 0 ==> qn == 0);
        assert(qn == 0 ==> p.n == 0) by (nonlinear_arith)
            requires
                na as int == g * qn,
                p.n == na as int,
        ;
    }
}

/// Bound on a product of two factors of 64-bit magnitude.
proof fn lemma_prod_bound(x: int, y: int)
    by (nonlinear_arith)
    requires
        -0x8000_0000_0000_0000 <= x <= 0x8000_0000_0000_0000,
        -0x8000_0000_0000_0000 <= y <= 0x8000_0000_0000_0000,
    ensures
        -0x4000_0000_0000_0000_0000_0000_0000_0000 <= x * y
            <= 0x4000_0000_0000_0000_0000_0000_0000_0000,
{
}

/// Tighter bound for a numerator/denominator product: small enough that two
/// such products can be added in 128 bits.
proof fn lemma_num_den_bound(x: int, d: int)
    by (nonlinear_arith)
    requires
        -0x8000_0000_0000_0000 <= x <= 0x8000_0000_0000_0000,
        1 <= d <= 0x7fff_ffff_ffff_ffff,
    ensures
        -0x3fff_ffff_ffff_ffff_8000_0000_0000_0000 <= x * d
            <= 0x3fff_ffff_ffff_ffff_8000_0000_0000_0000,
{
}

/// A product of two positive denominators is a positive denominator.
proof fn lemma_den_prod(d1: int, d2: int)
    by (nonlinear_arith)
    requires
        1 <= d1 <= 0x7fff_ffff_ffff_ffff,
        1 <= d2 <= 0x7fff_ffff_ffff_ffff,
    ensures
        1 <= d1 * d2 <= 0x3fff_ffff_ffff_ffff_8000_0000_0000_0000,
{
}

/// Euclid's algorithm.
fn gcd_u(a: u128, b: u128) -> (g: u128)
    ensures
        g as nat == gcd(a as nat, b as nat),
    decreases b,
{
    if b == 0 {
        a
    } else {
        gcd_u(b, a % b)
    }
}

impl Rat {
    /// Well-formedness of the representation: positive denominator.
    pub open spec fn wf(self) -> bool {
        self.d >= 1
    }

    /// Builds the reduced representation of `n / d` for an exact
    /// 128-bit intermediate result, failing exactly when the reduced form
    /// does not fit 64 bits.
    fn mk(n: i128, d: i128) -> (r: Option<Rat>)
        requires
            d >= 1,
            n > i128::MIN,
        ensures
            opt_matches(r, rat_checked(SRat { n: n as int, d: d as int })),
    {
        let neg = n < 0;
        let na: u128 = if neg {
            (-n) as u128
        } else {
            n as u128
        };
        let du: u128 = d as u128;
        proof {
            lemma_gcd_props(na as nat, du as nat);
        }
        let g = gcd_u(na, du);
        let nn = na / g;
        let dd = du / g;
        proof {
            let gi = g as int;
            lemma_fundamental_div_mod(na as int, gi);
            lemma_fundamental_div_mod(du as int, gi);
            assert(dd as int >= 1) by (nonlinear_arith)
                requires
                    du as int == gi * (dd as int),
                    du as int >= 1,
                    gi >= 1,
            ;
        }
        if nn <= 0x7fff_ffff_ffff_ffff && dd <= 0x7fff_ffff_ffff_ffff {
            let ni: i64 = if neg {
                -(nn as i64)
            } else {
                nn as i64
            };
            Some(Rat { n: ni, d: dd as i64 })
        } else {
            None
        }
    }

    /// The rational `n / d`, reduced; `None` when `d` is zero or the reduced
    /// form does not fit 64 bits. A negative `d` moves the sign onto the
    /// numerator.
    pub fn new(n: i64, d: i64) -> (r: Option<Rat>)
        ensures
            d == 0 ==> r is None,
            d != 0 ==> opt_matches(
                r,
                rat_checked(
                    if d < 0 {
                        SRat { n: -(n as int), d: -(d as int) }
                    } else {
                        SRat { n: n as int, d: d as int }
                    },
                ),
            ),
    {
        if d == 0 {
            None
        } else if d < 0 {
            Self::mk(-(n as i128), -(d as i128))
        } else {
            Self::mk(n as i128, d as i128)
        }
    }

    /// The rational `i / 1`.
    pub fn from_int(i: i64) -> (r: Rat)
        ensures
            r@ == (SRat { n: i as int, d: 1 }),
            r.wf(),
    {
        Rat { n: i, d: 1 }
    }

    /// The numerator of the stored (reduced) representation.
    pub fn num(&self) -> (r: i64)
        ensures
            r as int == self@.n,
    {
        self.n
    }

    /// The denominator of the stored (reduced) representation.
    pub fn den(&self) -> (r: i64)
        ensures
            r as int == self@.d,
    {
        self.d
    }

    /// Checked exact sum.
    pub fn checked_add(&self, o: &Rat) -> (r: Option<Rat>)
        requires
            self.wf(),
            o.wf(),
        ensures
            opt_matches(r, c_add(self@, o@)),
    {
        let a = self.n as i128;
        let b = self.d as i128;
        let c = o.n as i128;
        let e = o.d as i128;
        proof {
            lemma_num_den_bound(a as int, e as int);
            lemma_num_den_bound(c as int, b as int);
            lemma_den_prod(b as int, e as int);
        }
        Self::mk(a * e + c * b, b * e)
    }

    /// Checked exact difference.
    pub fn checked_sub(&self, o: &Rat) -> (r: Option<Rat>)
        requires
            self.wf(),
            o.wf(),
        ensures
            opt_matches(r, c_sub(self@, o@)),
    {
        let a = self.n as i128;
        let b = self.d as i128;
        let c = o.n as i128;
        let e = o.d as i128;
        proof {
            lemma_num_den_bound(a as int, e as int);
            lemma_num_den_bound(c as int, b as int);
            lemma_den_prod(b as int, e as int);
        }
        Self::mk(a * e - c * b, b * e)
    }

    /// Checked exact product.
    pub fn checked_mul(&self, o: &Rat) -> (r: Option<Rat>)
        requires
            self.wf(),
            o.wf(),
        ensures
            opt_matches(r, c_mul(self@, o@)),
    {
        let a = self.n as i128;
        let b = self.d as i128;
        let c = o.n as i128;
        let e = o.d as i128;
        proof {
            lemma_prod_bound(a as int, c as int);
            lemma_den_prod(b as int, e as int);
        }
        Self::mk(a * c, b * e)
    }

    /// Checked exact quotient; `None` on a zero divisor.
    pub fn checked_div(&self, o: &Rat) -> (r: Option<Rat>)
        requires
            self.wf(),
            o.wf(),
        ensures
            opt_matches(r, c_div(self@, o@)),
    {
        if o.n == 0 {
            None
        } else {
            let a = self.n as i128;
            let b = self.d as i128;
            let c = o.n as i128;
            let e = o.d as i128;
            let cm: i128 = if c < 0 {
                -c
            } else {
                c
            };
            proof {
                lemma_num_den_bound(a as int, e as int);
                lemma_prod_bound(b as int, cm as int);
                assert(1 <= b * cm) by (nonlinear_arith)
                    requires
                        b >= 1,
                        cm >= 1,
                ;
            }
            let num: i128 = if c < 0 {
                -(a * e)
            } else {
                a * e
            };
            Self::mk(num, b * cm)
        }
    }

    /// Whether `self` denotes a strictly smaller rational than `o`.
    pub fn lt(&self, o: &Rat) -> (r: bool)
        requires
            self.wf(),
            o.wf(),
        ensures
            r == rat_lt(self@, o@),
    {
        proof {
            lemma_num_den_bound(self.n as int, o.d as int);
            lemma_num_den_bound(o.n as int, self.d as int);
        }
        (self.n as i128) * (o.d as i128) < (o.n as i128) * (self.d as i128)
    }

    /// Whether `self` denotes a rational no greater than `o`.
    pub fn le(&self, o: &Rat) -> (r: bool)
        requires
            self.wf(),
            o.wf(),
        ensures
            r == rat_le(self@, o@),
    {
        proof {
            lemma_num_den_bound(self.n as int, o.d as int);
            lemma_num_den_bound(o.n as int, self.d as int);
        }
        (self.n as i128) * (o.d as i128) <= (o.n as i128) * (self.d as i128)
    }

    /// Whether `self` and `o` denote the same rational.
    pub fn eq_value(&self, o: &Rat) -> (r: bool)
        requires
            self.wf(),
            o.wf(),
        ensures
            r == rat_eq(self@, o@),
    {
        proof {
            lemma_num_den_bound(self.n as int, o.d as int);
            lemma_num_den_bound(o.n as int, self.d as int);
        }
        (self.n as i128) * (o.d as i128) == (o.n as i128) * (self.d as i128)
    }

    /// Whether `self` denotes zero.
    pub fn is_zero(&self) -> (r: bool)
        requires
            self.wf(),
        ensures
            r == (self@.n == 0),
    {
        self.n == 0
    }
}

} // verus!
