//! Properties of the estimator, proved once for every input they speak of.
//!
//! The value-meaning lemmas ([`lemma_predict_values`],
//! [`lemma_update_values`]) restate the two steps' exact contracts as plain
//! rational equations: the integration order of the prediction, and the
//! gain `a / (a + r)` blending the innovation into the state. On top of
//! them: a prediction with zero acceleration keeps a resting state at rest
//! while every covariance diagonal strictly grows
//! ([`lemma_predict_zero_accel`]); a correction with a measurement equal to
//! the predicted position leaves the state alone and pushes the position
//! variances strictly down and strictly below the measurement noise
//! magnitude, so repeated confirming cycles cannot diverge
//! ([`lemma_update_confirming`]); a correction with any other measurement
//! moves the position estimate strictly between its old value and the
//! measurement ([`lemma_update_pulls`]); and a positive configuration never
//! yields a singular innovation covariance
//! ([`lemma_update_not_singular`]).

use vstd::prelude::*;
use crate::rat::{
    c_add, c_div, c_mul, c_sub, rat_add, rat_checked, rat_div, rat_eq, rat_le, rat_lt, rat_mul,
    rat_one, rat_sub, rat_zero, lemma_norm_eq, nabs, SRat,
};
use crate::ekf::{c_predict, c_predict_axis, c_update, c_update_axis, SCovBlock, SVec2, SpecEkf,
    UpdOutcome};

verus! {

/// A product of two positive denominators is positive.
proof fn lemma_den_pos(x: int, y: int)
    by (nonlinear_arith)
    requires
        x >= 1,
        y >= 1,
    ensures
        x * y >= 1,
{
}

/// Signs of a rational are the signs of its numerator.
proof fn lemma_sign(x: SRat)
    by (nonlinear_arith)
    requires
        x.d >= 1,
    ensures
        rat_le(rat_zero(), x) <==> x.n >= 0,
        rat_lt(rat_zero(), x) <==> x.n > 0,
        rat_lt(x, rat_zero()) <==> x.n < 0,
{
}

/// A representable checked result denotes the exact unreduced value and
/// keeps its sign.
proof fn lemma_checked_val(p: SRat)
    requires
        p.d >= 1,
        rat_checked(p) is Some,
    ensures
        (rat_checked(p)->Some_0).wf(),
        rat_eq(rat_checked(p)->Some_0, p),
        (rat_checked(p)->Some_0).n == 0 <==> p.n == 0,
        (rat_checked(p)->Some_0).n < 0 <==> p.n < 0,
        (rat_checked(p)->Some_0).n > 0 <==> p.n > 0,
{
    lemma_norm_eq(p);
}

/// The checked sum denotes the exact sum.
proof fn lemma_c_add_val(a: SRat, b: SRat)
    requires
        a.wf(),
        b.wf(),
        c_add(a, b) is Some,
    ensures
        (c_add(a, b)->Some_0).wf(),
        rat_eq(c_add(a, b)->Some_0, rat_add(a, b)),
        (c_add(a, b)->Some_0).n == 0 <==> rat_add(a, b).n == 0,
        (c_add(a, b)->Some_0).n > 0 <==> rat_add(a, b).n > 0,
        (c_add(a, b)->Some_0).n >= 0 <==> rat_add(a, b).n >= 0,
{
    lemma_den_pos(a.d, b.d);
    lemma_checked_val(rat_add(a, b));
}

/// The checked difference denotes the exact difference.
proof fn lemma_c_sub_val(a: SRat, b: SRat)
    requires
        a.wf(),
        b.wf(),
        c_sub(a, b) is Some,
    ensures
        (c_sub(a, b)->Some_0).wf(),
        rat_eq(c_sub(a, b)->Some_0, rat_sub(a, b)),
        (c_sub(a, b)->Some_0).n == 0 <==> rat_sub(a, b).n == 0,
        (c_sub(a, b)->Some_0).n > 0 <==> rat_sub(a, b).n > 0,
{
    lemma_den_pos(a.d, b.d);
    lemma_checked_val(rat_sub(a, b));
}

/// The checked product denotes the exact product.
proof fn lemma_c_mul_val(a: SRat, b: SRat)
    requires
        a.wf(),
        b.wf(),
        c_mul(a, b) is Some,
    ensures
        (c_mul(a, b)->Some_0).wf(),
        rat_eq(c_mul(a, b)->Some_0, rat_mul(a, b)),
        (c_mul(a, b)->Some_0).n == 0 <==> rat_mul(a, b).n == 0,
        (c_mul(a, b)->Some_0).n > 0 <==> rat_mul(a, b).n > 0,
        (c_mul(a, b)->Some_0).n >= 0 <==> rat_mul(a, b).n >= 0,
{
    lemma_den_pos(a.d, b.d);
    lemma_checked_val(rat_mul(a, b));
}

/// The checked quotient denotes the exact quotient.
proof fn lemma_c_div_val(a: SRat, b: SRat)
    requires
        a.wf(),
        b.wf(),
        b.n != 0,
        c_div(a, b) is Some,
    ensures
        (c_div(a, b)->Some_0).wf(),
        rat_eq(c_div(a, b)->Some_0, rat_div(a, b)),
        (c_div(a, b)->Some_0).n == 0 <==> rat_div(a, b).n == 0,
        (c_div(a, b)->Some_0).n > 0 <==> rat_div(a, b).n > 0,
{
    assert(rat_div(a, b).d >= 1) by (nonlinear_arith)
        requires
            a.d >= 1,
            b.n != 0,
            rat_div(a, b).d == a.d * (nabs(b.n) as int),
            nabs(b.n) as int >= 1,
    ;
    lemma_checked_val(rat_div(a, b));
}

/// Value equality is transitive.
proof fn lemma_eq_trans(a: SRat, b: SRat, c: SRat)
    by (nonlinear_arith)
    requires
        a.d >= 1,
        b.d >= 1,
        c.d >= 1,
        rat_eq(a, b),
        rat_eq(b, c),
    ensures
        rat_eq(a, c),
{
}

/// Order respects value equality on the left.
proof fn lemma_lt_resp_l(a: SRat, a2: SRat, b: SRat)
    by (nonlinear_arith)
    requires
        a.d >= 1,
        a2.d >= 1,
        b.d >= 1,
        rat_eq(a, a2),
    ensures
        rat_lt(a, b) <==> rat_lt(a2, b),
        rat_le(a, b) <==> rat_le(a2, b),
{
}

/// Order respects value equality on the right.
proof fn lemma_lt_resp_r(a: SRat, b: SRat, b2: SRat)
    by (nonlinear_arith)
    requires
        a.d >= 1,
        b.d >= 1,
        b2.d >= 1,
        rat_eq(b, b2),
    ensures
        rat_lt(a, b) <==> rat_lt(a, b2),
        rat_le(a, b) <==> rat_le(a, b2),
{
}

/// The order is transitive, in its strict, non-strict and mixed forms.
proof fn lemma_ord_trans(a: SRat, b: SRat, c: SRat)
    by (nonlinear_arith)
    requires
        a.d >= 1,
        b.d >= 1,
        c.d >= 1,
    ensures
        rat_le(a, b) && rat_le(b, c) ==> rat_le(a, c),
        rat_le(a, b) && rat_lt(b, c) ==> rat_lt(a, c),
        rat_lt(a, b) && rat_le(b, c) ==> rat_lt(a, c),
{
}

/// Adding zero changes nothing; adding a (non)negative value cannot shrink.
proof fn lemma_add_grows(a: SRat, u: SRat)
    by (nonlinear_arith)
    requires
        a.d >= 1,
        u.d >= 1,
    ensures
        u.n == 0 ==> rat_eq(rat_add(a, u), a),
        u.n >= 0 ==> rat_le(a, rat_add(a, u)),
        u.n > 0 ==> rat_lt(a, rat_add(a, u)),
{
}

/// Sum and product of nonnegative values are nonnegative; a product with a
/// zero factor is zero.
proof fn lemma_signs_ops(a: SRat, b: SRat)
    by (nonlinear_arith)
    requires
        a.d >= 1,
        b.d >= 1,
    ensures
        a.n >= 0 && b.n >= 0 ==> rat_add(a, b).n >= 0,
        a.n >= 0 && b.n >= 0 ==> rat_mul(a, b).n >= 0,
        a.n > 0 && b.n > 0 ==> rat_add(a, b).n > 0,
        a.n == 0 || b.n == 0 ==> rat_mul(a, b).n == 0,
{
}

/// Addition of a common value keeps the order.
proof fn lemma_add_mono(a: SRat, b: SRat, u: SRat)
    by (nonlinear_arith)
    requires
        a.d >= 1,
        b.d >= 1,
        u.d >= 1,
        rat_le(a, b),
    ensures
        rat_le(rat_add(a, u), rat_add(b, u)),
{
}

/// Multiplication respects value equality in the right factor.
proof fn lemma_mul_cong_r(k: SRat, u: SRat, u2: SRat)
    by (nonlinear_arith)
    requires
        k.d >= 1,
        u.d >= 1,
        u2.d >= 1,
        rat_eq(u, u2),
    ensures
        rat_eq(rat_mul(k, u), rat_mul(k, u2)),
{
}

/// Addition respects value equality in the left summand.
proof fn lemma_add_cong_l(u: SRat, u2: SRat, b: SRat)
    by (nonlinear_arith)
    requires
        u.d >= 1,
        u2.d >= 1,
        b.d >= 1,
        rat_eq(u, u2),
    ensures
        rat_eq(rat_add(u, b), rat_add(u2, b)),
{
}

/// Addition respects value equality in the right summand.
proof fn lemma_add_cong_r(p: SRat, u: SRat, u2: SRat)
    by (nonlinear_arith)
    requires
        p.d >= 1,
        u.d >= 1,
        u2.d >= 1,
        rat_eq(u, u2),
    ensures
        rat_eq(rat_add(p, u), rat_add(p, u2)),
{
}

/// Multiplication respects value equality in the left factor.
proof fn lemma_mul_cong_l(k: SRat, k2: SRat, u: SRat)
    by (nonlinear_arith)
    requires
        k.d >= 1,
        k2.d >= 1,
        u.d >= 1,
        rat_eq(k, k2),
    ensures
        rat_eq(rat_mul(k, u), rat_mul(k2, u)),
{
}

/// Subtraction respects value equality in the subtrahend.
proof fn lemma_sub_cong_r(x: SRat, u: SRat, u2: SRat)
    by (nonlinear_arith)
    requires
        x.d >= 1,
        u.d >= 1,
        u2.d >= 1,
        rat_eq(u, u2),
    ensures
        rat_eq(rat_sub(x, u), rat_sub(x, u2)),
{
}

/// Division respects value equality in a positive divisor.
proof fn lemma_div_cong_r(a: SRat, s: SRat, s2: SRat)
    requires
        a.d >= 1,
        s.d >= 1,
        s2.d >= 1,
        s.n > 0,
        s2.n > 0,
        rat_eq(s, s2),
    ensures
        rat_eq(rat_div(a, s), rat_div(a, s2)),
{
    assert(rat_eq(rat_div(a, s), rat_div(a, s2))) by (nonlinear_arith)
        requires
            rat_div(a, s).n == a.n * s.d,
            rat_div(a, s).d == a.d * (nabs(s.n) as int),
            rat_div(a, s2).n == a.n * s2.d,
            rat_div(a, s2).d == a.d * (nabs(s2.n) as int),
            nabs(s.n) == s.n,
            nabs(s2.n) == s2.n,
            rat_eq(s, s2),
    ;
}

/// Scaling a positive value by a factor strictly between zero and one
/// strictly shrinks it.
proof fn lemma_mul_shrinks(w: SRat, a: SRat)
    by (nonlinear_arith)
    requires
        w.d >= 1,
        a.d >= 1,
        0 < w.n < w.d,
        a.n > 0,
    ensures
        rat_lt(rat_mul(w, a), a),
        rat_mul(w, a).n > 0,
{
}

/// Moving from `p` toward `m` by a fraction strictly between zero and one
/// of the gap lands strictly between the two.
proof fn lemma_between(p: SRat, k: SRat, m: SRat)
    requires
        p.d >= 1,
        k.d >= 1,
        m.d >= 1,
        0 < k.n < k.d,
    ensures
        rat_lt(p, m) ==> rat_lt(p, rat_add(p, rat_mul(k, rat_sub(m, p)))) && rat_lt(
            rat_add(p, rat_mul(k, rat_sub(m, p))),
            m,
        ),
        rat_lt(m, p) ==> rat_lt(m, rat_add(p, rat_mul(k, rat_sub(m, p)))) && rat_lt(
            rat_add(p, rat_mul(k, rat_sub(m, p))),
            p,
        ),
{
    let dn = m.n * p.d - p.n * m.d;
    let x = rat_add(p, rat_mul(k, rat_sub(m, p)));
    assert(x.n == p.n * (k.d * (m.d * p.d)) + (k.n * dn) * p.d && x.d == p.d * (k.d * (m.d
        * p.d))) by (nonlinear_arith)
        requires
            dn == m.n * p.d - p.n * m.d,
            x == rat_add(p, rat_mul(k, rat_sub(m, p))),
    ;
    assert(dn > 0 ==> rat_lt(p, x) && rat_lt(x, m)) by (nonlinear_arith)
        requires
            p.d >= 1,
            k.d >= 1,
            m.d >= 1,
            0 < k.n < k.d,
            dn == m.n * p.d - p.n * m.d,
            x.n == p.n * (k.d * (m.d * p.d)) + (k.n * dn) * p.d,
            x.d == p.d * (k.d * (m.d * p.d)),
    ;
    assert(dn < 0 ==> rat_lt(m, x) && rat_lt(x, p)) by (nonlinear_arith)
        requires
            p.d >= 1,
            k.d >= 1,
            m.d >= 1,
            0 < k.n < k.d,
            dn == m.n * p.d - p.n * m.d,
            x.n == p.n * (k.d * (m.d * p.d)) + (k.n * dn) * p.d,
            x.d == p.d * (k.d * (m.d * p.d)),
    ;
}

/// Facts shared by the per-axis correction lemmas: the exact values of the
/// gain and the new state, and the gain lying strictly between zero and one.
proof fn axis_update_vals(p: SRat, vel: SRat, cb: SCovBlock, s: SRat, m: SRat)
    requires
        p.wf(),
        vel.wf(),
        cb.wf(),
        s.wf(),
        m.wf(),
        cb.a.n > 0,
        s.n > 0,
        rat_lt(cb.a, s),
        c_update_axis(p, vel, cb, s, m) is Some,
    ensures
        ({
            let t = c_update_axis(p, vel, cb, s, m)->Some_0;
            let k0 = c_div(cb.a, s)->Some_0;
            let dx = c_sub(m, p)->Some_0;
            &&& t.0.wf() && t.1.wf() && t.2.wf()
            &&& k0.wf()
            &&& 0 < k0.n < k0.d
            &&& rat_eq(dx, rat_sub(m, p))
            &&& rat_eq(t.0, rat_add(p, rat_mul(k0, dx)))
            &&& rat_eq(t.1, rat_add(vel, rat_mul(c_div(cb.c, s)->Some_0, dx)))
            &&& rat_lt(t.2.a, cb.a)
            &&& t.2.a.n > 0
        }),
{
    let t = c_update_axis(p, vel, cb, s, m)->Some_0;
    let dx = c_sub(m, p)->Some_0;
    let k0 = c_div(cb.a, s)->Some_0;
    let k1 = c_div(cb.c, s)->Some_0;
    lemma_c_sub_val(m, p);
    lemma_c_div_val(cb.a, s);
    lemma_c_div_val(cb.c, s);
    // the raw quotient a/s lies strictly between zero and one
    let kraw = rat_div(cb.a, s);
    assert(0 < kraw.n && kraw.n * 1 < 1 * kraw.d) by (nonlinear_arith)
        requires
            kraw.n == cb.a.n * s.d,
            kraw.d == cb.a.d * (nabs(s.n) as int),
            cb.a.n > 0,
            s.n > 0,
            nabs(s.n) == s.n,
            cb.a.d >= 1,
            s.d >= 1,
            rat_lt(cb.a, s),
    ;
    // and so does its reduced form k0
    assert(rat_lt(rat_zero(), kraw) && rat_lt(kraw, rat_one())) by (nonlinear_arith)
        requires
            0 < kraw.n,
            kraw.n < kraw.d,
            kraw.d >= 1,
    ;
    lemma_lt_resp_r(rat_zero(), kraw, k0);
    lemma_lt_resp_l(kraw, k0, rat_one());
    assert(0 < k0.n && k0.n < k0.d) by (nonlinear_arith)
        requires
            k0.d >= 1,
            rat_lt(rat_zero(), k0),
            rat_lt(k0, rat_one()),
    ;
    // new state values
    lemma_c_mul_val(k0, dx);
    lemma_den_pos(k0.d, dx.d);
    lemma_den_pos(p.d, (c_mul(k0, dx)->Some_0).d);
    lemma_den_pos(p.d, rat_mul(k0, dx).d);
    lemma_c_add_val(p, c_mul(k0, dx)->Some_0);
    lemma_add_cong_r(p, c_mul(k0, dx)->Some_0, rat_mul(k0, dx));
    lemma_eq_trans(t.0, rat_add(p, c_mul(k0, dx)->Some_0), rat_add(p, rat_mul(k0, dx)));
    lemma_c_mul_val(k1, dx);
    lemma_den_pos(k1.d, dx.d);
    lemma_den_pos(vel.d, (c_mul(k1, dx)->Some_0).d);
    lemma_den_pos(vel.d, rat_mul(k1, dx).d);
    lemma_c_add_val(vel, c_mul(k1, dx)->Some_0);
    lemma_add_cong_r(vel, c_mul(k1, dx)->Some_0, rat_mul(k1, dx));
    lemma_eq_trans(t.1, rat_add(vel, c_mul(k1, dx)->Some_0), rat_add(vel, rat_mul(k1, dx)));
    // the new position variance (1 - k0) * a strictly shrinks
    let om = c_sub(rat_one(), k0)->Some_0;
    lemma_c_sub_val(rat_one(), k0);
    assert(rat_sub(rat_one(), k0).n == k0.d - k0.n && rat_sub(rat_one(), k0).d == k0.d);
    lemma_c_mul_val(om, cb.a);
    let wraw = rat_sub(rat_one(), k0);
    assert(0 < om.n * wraw.d && om.n * wraw.d == wraw.n * om.d && 0 < wraw.n) by (nonlinear_arith)
        requires
            rat_eq(om, wraw),
            om.n > 0 <==> wraw.n > 0,
            wraw.n == k0.d - k0.n,
            0 < k0.n < k0.d,
            om.d >= 1,
            wraw.d >= 1,
    ;
    assert(0 < om.n < om.d) by (nonlinear_arith)
        requires
            om.d >= 1,
            wraw.d >= 1,
            om.n * wraw.d == wraw.n * om.d,
            wraw.n < wraw.d,
            wraw.n > 0,
            om.n > 0,
    ;
    lemma_mul_shrinks(om, cb.a);
    lemma_lt_resp_l(rat_mul(om, cb.a), t.2.a, cb.a);
    assert(t.2.a.n > 0) by (nonlinear_arith)
        requires
            t.2.a.d >= 1,
            rat_mul(om, cb.a).n > 0 <==> t.2.a.n > 0,
            rat_mul(om, cb.a).n > 0,
    ;
}

/// A prediction with zero acceleration, from a resting state with a
/// nonnegative covariance block and positive process noise, keeps position
/// and velocity unchanged, grows both covariance diagonals strictly — the
/// velocity variance by exactly the process-noise magnitude, the position
/// variance by at least it — and keeps the block nonnegative (so the claim
/// chains over repeated predictions).
proof fn axis_predict_rest(p: SRat, vel: SRat, cb: SCovBlock, acc: SRat, dt: SRat, q: SRat)
    requires
        p.wf(),
        vel.wf(),
        cb.wf(),
        acc.wf(),
        dt.wf(),
        q.wf(),
        rat_lt(rat_zero(), dt),
        acc.n == 0,
        vel.n == 0,
        cb.a.n >= 0,
        cb.c.n >= 0,
        cb.v.n >= 0,
        q.n > 0,
        c_predict_axis(p, vel, cb, acc, dt, q) is Some,
    ensures
        ({
            let t = c_predict_axis(p, vel, cb, acc, dt, q)->Some_0;
            &&& rat_eq(t.0, p)
            &&& t.1.n == 0
            &&& rat_lt(cb.a, t.2.a)
            &&& rat_le(rat_add(cb.a, q), t.2.a)
            &&& rat_lt(cb.v, t.2.v)
            &&& rat_eq(t.2.v, rat_add(cb.v, q))
            &&& t.2.a.n >= 0
            &&& t.2.c.n >= 0
            &&& t.2.v.n >= 0
        }),
{
    let t = c_predict_axis(p, vel, cb, acc, dt, q)->Some_0;
    lemma_sign(dt);
    // velocity: vel + acc * dt stays zero
    let t1 = c_mul(acc, dt)->Some_0;
    lemma_c_mul_val(acc, dt);
    lemma_signs_ops(acc, dt);
    let vel2 = c_add(vel, t1)->Some_0;
    lemma_c_add_val(vel, t1);
    assert(rat_add(vel, t1).n == 0) by (nonlinear_arith)
        requires
            vel.n == 0,
            t1.n == 0,
            rat_add(vel, t1).n == vel.n * t1.d + t1.n * vel.d,
    ;
    // position: p + vel2 * dt stays p
    let t2 = c_mul(vel2, dt)->Some_0;
    lemma_c_mul_val(vel2, dt);
    lemma_signs_ops(vel2, dt);
    lemma_c_add_val(p, t2);
    lemma_add_grows(p, t2);
    lemma_eq_trans(t.0, rat_add(p, t2), p);
    // covariance: c' = c + dt*v
    let u1 = c_mul(dt, cb.v)->Some_0;
    lemma_c_mul_val(dt, cb.v);
    lemma_signs_ops(dt, cb.v);
    let c2 = c_add(cb.c, u1)->Some_0;
    lemma_c_add_val(cb.c, u1);
    lemma_signs_ops(cb.c, u1);
    // covariance: a' = ((a + dt*c) + dt*c') + q
    let u2 = c_mul(dt, cb.c)->Some_0;
    lemma_c_mul_val(dt, cb.c);
    lemma_signs_ops(dt, cb.c);
    let a1 = c_add(cb.a, u2)->Some_0;
    lemma_c_add_val(cb.a, u2);
    lemma_signs_ops(cb.a, u2);
    lemma_add_grows(cb.a, u2);
    lemma_lt_resp_r(cb.a, rat_add(cb.a, u2), a1);
    let u3 = c_mul(dt, c2)->Some_0;
    lemma_c_mul_val(dt, c2);
    lemma_signs_ops(dt, c2);
    let a2 = c_add(a1, u3)->Some_0;
    lemma_c_add_val(a1, u3);
    lemma_signs_ops(a1, u3);
    lemma_add_grows(a1, u3);
    lemma_lt_resp_r(a1, rat_add(a1, u3), a2);
    lemma_c_add_val(a2, q);
    lemma_signs_ops(a2, q);
    lemma_add_grows(a2, q);
    lemma_lt_resp_r(a2, rat_add(a2, q), t.2.a);
    // chain: a <= a1 <= a2 < a'
    lemma_ord_trans(cb.a, a1, a2);
    lemma_ord_trans(cb.a, a2, t.2.a);
    // a' >= a + q
    lemma_ord_trans(rat_zero(), cb.a, a2);
    lemma_add_mono(cb.a, a2, q);
    lemma_den_pos(cb.a.d, q.d);
    lemma_den_pos(a2.d, q.d);
    lemma_lt_resp_r(rat_add(cb.a, q), rat_add(a2, q), t.2.a);
    // v' = v + q, exactly
    lemma_c_add_val(cb.v, q);
    lemma_signs_ops(cb.v, q);
    lemma_add_grows(cb.v, q);
    lemma_lt_resp_r(cb.v, rat_add(cb.v, q), t.2.v);
}

/// Per-axis value meaning of a successful prediction step.
proof fn axis_predict_values(p: SRat, vel: SRat, cb: SCovBlock, acc: SRat, dt: SRat, q: SRat)
    requires
        p.wf(),
        vel.wf(),
        cb.wf(),
        acc.wf(),
        dt.wf(),
        q.wf(),
        c_predict_axis(p, vel, cb, acc, dt, q) is Some,
    ensures
        ({
            let t = c_predict_axis(p, vel, cb, acc, dt, q)->Some_0;
            &&& rat_eq(t.1, rat_add(vel, rat_mul(acc, dt)))
            &&& rat_eq(t.0, rat_add(p, rat_mul(t.1, dt)))
            &&& rat_eq(t.2.c, rat_add(cb.c, rat_mul(dt, cb.v)))
            &&& rat_eq(t.2.v, rat_add(cb.v, q))
            &&& rat_eq(
                t.2.a,
                rat_add(rat_add(rat_add(cb.a, rat_mul(dt, cb.c)), rat_mul(dt, t.2.c)), q),
            )
        }),
{
    let t = c_predict_axis(p, vel, cb, acc, dt, q)->Some_0;
    // velocity: vel + acc * dt
    let t1 = c_mul(acc, dt)->Some_0;
    lemma_c_mul_val(acc, dt);
    lemma_c_add_val(vel, t1);
    lemma_den_pos(acc.d, dt.d);
    lemma_den_pos(vel.d, t1.d);
    lemma_den_pos(vel.d, rat_mul(acc, dt).d);
    lemma_add_cong_r(vel, t1, rat_mul(acc, dt));
    lemma_eq_trans(t.1, rat_add(vel, t1), rat_add(vel, rat_mul(acc, dt)));
    // position: p + (new velocity) * dt
    let t2 = c_mul(t.1, dt)->Some_0;
    lemma_c_mul_val(t.1, dt);
    lemma_c_add_val(p, t2);
    lemma_den_pos(t.1.d, dt.d);
    lemma_den_pos(p.d, t2.d);
    lemma_den_pos(p.d, rat_mul(t.1, dt).d);
    lemma_add_cong_r(p, t2, rat_mul(t.1, dt));
    lemma_eq_trans(t.0, rat_add(p, t2), rat_add(p, rat_mul(t.1, dt)));
    // covariance off-diagonal: c + dt * v
    let u1 = c_mul(dt, cb.v)->Some_0;
    lemma_c_mul_val(dt, cb.v);
    lemma_c_add_val(cb.c, u1);
    lemma_den_pos(dt.d, cb.v.d);
    lemma_den_pos(cb.c.d, u1.d);
    lemma_den_pos(cb.c.d, rat_mul(dt, cb.v).d);
    lemma_add_cong_r(cb.c, u1, rat_mul(dt, cb.v));
    lemma_eq_trans(t.2.c, rat_add(cb.c, u1), rat_add(cb.c, rat_mul(dt, cb.v)));
    // velocity variance: v + q
    lemma_c_add_val(cb.v, q);
    // position variance: ((a + dt*c) + dt*(new c)) + q
    let u2 = c_mul(dt, cb.c)->Some_0;
    let a1 = c_add(cb.a, u2)->Some_0;
    let u3 = c_mul(dt, t.2.c)->Some_0;
    let a2 = c_add(a1, u3)->Some_0;
    lemma_c_mul_val(dt, cb.c);
    lemma_c_add_val(cb.a, u2);
    lemma_den_pos(dt.d, cb.c.d);
    lemma_den_pos(cb.a.d, u2.d);
    lemma_den_pos(cb.a.d, rat_mul(dt, cb.c).d);
    lemma_add_cong_r(cb.a, u2, rat_mul(dt, cb.c));
    let x1 = rat_add(cb.a, rat_mul(dt, cb.c));
    lemma_eq_trans(a1, rat_add(cb.a, u2), x1);
    lemma_c_mul_val(dt, t.2.c);
    lemma_c_add_val(a1, u3);
    lemma_den_pos(dt.d, t.2.c.d);
    lemma_den_pos(a1.d, u3.d);
    lemma_den_pos(a1.d, rat_mul(dt, t.2.c).d);
    lemma_add_cong_r(a1, u3, rat_mul(dt, t.2.c));
    lemma_eq_trans(a2, rat_add(a1, u3), rat_add(a1, rat_mul(dt, t.2.c)));
    let x2 = rat_add(x1, rat_mul(dt, t.2.c));
    lemma_den_pos(x1.d, rat_mul(dt, t.2.c).d);
    lemma_add_cong_l(a1, x1, rat_mul(dt, t.2.c));
    lemma_eq_trans(a2, rat_add(a1, rat_mul(dt, t.2.c)), x2);
    lemma_c_add_val(a2, q);
    lemma_den_pos(a2.d, q.d);
    lemma_den_pos(x2.d, q.d);
    lemma_add_cong_l(a2, x2, q);
    lemma_eq_trans(t.2.a, rat_add(a2, q), rat_add(x2, q));
}

/// The value meaning of a successful prediction, in the order the step is
/// defined: the velocity gains the integrated acceleration, the position
/// gains the integrated new velocity, and the covariance block moves
/// through the constant-velocity transition with the process noise added to
/// its diagonal.
pub proof fn lemma_predict_values(e: SpecEkf, acc: SVec2, e2: SpecEkf)
    requires
        e.wf(),
        acc.x.wf(),
        acc.y.wf(),
        c_predict(e, acc) == Some(e2),
    ensures
        rat_eq(e2.vx, rat_add(e.vx, rat_mul(acc.x, e.dt))),
        rat_eq(e2.px, rat_add(e.px, rat_mul(e2.vx, e.dt))),
        rat_eq(e2.cx.c, rat_add(e.cx.c, rat_mul(e.dt, e.cx.v))),
        rat_eq(e2.cx.v, rat_add(e.cx.v, e.q)),
        rat_eq(
            e2.cx.a,
            rat_add(rat_add(rat_add(e.cx.a, rat_mul(e.dt, e.cx.c)), rat_mul(e.dt, e2.cx.c)), e.q),
        ),
        rat_eq(e2.vy, rat_add(e.vy, rat_mul(acc.y, e.dt))),
        rat_eq(e2.py, rat_add(e.py, rat_mul(e2.vy, e.dt))),
        rat_eq(e2.cy.c, rat_add(e.cy.c, rat_mul(e.dt, e.cy.v))),
        rat_eq(e2.cy.v, rat_add(e.cy.v, e.q)),
        rat_eq(
            e2.cy.a,
            rat_add(rat_add(rat_add(e.cy.a, rat_mul(e.dt, e.cy.c)), rat_mul(e.dt, e2.cy.c)), e.q),
        ),
        e.dt == e2.dt && e.q == e2.q && e.r == e2.r,
{
    axis_predict_values(e.px, e.vx, e.cx, acc.x, e.dt, e.q);
    axis_predict_values(e.py, e.vy, e.cy, acc.y, e.dt, e.q);
}

/// Prediction under zero acceleration is a pure noise-integration step:
/// from a resting state (zero velocity) with nonnegative covariance blocks
/// and positive process noise, a successful `predict` of a zero
/// acceleration keeps the whole state vector unchanged and strictly grows
/// every covariance diagonal — the velocity variances by exactly the
/// process-noise magnitude, the position variances by at least it. The
/// nonnegativity of the blocks is preserved, so the claim applies again to
/// the next such prediction.
pub proof fn lemma_predict_zero_accel(e: SpecEkf, acc: SVec2, e2: SpecEkf)
    requires
        e.wf(),
        acc.x.wf(),
        acc.y.wf(),
        acc.x.n == 0,
        acc.y.n == 0,
        e.vx.n == 0,
        e.vy.n == 0,
        e.cx.a.n >= 0,
        e.cx.c.n >= 0,
        e.cx.v.n >= 0,
        e.cy.a.n >= 0,
        e.cy.c.n >= 0,
        e.cy.v.n >= 0,
        rat_lt(rat_zero(), e.q),
        c_predict(e, acc) == Some(e2),
    ensures
        rat_eq(e2.px, e.px),
        rat_eq(e2.py, e.py),
        e2.vx.n == 0,
        e2.vy.n == 0,
        rat_lt(e.cx.a, e2.cx.a),
        rat_le(rat_add(e.cx.a, e.q), e2.cx.a),
        rat_lt(e.cx.v, e2.cx.v),
        rat_eq(e2.cx.v, rat_add(e.cx.v, e.q)),
        rat_lt(e.cy.a, e2.cy.a),
        rat_le(rat_add(e.cy.a, e.q), e2.cy.a),
        rat_lt(e.cy.v, e2.cy.v),
        rat_eq(e2.cy.v, rat_add(e.cy.v, e.q)),
        e2.cx.a.n >= 0,
        e2.cx.c.n >= 0,
        e2.cx.v.n >= 0,
        e2.cy.a.n >= 0,
        e2.cy.c.n >= 0,
        e2.cy.v.n >= 0,
{
    lemma_sign(e.q);
    axis_predict_rest(e.px, e.vx, e.cx, acc.x, e.dt, e.q);
    axis_predict_rest(e.py, e.vy, e.cy, acc.y, e.dt, e.q);
}

/// With positive position variances and positive measurement noise, the
/// innovation covariance is never singular: a correction in that
/// configuration either succeeds or reports an unrepresentable value, but
/// is never rejected as singular.
pub proof fn lemma_update_not_singular(e: SpecEkf, m: SVec2)
    requires
        e.wf(),
        m.x.wf(),
        m.y.wf(),
        rat_lt(rat_zero(), e.cx.a),
        rat_lt(rat_zero(), e.cy.a),
        rat_lt(rat_zero(), e.r),
    ensures
        !(c_update(e, m) is Singular),
{
    lemma_sign(e.r);
    lemma_sign(e.cx.a);
    lemma_sign(e.cy.a);
    if c_add(e.cx.a, e.r) is Some {
        lemma_c_add_val(e.cx.a, e.r);
        lemma_signs_ops(e.cx.a, e.r);
    }
    if c_add(e.cy.a, e.r) is Some {
        lemma_c_add_val(e.cy.a, e.r);
        lemma_signs_ops(e.cy.a, e.r);
    }
}

/// The algebraic heart of the uncertainty bound: scaling the position
/// variance `a` by one minus the gain `a / (a + r)` yields `a*r / (a + r)`,
/// which is strictly below the measurement noise `r`. Stated over the
/// reduced values the correction step actually produces.
proof fn axis_bound_core(a: SRat, r: SRat, s: SRat, k0: SRat, om: SRat, anew: SRat)
    requires
        a.d >= 1,
        r.d >= 1,
        s.d >= 1,
        k0.d >= 1,
        om.d >= 1,
        anew.d >= 1,
        a.n > 0,
        r.n > 0,
        s.n > 0,
        om.n > 0,
        rat_eq(s, rat_add(a, r)),
        rat_eq(k0, rat_div(a, s)),
        rat_eq(om, rat_sub(rat_one(), k0)),
        rat_eq(anew, rat_mul(om, a)),
    ensures
        rat_lt(anew, r),
{
    // unfold the three defining equations into plain integer facts
    assert(s.n * (a.d * r.d) == (a.n * r.d + r.n * a.d) * s.d);
    assert(k0.n * (a.d * s.n) == (a.n * s.d) * k0.d) by {
        assert(nabs(s.n) == s.n);
    }
    assert(om.n * k0.d == (k0.d - k0.n) * om.d) by {
        assert(rat_sub(rat_one(), k0).n == 1 * k0.d - k0.n * 1);
        assert(rat_sub(rat_one(), k0).d == 1 * k0.d);
    }
    bnd_substituted(a.n, a.d, r.n, r.d, s.n, s.d);
    bnd_strip_div(a.n, a.d, r.n, r.d, s.n, s.d, k0.n, k0.d);
    bnd_strip_sub(a.n, a.d, r.n, r.d, k0.n, k0.d, om.n, om.d);
    // move the inequality from the raw product om * a to its reduced form
    assert(rat_lt(rat_mul(om, a), r)) by (nonlinear_arith)
        requires
            om.n * (a.n * r.d) < r.n * (om.d * a.d),
            rat_mul(om, a).n == om.n * a.n,
            rat_mul(om, a).d == om.d * a.d,
    ;
    lemma_den_pos(om.d, a.d);
    lemma_lt_resp_l(rat_mul(om, a), anew, r);
}

/// With the innovation variance written out as `(a.n*r.d + r.n*a.d) / s.d`
/// (times the positive factor `a.d*r.d`), the target inequality over the raw
/// components reduces to `0 < r.n^2 * a.d^3 * s.d`.
proof fn bnd_substituted(an: int, ad: int, rn: int, rd: int, sn: int, sd: int)
    requires
        ad >= 1,
        rd >= 1,
        sd >= 1,
        an > 0,
        rn > 0,
        sn * (ad * rd) == (an * rd + rn * ad) * sd,
    ensures
        (an * rd * (ad * sn) - an * (an * sd) * rd) < rn * ad * (ad * sn),
{
    assert((an * rd * (ad * sn) - an * (an * sd) * rd) * (ad * rd) < (rn * ad * (ad * sn)) * (ad
        * rd)) by (nonlinear_arith)
        requires
            ad >= 1,
            rd >= 1,
            sd >= 1,
            an > 0,
            rn > 0,
            sn * (ad * rd) == (an * rd + rn * ad) * sd,
    ;
    assert((an * rd * (ad * sn) - an * (an * sd) * rd) < rn * ad * (ad * sn)) by (nonlinear_arith)
        requires
            ad * rd >= 1,
            (an * rd * (ad * sn) - an * (an * sd) * rd) * (ad * rd) < (rn * ad * (ad * sn)) * (ad
                * rd),
    ;
}

/// Strips the reduction of the gain `a / s`: replaces the raw quotient
/// components by the reduced pair `(k0.n, k0.d)`.
proof fn bnd_strip_div(an: int, ad: int, rn: int, rd: int, sn: int, sd: int, kn: int, kd: int)
    requires
        ad >= 1,
        kd >= 1,
        sn > 0,
        kn * (ad * sn) == (an * sd) * kd,
        (an * rd * (ad * sn) - an * (an * sd) * rd) < rn * ad * (ad * sn),
    ensures
        (kd - kn) * (an * rd) < rn * ad * kd,
{
    assert(((kd - kn) * (an * rd)) * (ad * sn) == kd * (an * rd * (ad * sn)) - (kn * (ad * sn))
        * (an * rd)) by (nonlinear_arith);
    assert((kn * (ad * sn)) * (an * rd) == kd * (an * (an * sd) * rd)) by (nonlinear_arith)
        requires
            kn * (ad * sn) == (an * sd) * kd,
    ;
    assert(kd * (an * rd * (ad * sn) - an * (an * sd) * rd) < kd * (rn * ad * (ad
        * sn))) by (nonlinear_arith)
        requires
            kd >= 1,
            (an * rd * (ad * sn) - an * (an * sd) * rd) < rn * ad * (ad * sn),
    ;
    assert((rn * ad * kd) * (ad * sn) == kd * (rn * ad * (ad * sn))) by (nonlinear_arith);
    assert(kd * (an * rd * (ad * sn)) - kd * (an * (an * sd) * rd) == kd * (an * rd * (ad * sn)
        - an * (an * sd) * rd)) by (nonlinear_arith);
    assert((kd - kn) * (an * rd) < rn * ad * kd) by (nonlinear_arith)
        requires
            ad * sn >= 1,
            ((kd - kn) * (an * rd)) * (ad * sn) < (rn * ad * kd) * (ad * sn),
    ;
}

/// Strips the reduction of `1 - k0`: replaces `(k0.d - k0.n, k0.d)` by the
/// reduced pair `(om.n, om.d)`.
proof fn bnd_strip_sub(an: int, ad: int, rn: int, rd: int, kn: int, kd: int, on: int, od: int)
    requires
        kd >= 1,
        od >= 1,
        on * kd == (kd - kn) * od,
        (kd - kn) * (an * rd) < rn * ad * kd,
    ensures
        on * (an * rd) < rn * (od * ad),
{
    assert((on * (an * rd)) * kd < (rn * (od * ad)) * kd) by (nonlinear_arith)
        requires
            od >= 1,
            on * kd == (kd - kn) * od,
            (kd - kn) * (an * rd) < rn * ad * kd,
    ;
    assert(on * (an * rd) < rn * (od * ad)) by (nonlinear_arith)
        requires
            kd >= 1,
            (on * (an * rd)) * kd < (rn * (od * ad)) * kd,
    ;
}

/// Per-axis uncertainty bound: a confirming measurement leaves the position
/// variance strictly below the measurement noise magnitude.
proof fn axis_confirm_bound(p: SRat, vel: SRat, cb: SCovBlock, s: SRat, m: SRat, r: SRat)
    requires
        p.wf(),
        vel.wf(),
        cb.wf(),
        s.wf(),
        m.wf(),
        r.wf(),
        cb.a.n > 0,
        r.n > 0,
        s.n > 0,
        rat_lt(cb.a, s),
        rat_eq(s, rat_add(cb.a, r)),
        c_update_axis(p, vel, cb, s, m) is Some,
    ensures
        rat_lt((c_update_axis(p, vel, cb, s, m)->Some_0).2.a, r),
{
    axis_update_vals(p, vel, cb, s, m);
    let t = c_update_axis(p, vel, cb, s, m)->Some_0;
    let k0 = c_div(cb.a, s)->Some_0;
    let om = c_sub(rat_one(), k0)->Some_0;
    lemma_c_div_val(cb.a, s);
    lemma_c_sub_val(rat_one(), k0);
    lemma_c_mul_val(om, cb.a);
    // k0 denotes a/s, om denotes 1 - k0, and the new variance denotes om*a
    assert(rat_div(cb.a, s).n > 0) by (nonlinear_arith)
        requires
            rat_div(cb.a, s).n == cb.a.n * s.d,
            cb.a.n > 0,
            s.d >= 1,
    ;
    assert(rat_sub(rat_one(), k0).n == 1 * k0.d - k0.n * 1);
    assert(om.n > 0) by (nonlinear_arith)
        requires
            om.n > 0 <==> rat_sub(rat_one(), k0).n > 0,
            rat_sub(rat_one(), k0).n == 1 * k0.d - k0.n * 1,
            k0.n < k0.d,
    ;
    axis_bound_core(cb.a, r, s, k0, om, t.2.a);
}

/// Facts needed before entering the per-axis correction lemma: the per-axis
/// innovation variance is positive and strictly larger than the position
/// variance.
proof fn axis_s_facts(a: SRat, r: SRat, s: SRat)
    requires
        a.wf(),
        r.wf(),
        a.n > 0,
        r.n > 0,
        c_add(a, r) == Some(s),
    ensures
        s.wf(),
        s.n > 0,
        rat_lt(a, s),
        rat_eq(s, rat_add(a, r)),
{
    lemma_c_add_val(a, r);
    lemma_signs_ops(a, r);
    lemma_sign(r);
    lemma_add_grows(a, r);
    lemma_lt_resp_r(a, rat_add(a, r), s);
}

/// A confirming measurement (one equal to the predicted position) leaves
/// the whole state vector unchanged and strictly shrinks both position
/// variances: a measurement that agrees with the prediction only adds
/// confidence. Moreover the new position variances land strictly below the
/// measurement noise magnitude, so under repeated predict/update cycles
/// with confirming measurements the position uncertainty stays bounded by
/// the measurement noise instead of diverging.
pub proof fn lemma_update_confirming(e: SpecEkf, m: SVec2, e2: SpecEkf)
    requires
        e.wf(),
        m.x.wf(),
        m.y.wf(),
        rat_eq(m.x, e.px),
        rat_eq(m.y, e.py),
        e.cx.a.n > 0,
        e.cy.a.n > 0,
        e.r.n > 0,
        c_update(e, m) == UpdOutcome::Next(e2),
    ensures
        rat_eq(e2.px, e.px),
        rat_eq(e2.py, e.py),
        rat_eq(e2.vx, e.vx),
        rat_eq(e2.vy, e.vy),
        rat_lt(e2.cx.a, e.cx.a),
        rat_lt(e2.cy.a, e.cy.a),
        rat_lt(e2.cx.a, e.r),
        rat_lt(e2.cy.a, e.r),
        e2.cx.a.n > 0,
        e2.cy.a.n > 0,
{
    let sx = c_add(e.cx.a, e.r)->Some_0;
    let sy = c_add(e.cy.a, e.r)->Some_0;
    axis_s_facts(e.cx.a, e.r, sx);
    axis_s_facts(e.cy.a, e.r, sy);
    axis_update_vals(e.px, e.vx, e.cx, sx, m.x);
    axis_update_vals(e.py, e.vy, e.cy, sy, m.y);
    axis_confirming(e.px, e.vx, e.cx, sx, m.x);
    axis_confirming(e.py, e.vy, e.cy, sy, m.y);
    axis_confirm_bound(e.px, e.vx, e.cx, sx, m.x, e.r);
    axis_confirm_bound(e.py, e.vy, e.cy, sy, m.y, e.r);
}

/// Per-axis form of the confirming-measurement claim.
proof fn axis_confirming(p: SRat, vel: SRat, cb: SCovBlock, s: SRat, m: SRat)
    requires
        p.wf(),
        vel.wf(),
        cb.wf(),
        s.wf(),
        m.wf(),
        cb.a.n > 0,
        s.n > 0,
        rat_lt(cb.a, s),
        rat_eq(m, p),
        c_update_axis(p, vel, cb, s, m) is Some,
    ensures
        ({
            let t = c_update_axis(p, vel, cb, s, m)->Some_0;
            &&& rat_eq(t.0, p)
            &&& rat_eq(t.1, vel)
        }),
{
    axis_update_vals(p, vel, cb, s, m);
    let t = c_update_axis(p, vel, cb, s, m)->Some_0;
    let dx = c_sub(m, p)->Some_0;
    let k0 = c_div(cb.a, s)->Some_0;
    let k1 = c_div(cb.c, s)->Some_0;
    lemma_c_sub_val(m, p);
    assert(rat_sub(m, p).n == 0);
    assert(dx.n == 0);
    lemma_signs_ops(k0, dx);
    lemma_signs_ops(k1, dx);
    lemma_den_pos(k0.d, dx.d);
    lemma_den_pos(k1.d, dx.d);
    lemma_den_pos(p.d, rat_mul(k0, dx).d);
    lemma_den_pos(vel.d, rat_mul(k1, dx).d);
    lemma_add_grows(p, rat_mul(k0, dx));
    lemma_add_grows(vel, rat_mul(k1, dx));
    lemma_eq_trans(t.0, rat_add(p, rat_mul(k0, dx)), p);
    lemma_eq_trans(t.1, rat_add(vel, rat_mul(k1, dx)), vel);
}

/// A successful correction pulls the position estimate strictly toward the
/// measured position: whenever the measurement differs from the prediction
/// on an axis, the new position on that axis lies strictly between the old
/// position and the measurement (the gain lies strictly between zero and
/// one when the position variance and the measurement noise are positive).
pub proof fn lemma_update_pulls(e: SpecEkf, m: SVec2, e2: SpecEkf)
    requires
        e.wf(),
        m.x.wf(),
        m.y.wf(),
        e.cx.a.n > 0,
        e.cy.a.n > 0,
        e.r.n > 0,
        c_update(e, m) == UpdOutcome::Next(e2),
    ensures
        rat_lt(e.px, m.x) ==> rat_lt(e.px, e2.px) && rat_lt(e2.px, m.x),
        rat_lt(m.x, e.px) ==> rat_lt(m.x, e2.px) && rat_lt(e2.px, e.px),
        rat_lt(e.py, m.y) ==> rat_lt(e.py, e2.py) && rat_lt(e2.py, m.y),
        rat_lt(m.y, e.py) ==> rat_lt(m.y, e2.py) && rat_lt(e2.py, e.py),
{
    let sx = c_add(e.cx.a, e.r)->Some_0;
    let sy = c_add(e.cy.a, e.r)->Some_0;
    axis_s_facts(e.cx.a, e.r, sx);
    axis_s_facts(e.cy.a, e.r, sy);
    axis_pulls(e.px, e.vx, e.cx, sx, m.x);
    axis_pulls(e.py, e.vy, e.cy, sy, m.y);
}

/// Per-axis value meaning of a successful correction step, with the gain
/// written out as `a / (a + r)`.
proof fn axis_update_values(p: SRat, vel: SRat, cb: SCovBlock, s: SRat, m: SRat, r: SRat)
    requires
        p.wf(),
        vel.wf(),
        cb.wf(),
        s.wf(),
        m.wf(),
        r.wf(),
        cb.a.n > 0,
        r.n > 0,
        s.n > 0,
        rat_lt(cb.a, s),
        rat_eq(s, rat_add(cb.a, r)),
        c_update_axis(p, vel, cb, s, m) is Some,
    ensures
        ({
            let t = c_update_axis(p, vel, cb, s, m)->Some_0;
            let g0 = rat_div(cb.a, rat_add(cb.a, r));
            let g1 = rat_div(cb.c, rat_add(cb.a, r));
            &&& rat_eq(t.0, rat_add(p, rat_mul(g0, rat_sub(m, p))))
            &&& rat_eq(t.1, rat_add(vel, rat_mul(g1, rat_sub(m, p))))
            &&& rat_eq(t.2.a, rat_mul(rat_sub(rat_one(), g0), cb.a))
            &&& rat_eq(t.2.c, rat_mul(rat_sub(rat_one(), g0), cb.c))
            &&& rat_eq(t.2.v, rat_sub(cb.v, rat_mul(g1, cb.c)))
        }),
{
    axis_update_vals(p, vel, cb, s, m);
    let t = c_update_axis(p, vel, cb, s, m)->Some_0;
    let dx = c_sub(m, p)->Some_0;
    let k0 = c_div(cb.a, s)->Some_0;
    let k1 = c_div(cb.c, s)->Some_0;
    let om = c_sub(rat_one(), k0)->Some_0;
    let sv = rat_add(cb.a, r);
    let g0 = rat_div(cb.a, sv);
    let g1 = rat_div(cb.c, sv);
    lemma_c_sub_val(m, p);
    lemma_c_div_val(cb.a, s);
    lemma_c_div_val(cb.c, s);
    lemma_c_sub_val(rat_one(), k0);
    lemma_c_mul_val(om, cb.a);
    lemma_c_mul_val(om, cb.c);
    lemma_c_mul_val(k1, cb.c);
    lemma_c_sub_val(cb.v, c_mul(k1, cb.c)->Some_0);
    // the exact innovation variance a + r is positive, and the raw
    // quotients by s and by a + r denote the same gains
    lemma_den_pos(cb.a.d, r.d);
    assert(sv.n > 0) by (nonlinear_arith)
        requires
            sv.n == cb.a.n * r.d + r.n * cb.a.d,
            cb.a.n > 0,
            r.n > 0,
            cb.a.d >= 1,
            r.d >= 1,
    ;
    assert(nabs(s.n) == s.n && nabs(sv.n) == sv.n);
    assert(rat_div(cb.a, s).d >= 1 && rat_div(cb.c, s).d >= 1 && g0.d >= 1 && g1.d
        >= 1) by (nonlinear_arith)
        requires
            rat_div(cb.a, s).d == cb.a.d * (nabs(s.n) as int),
            rat_div(cb.c, s).d == cb.c.d * (nabs(s.n) as int),
            g0.d == cb.a.d * (nabs(sv.n) as int),
            g1.d == cb.c.d * (nabs(sv.n) as int),
            nabs(s.n) as int == s.n,
            nabs(sv.n) as int == sv.n,
            s.n > 0,
            sv.n > 0,
            cb.a.d >= 1,
            cb.c.d >= 1,
    ;
    lemma_div_cong_r(cb.a, s, sv);
    lemma_div_cong_r(cb.c, s, sv);
    lemma_eq_trans(k0, rat_div(cb.a, s), g0);
    lemma_eq_trans(k1, rat_div(cb.c, s), g1);
    // denominators of the composite raw values
    lemma_den_pos(m.d, p.d);
    lemma_den_pos(k0.d, dx.d);
    lemma_den_pos(k1.d, dx.d);
    lemma_den_pos(g0.d, rat_sub(m, p).d);
    lemma_den_pos(g1.d, rat_sub(m, p).d);
    lemma_den_pos(g0.d, dx.d);
    lemma_den_pos(g1.d, dx.d);
    lemma_den_pos(p.d, rat_mul(k0, dx).d);
    lemma_den_pos(vel.d, rat_mul(k1, dx).d);
    lemma_den_pos(p.d, rat_mul(g0, rat_sub(m, p)).d);
    lemma_den_pos(vel.d, rat_mul(g1, rat_sub(m, p)).d);
    // state: p + g0 * (m - p), vel + g1 * (m - p)
    lemma_mul_cong_l(k0, g0, dx);
    lemma_mul_cong_r(g0, dx, rat_sub(m, p));
    lemma_eq_trans(rat_mul(k0, dx), rat_mul(g0, dx), rat_mul(g0, rat_sub(m, p)));
    lemma_add_cong_r(p, rat_mul(k0, dx), rat_mul(g0, rat_sub(m, p)));
    lemma_eq_trans(t.0, rat_add(p, rat_mul(k0, dx)), rat_add(p, rat_mul(g0, rat_sub(m, p))));
    lemma_mul_cong_l(k1, g1, dx);
    lemma_mul_cong_r(g1, dx, rat_sub(m, p));
    lemma_eq_trans(rat_mul(k1, dx), rat_mul(g1, dx), rat_mul(g1, rat_sub(m, p)));
    lemma_add_cong_r(vel, rat_mul(k1, dx), rat_mul(g1, rat_sub(m, p)));
    lemma_eq_trans(t.1, rat_add(vel, rat_mul(k1, dx)), rat_add(vel, rat_mul(g1, rat_sub(m, p))));
    // covariance: (1 - g0) scales a and c, and v loses g1 * c
    let omv = rat_sub(rat_one(), g0);
    lemma_sub_cong_r(rat_one(), k0, g0);
    lemma_eq_trans(om, rat_sub(rat_one(), k0), omv);
    lemma_den_pos(om.d, cb.a.d);
    lemma_den_pos(om.d, cb.c.d);
    lemma_den_pos(omv.d, cb.a.d);
    lemma_den_pos(omv.d, cb.c.d);
    lemma_mul_cong_l(om, omv, cb.a);
    lemma_eq_trans(t.2.a, rat_mul(om, cb.a), rat_mul(omv, cb.a));
    lemma_mul_cong_l(om, omv, cb.c);
    lemma_eq_trans(t.2.c, rat_mul(om, cb.c), rat_mul(omv, cb.c));
    let u = c_mul(k1, cb.c)->Some_0;
    lemma_den_pos(k1.d, cb.c.d);
    lemma_den_pos(g1.d, cb.c.d);
    lemma_mul_cong_l(k1, g1, cb.c);
    lemma_eq_trans(u, rat_mul(k1, cb.c), rat_mul(g1, cb.c));
    lemma_den_pos(cb.v.d, u.d);
    lemma_den_pos(cb.v.d, rat_mul(g1, cb.c).d);
    lemma_den_pos(cb.v.d, rat_mul(k1, cb.c).d);
    lemma_sub_cong_r(cb.v, u, rat_mul(g1, cb.c));
    lemma_eq_trans(t.2.v, rat_sub(cb.v, u), rat_sub(cb.v, rat_mul(g1, cb.c)));
}

/// The value meaning of a successful correction with a positive
/// configuration, in the terms of the observation model: on each axis the
/// gain is `g = a / (a + r)`, the position and velocity move by the gains
/// times the innovation `m - p`, and the covariance block becomes
/// `(I - K*H) * P`: `a' = (1-g)*a`, `c' = (1-g)*c`, `v' = v - (c/(a+r))*c`.
pub proof fn lemma_update_values(e: SpecEkf, m: SVec2, e2: SpecEkf)
    requires
        e.wf(),
        m.x.wf(),
        m.y.wf(),
        e.cx.a.n > 0,
        e.cy.a.n > 0,
        e.r.n > 0,
        c_update(e, m) == UpdOutcome::Next(e2),
    ensures
        ({
            let g0 = rat_div(e.cx.a, rat_add(e.cx.a, e.r));
            let g1 = rat_div(e.cx.c, rat_add(e.cx.a, e.r));
            &&& rat_eq(e2.px, rat_add(e.px, rat_mul(g0, rat_sub(m.x, e.px))))
            &&& rat_eq(e2.vx, rat_add(e.vx, rat_mul(g1, rat_sub(m.x, e.px))))
            &&& rat_eq(e2.cx.a, rat_mul(rat_sub(rat_one(), g0), e.cx.a))
            &&& rat_eq(e2.cx.c, rat_mul(rat_sub(rat_one(), g0), e.cx.c))
            &&& rat_eq(e2.cx.v, rat_sub(e.cx.v, rat_mul(g1, e.cx.c)))
        }),
        ({
            let g0 = rat_div(e.cy.a, rat_add(e.cy.a, e.r));
            let g1 = rat_div(e.cy.c, rat_add(e.cy.a, e.r));
            &&& rat_eq(e2.py, rat_add(e.py, rat_mul(g0, rat_sub(m.y, e.py))))
            &&& rat_eq(e2.vy, rat_add(e.vy, rat_mul(g1, rat_sub(m.y, e.py))))
            &&& rat_eq(e2.cy.a, rat_mul(rat_sub(rat_one(), g0), e.cy.a))
            &&& rat_eq(e2.cy.c, rat_mul(rat_sub(rat_one(), g0), e.cy.c))
            &&& rat_eq(e2.cy.v, rat_sub(e.cy.v, rat_mul(g1, e.cy.c)))
        }),
        e.dt == e2.dt && e.q == e2.q && e.r == e2.r,
{
    let sx = c_add(e.cx.a, e.r)->Some_0;
    let sy = c_add(e.cy.a, e.r)->Some_0;
    axis_s_facts(e.cx.a, e.r, sx);
    axis_s_facts(e.cy.a, e.r, sy);
    axis_update_values(e.px, e.vx, e.cx, sx, m.x, e.r);
    axis_update_values(e.py, e.vy, e.cy, sy, m.y, e.r);
}

/// Per-axis form of the pulls-toward-measurement claim.
proof fn axis_pulls(p: SRat, vel: SRat, cb: SCovBlock, s: SRat, m: SRat)
    requires
        p.wf(),
        vel.wf(),
        cb.wf(),
        s.wf(),
        m.wf(),
        cb.a.n > 0,
        s.n > 0,
        rat_lt(cb.a, s),
        c_update_axis(p, vel, cb, s, m) is Some,
    ensures
        ({
            let t = c_update_axis(p, vel, cb, s, m)->Some_0;
            &&& rat_lt(p, m) ==> rat_lt(p, t.0) && rat_lt(t.0, m)
            &&& rat_lt(m, p) ==> rat_lt(m, t.0) && rat_lt(t.0, p)
        }),
{
    axis_update_vals(p, vel, cb, s, m);
    let t = c_update_axis(p, vel, cb, s, m)->Some_0;
    let dx = c_sub(m, p)->Some_0;
    let k0 = c_div(cb.a, s)->Some_0;
    lemma_c_sub_val(m, p);
    // replace the reduced innovation by the raw difference under the gain
    lemma_den_pos(m.d, p.d);
    lemma_den_pos(k0.d, dx.d);
    lemma_den_pos(k0.d, rat_sub(m, p).d);
    lemma_den_pos(p.d, rat_mul(k0, dx).d);
    lemma_den_pos(p.d, rat_mul(k0, rat_sub(m, p)).d);
    lemma_mul_cong_r(k0, dx, rat_sub(m, p));
    lemma_add_cong_r(p, rat_mul(k0, dx), rat_mul(k0, rat_sub(m, p)));
    lemma_eq_trans(
        t.0,
        rat_add(p, rat_mul(k0, dx)),
        rat_add(p, rat_mul(k0, rat_sub(m, p))),
    );
    lemma_between(p, k0, m);
    let x = rat_add(p, rat_mul(k0, rat_sub(m, p)));
    assert(x.d >= 1) by (nonlinear_arith)
        requires
            p.d >= 1,
            k0.d >= 1,
            m.d >= 1,
            x.d == p.d * (k0.d * (m.d * p.d)),
    ;
    lemma_lt_resp_l(x, t.0, m);
    lemma_lt_resp_r(p, x, t.0);
    lemma_lt_resp_l(x, t.0, p);
    lemma_lt_resp_r(m, x, t.0);
}

} // verus!
