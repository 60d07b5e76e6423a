//! The state estimator: a fixed-dimension Kalman filter over the state
//! `[px, py, vx, vy]` (2D position and velocity).
//!
//! `predict` applies a constant-velocity motion model to an inertial
//! (acceleration) reading; `update` corrects the estimate with an absolute
//! position reading. All arithmetic is exact rational arithmetic; an
//! intermediate value whose reduced form does not fit 64 bits surfaces as
//! `EkfError::Overflow`, and a singular innovation covariance surfaces as
//! `EkfError::SingularInnovationCovariance`. A failed call leaves the
//! estimator unchanged.
//!
//! The transition matrix `F`, the process noise `Q = q*I`, the observation
//! matrix `H` (position only) and the measurement noise `R = r*I` never mix
//! the x components (indices 0 and 2) with the y components (indices 1
//! and 3), and keep each 2x2 block symmetric. Starting from the identity
//! initial covariance, every reachable covariance therefore consists of two
//! symmetric per-axis blocks `[[a, c], [c, v]]` with zero cross terms; the
//! estimator stores exactly those blocks and the accessor rebuilds the full
//! 4x4 matrix.

use vstd::prelude::*;
use crate::rat::{
    c_add, c_div, c_mul, c_sub, o_add, o_mul, o_sub, rat_lt, rat_one, rat_zero, Rat, SRat,
};

verus! {

/// The value of a 2D vector of rationals.
pub struct SVec2 {
    pub x: SRat,
    pub y: SRat,
}

/// The value of one symmetric per-axis covariance block `[[a, c], [c, v]]`:
/// position variance `a`, position/velocity covariance `c`, velocity
/// variance `v`.
pub struct SCovBlock {
    pub a: SRat,
    pub c: SRat,
    pub v: SRat,
}

impl SCovBlock {
    /// Well-formedness of the block's three entries.
    pub open spec fn wf(self) -> bool {
        self.a.wf() && self.c.wf() && self.v.wf()
    }
}

/// The abstract state of the estimator: the state vector, the two covariance
/// blocks, and the fixed configuration (time step `dt`, process noise
/// magnitude `q`, measurement noise magnitude `r`).
pub struct SpecEkf {
    pub px: SRat,
    pub py: SRat,
    pub vx: SRat,
    pub vy: SRat,
    pub cx: SCovBlock,
    pub cy: SCovBlock,
    pub dt: SRat,
    pub q: SRat,
    pub r: SRat,
}

impl SpecEkf {
    /// Well-formedness: every component is a well-formed rational and the
    /// time step is strictly positive.
    pub open spec fn wf(self) -> bool {
        &&& self.px.wf()
        &&& self.py.wf()
        &&& self.vx.wf()
        &&& self.vy.wf()
        &&& self.cx.wf()
        &&& self.cy.wf()
        &&& self.dt.wf()
        &&& self.q.wf()
        &&& self.r.wf()
        &&& rat_lt(rat_zero(), self.dt)
    }
}

/// A 2D vector of rationals (a position, or an acceleration).
#[derive(Clone, Copy, Debug)]
pub struct Vec2 {
    pub x: Rat,
    pub y: Rat,
}

impl View for Vec2 {
    type V = SVec2;

    open spec fn view(&self) -> SVec2 {
        SVec2 { x: self.x@, y: self.y@ }
    }
}

impl Vec2 {
    /// Well-formedness of both components.
    pub open spec fn wf(self) -> bool {
        self.x.wf() && self.y.wf()
    }

    /// Builds a vector from its two components.
    pub fn new(x: Rat, y: Rat) -> (r: Vec2)
        ensures
            r@.x == x@,
            r@.y == y@,
    {
        Vec2 { x, y }
    }
}

/// An inertial reading: a 2D acceleration.
#[derive(Clone, Copy, Debug)]
pub struct ImuReading {
    pub accel: Vec2,
}

impl View for ImuReading {
    type V = SVec2;

    open spec fn view(&self) -> SVec2 {
        self.accel@
    }
}

impl ImuReading {
    /// Well-formedness of the acceleration components.
    pub open spec fn wf(self) -> bool {
        self.accel.wf()
    }
}

/// The current state estimate `[px, py, vx, vy]`.
#[derive(Clone, Copy, Debug)]
pub struct StateVector {
    pub px: Rat,
    pub py: Rat,
    pub vx: Rat,
    pub vy: Rat,
}

/// The full 4x4 covariance matrix, row by row, over the state order
/// `[px, py, vx, vy]`.
#[derive(Clone, Copy, Debug)]
pub struct Mat4 {
    pub m00: Rat,
    pub m01: Rat,
    pub m02: Rat,
    pub m03: Rat,
    pub m10: Rat,
    pub m11: Rat,
    pub m12: Rat,
    pub m13: Rat,
    pub m20: Rat,
    pub m21: Rat,
    pub m22: Rat,
    pub m23: Rat,
    pub m30: Rat,
    pub m31: Rat,
    pub m32: Rat,
    pub m33: Rat,
}

/// The estimator's failure modes.
#[derive(Clone, Copy, Debug, PartialEq, Eq, Structural)]
pub enum EkfError {
    /// The time step handed to the constructor was zero or negative.
    NonPositiveDt,
    /// The innovation covariance `S = H*P*H^T + R` is singular, so no gain
    /// can be computed; the measurement was rejected.
    SingularInnovationCovariance,
    /// An exact intermediate result does not fit the 64-bit rational
    /// representation; the call was abandoned with the state unchanged.
    Overflow,
}

/// One symmetric per-axis covariance block `[[a, c], [c, v]]`.
#[derive(Clone, Copy, Debug)]
struct CovBlock {
    a: Rat,
    c: Rat,
    v: Rat,
}

impl View for CovBlock {
    type V = SCovBlock;

    closed spec fn view(&self) -> SCovBlock {
        SCovBlock { a: self.a@, c: self.c@, v: self.v@ }
    }
}

impl CovBlock {
    spec fn wf(self) -> bool {
        self.a.wf() && self.c.wf() && self.v.wf()
    }
}

/// The prediction step for one axis. State: velocity first (using the new
/// velocity for the position), then the covariance block
/// `F_axis * P * F_axis^T + q*I` for `F_axis = [[1, dt], [0, 1]]`:
/// `a' = ((a + dt*c) + dt*(c + dt*v)) + q`, `c' = c + dt*v`, `v' = v + q`.
/// `None` exactly when some reduced intermediate does not fit 64 bits.
pub open spec fn c_predict_axis(
    p: SRat,
    vel: SRat,
    cb: SCovBlock,
    acc: SRat,
    dt: SRat,
    q: SRat,
) -> Option<(SRat, SRat, SCovBlock)> {
    let vel2 = o_add(Some(vel), o_mul(Some(acc), Some(dt)));
    let p2 = o_add(Some(p), o_mul(vel2, Some(dt)));
    let c2 = o_add(Some(cb.c), o_mul(Some(dt), Some(cb.v)));
    let a2 = o_add(
        o_add(o_add(Some(cb.a), o_mul(Some(dt), Some(cb.c))), o_mul(Some(dt), c2)),
        Some(q),
    );
    let v2 = o_add(Some(cb.v), Some(q));
    if vel2 is Some && p2 is Some && c2 is Some && a2 is Some && v2 is Some {
        Some((p2->Some_0, vel2->Some_0, SCovBlock { a: a2->Some_0, c: c2->Some_0, v: v2->Some_0 }))
    } else {
        None
    }
}

/// The whole prediction step: both axes, or `None` if either overflows.
pub open spec fn c_predict(e: SpecEkf, acc: SVec2) -> Option<SpecEkf> {
    let rx = c_predict_axis(e.px, e.vx, e.cx, acc.x, e.dt, e.q);
    let ry = c_predict_axis(e.py, e.vy, e.cy, acc.y, e.dt, e.q);
    if rx is Some && ry is Some {
        Some(
            SpecEkf {
                px: rx->Some_0.0,
                vx: rx->Some_0.1,
                cx: rx->Some_0.2,
                py: ry->Some_0.0,
                vy: ry->Some_0.1,
                cy: ry->Some_0.2,
                dt: e.dt,
                q: e.q,
                r: e.r,
            },
        )
    } else {
        None
    }
}

/// The correction step for one axis, given the axis's innovation variance
/// `s = a + r` (nonzero). Gain `k0 = a/s`, `k1 = c/s`; innovation
/// `dx = m - p`; state `p' = p + k0*dx`, `vel' = vel + k1*dx`; covariance
/// `(I - K*H) * P` for this axis: `a' = (1-k0)*a`, `c' = (1-k0)*c`,
/// `v' = v - k1*c`. `None` exactly when some reduced intermediate does not
/// fit 64 bits.
pub open spec fn c_update_axis(
    p: SRat,
    vel: SRat,
    cb: SCovBlock,
    s: SRat,
    m: SRat,
) -> Option<(SRat, SRat, SCovBlock)> {
    let dx = c_sub(m, p);
    let k0 = c_div(cb.a, s);
    let k1 = c_div(cb.c, s);
    let p2 = o_add(Some(p), o_mul(k0, dx));
    let vel2 = o_add(Some(vel), o_mul(k1, dx));
    let om = o_sub(Some(rat_one()), k0);
    let a2 = o_mul(om, Some(cb.a));
    let c2 = o_mul(om, Some(cb.c));
    let v2 = o_sub(Some(cb.v), o_mul(k1, Some(cb.c)));
    if p2 is Some && vel2 is Some && a2 is Some && c2 is Some && v2 is Some {
        Some((p2->Some_0, vel2->Some_0, SCovBlock { a: a2->Some_0, c: c2->Some_0, v: v2->Some_0 }))
    } else {
        None
    }
}

/// Outcome of the correction step.
pub enum UpdOutcome {
    /// The new abstract state.
    Next(SpecEkf),
    /// The innovation covariance is singular; nothing changes.
    Singular,
    /// An intermediate result is not representable; nothing changes.
    Overflow,
}

/// The whole correction step. The innovation covariance of the full
/// 4-dimensional observation model is the diagonal matrix
/// `S = diag(cx.a + r, cy.a + r, r, r)`; it is singular exactly when `r` is
/// zero or one of the per-axis innovation variances `a + r` is zero.
pub open spec fn c_update(e: SpecEkf, m: SVec2) -> UpdOutcome {
    if e.r.n == 0 {
        UpdOutcome::Singular
    } else {
        let sx = c_add(e.cx.a, e.r);
        let sy = c_add(e.cy.a, e.r);
        if sx is None || sy is None {
            UpdOutcome::Overflow
        } else if sx->Some_0.n == 0 || sy->Some_0.n == 0 {
            UpdOutcome::Singular
        } else {
            let rx = c_update_axis(e.px, e.vx, e.cx, sx->Some_0, m.x);
            let ry = c_update_axis(e.py, e.vy, e.cy, sy->Some_0, m.y);
            if rx is Some && ry is Some {
                UpdOutcome::Next(
                    SpecEkf {
                        px: rx->Some_0.0,
                        vx: rx->Some_0.1,
                        cx: rx->Some_0.2,
                        py: ry->Some_0.0,
                        vy: ry->Some_0.1,
                        cy: ry->Some_0.2,
                        dt: e.dt,
                        q: e.q,
                        r: e.r,
                    },
                )
            } else {
                UpdOutcome::Overflow
            }
        }
    }
}

/// The abstract state a freshly constructed estimator holds: the given
/// position, zero velocity, identity covariance, and the given
/// configuration.
pub open spec fn spec_init(pos: SVec2, dt: SRat, q: SRat, r: SRat) -> SpecEkf {
    SpecEkf {
        px: pos.x,
        py: pos.y,
        vx: rat_zero(),
        vy: rat_zero(),
        cx: SCovBlock { a: rat_one(), c: rat_zero(), v: rat_one() },
        cy: SCovBlock { a: rat_one(), c: rat_zero(), v: rat_one() },
        dt,
        q,
        r,
    }
}

/// How an executable per-axis result relates to its specification.
spec fn axis_matches(r: Option<(Rat, Rat, CovBlock)>, c: Option<(SRat, SRat, SCovBlock)>) -> bool {
    match r {
        Some(t) => {
            &&& c is Some
            &&& (t.0@, t.1@, t.2@) == c->Some_0
            &&& t.0.wf()
            &&& t.1.wf()
            &&& t.2.wf()
        },
        None => c is None,
    }
}

/// The state estimator.
pub struct Ekf {
    px: Rat,
    py: Rat,
    vx: Rat,
    vy: Rat,
    cx: CovBlock,
    cy: CovBlock,
    dt: Rat,
    q: Rat,
    r: Rat,
}

impl View for Ekf {
    type V = SpecEkf;

    closed spec fn view(&self) -> SpecEkf {
        SpecEkf {
            px: self.px@,
            py: self.py@,
            vx: self.vx@,
            vy: self.vy@,
            cx: self.cx@,
            cy: self.cy@,
            dt: self.dt@,
            q: self.q@,
            r: self.r@,
        }
    }
}

impl Ekf {
    /// Well-formedness of the estimator.
    pub open spec fn wf(self) -> bool {
        self@.wf()
    }

    /// Builds an estimator from an initial position, a time step, and the
    /// two noise magnitudes (process noise `q*I`, measurement noise `r*I`).
    /// Rejects a time step that is zero or negative.
    pub fn with_noise(initial_pos: Vec2, dt: Rat, q: Rat, r: Rat) -> (res: Result<Ekf, EkfError>)
        requires
            initial_pos.wf(),
            dt.wf(),
            q.wf(),
            r.wf(),
        ensures
            res is Ok <==> rat_lt(rat_zero(), dt@),
            res is Err ==> res->Err_0 == EkfError::NonPositiveDt,
            res is Ok ==> res->Ok_0.wf() && res->Ok_0@ == spec_init(initial_pos@, dt@, q@, r@),
    {
        let zero = Rat::from_int(0);
        if !zero.lt(&dt) {
            return Err(EkfError::NonPositiveDt);
        }
        let one = Rat::from_int(1);
        Ok(
            Ekf {
                px: initial_pos.x,
                py: initial_pos.y,
                vx: zero,
                vy: zero,
                cx: CovBlock { a: one, c: zero, v: one },
                cy: CovBlock { a: one, c: zero, v: one },
                dt,
                q,
                r,
            },
        )
    }

    /// Builds an estimator with the default noise configuration: process
    /// noise magnitude `1/10`, measurement noise magnitude `1`.
    pub fn new(initial_pos: Vec2, dt: Rat) -> (res: Result<Ekf, EkfError>)
        requires
            initial_pos.wf(),
            dt.wf(),
        ensures
            res is Ok <==> rat_lt(rat_zero(), dt@),
            res is Err ==> res->Err_0 == EkfError::NonPositiveDt,
            res is Ok ==> res->Ok_0.wf() && res->Ok_0@ == spec_init(
                initial_pos@,
                dt@,
                SRat { n: 1, d: 10 },
                SRat { n: 1, d: 1 },
            ),
    {
        Self::with_noise(initial_pos, dt, Rat { n: 1, d: 10 }, Rat::from_int(1))
    }

    /// The prediction step for one axis; see [`c_predict_axis`].
    fn predict_axis(p: &Rat, vel: &Rat, cb: &CovBlock, acc: &Rat, dt: &Rat, q: &Rat) -> (r: Option<
        (Rat, Rat, CovBlock),
    >)
        requires
            p.wf(),
            vel.wf(),
            cb.wf(),
            acc.wf(),
            dt.wf(),
            q.wf(),
        ensures
            axis_matches(r, c_predict_axis(p@, vel@, cb@, acc@, dt@, q@)),
    {
        let t1 = acc.checked_mul(dt)?;
        let vel2 = vel.checked_add(&t1)?;
        let t2 = vel2.checked_mul(dt)?;
        let p2 = p.checked_add(&t2)?;
        let u1 = dt.checked_mul(&cb.v)?;
        let c2 = cb.c.checked_add(&u1)?;
        let u2 = dt.checked_mul(&cb.c)?;
        let a1 = cb.a.checked_add(&u2)?;
        let u3 = dt.checked_mul(&c2)?;
        let a2 = a1.checked_add(&u3)?;
        let a3 = a2.checked_add(q)?;
        let v2 = cb.v.checked_add(q)?;
        Some((p2, vel2, CovBlock { a: a3, c: c2, v: v2 }))
    }

    /// The prediction step: integrates the acceleration into the velocity,
    /// the (new) velocity into the position, and propagates the covariance
    /// through the constant-velocity transition with process noise added.
    /// Fails only when an exact intermediate value is unrepresentable, and
    /// then changes nothing.
    pub fn predict(&mut self, imu: &ImuReading) -> (res: Result<(), EkfError>)
        requires
            old(self).wf(),
            imu.wf(),
        ensures
            final(self).wf(),
            res is Ok <==> c_predict(old(self)@, imu@) is Some,
            res is Ok ==> final(self)@ == c_predict(old(self)@, imu@)->Some_0,
            res is Err ==> final(self)@ == old(self)@ && res->Err_0 == EkfError::Overflow,
    {
        let rx = Self::predict_axis(&self.px, &self.vx, &self.cx, &imu.accel.x, &self.dt, &self.q);
        let ry = Self::predict_axis(&self.py, &self.vy, &self.cy, &imu.accel.y, &self.dt, &self.q);
        match (rx, ry) {
            (Some(tx), Some(ty)) => {
                self.px = tx.0;
                self.vx = tx.1;
                self.cx = tx.2;
                self.py = ty.0;
                self.vy = ty.1;
                self.cy = ty.2;
                Ok(())
            },
            _ => Err(EkfError::Overflow),
        }
    }

    /// The correction step for one axis; see [`c_update_axis`].
    fn update_axis(p: &Rat, vel: &Rat, cb: &CovBlock, s: &Rat, m: &Rat) -> (r: Option<
        (Rat, Rat, CovBlock),
    >)
        requires
            p.wf(),
            vel.wf(),
            cb.wf(),
            s.wf(),
            m.wf(),
        ensures
            axis_matches(r, c_update_axis(p@, vel@, cb@, s@, m@)),
    {
        let dx = m.checked_sub(p)?;
        let k0 = cb.a.checked_div(s)?;
        let k1 = cb.c.checked_div(s)?;
        let g0 = k0.checked_mul(&dx)?;
        let p2 = p.checked_add(&g0)?;
        let g1 = k1.checked_mul(&dx)?;
        let vel2 = vel.checked_add(&g1)?;
        let one = Rat::from_int(1);
        let om = one.checked_sub(&k0)?;
        let a2 = om.checked_mul(&cb.a)?;
        let c2 = om.checked_mul(&cb.c)?;
        let u = k1.checked_mul(&cb.c)?;
        let v2 = cb.v.checked_sub(&u)?;
        Some((p2, vel2, CovBlock { a: a2, c: c2, v: v2 }))
    }

    /// The correction step: computes the innovation against the measured
    /// position, the Kalman gain from the covariance and the measurement
    /// noise, and blends the measurement into the state and covariance.
    /// Fails with `SingularInnovationCovariance` exactly when the innovation
    /// covariance is singular, and with `Overflow` when an exact
    /// intermediate value is unrepresentable; a failed call changes nothing.
    pub fn update(&mut self, gps: &Vec2) -> (res: Result<(), EkfError>)
        requires
            old(self).wf(),
            gps.wf(),
        ensures
            final(self).wf(),
            res is Ok <==> c_update(old(self)@, gps@) is Next,
            res is Ok ==> final(self)@ == c_update(old(self)@, gps@)->Next_0,
            res is Err ==> final(self)@ == old(self)@,
            res is Err && res->Err_0 == EkfError::SingularInnovationCovariance <==> c_update(
                old(self)@,
                gps@,
            ) is Singular,
            res is Err && res->Err_0 == EkfError::Overflow <==> c_update(old(self)@, gps@)
                is Overflow,
    {
        if self.r.is_zero() {
            return Err(EkfError::SingularInnovationCovariance);
        }
        let sx = match self.cx.a.checked_add(&self.r) {
            Some(s) => s,
            None => {
                return Err(EkfError::Overflow);
            },
        };
        let sy = match self.cy.a.checked_add(&self.r) {
            Some(s) => s,
            None => {
                return Err(EkfError::Overflow);
            },
        };
        if sx.is_zero() || sy.is_zero() {
            return Err(EkfError::SingularInnovationCovariance);
        }
        let rx = Self::update_axis(&self.px, &self.vx, &self.cx, &sx, &gps.x);
        let ry = Self::update_axis(&self.py, &self.vy, &self.cy, &sy, &gps.y);
        match (rx, ry) {
            (Some(tx), Some(ty)) => {
                self.px = tx.0;
                self.vx = tx.1;
                self.cx = tx.2;
                self.py = ty.0;
                self.vy = ty.1;
                self.cy = ty.2;
                Ok(())
            },
            _ => Err(EkfError::Overflow),
        }
    }

    /// The current state estimate.
    pub fn state(&self) -> (r: StateVector)
        ensures
            r.px@ == self@.px,
            r.py@ == self@.py,
            r.vx@ == self@.vx,
            r.vy@ == self@.vy,
    {
        StateVector { px: self.px, py: self.py, vx: self.vx, vy: self.vy }
    }

    /// The current covariance, as the full 4x4 matrix over
    /// `[px, py, vx, vy]`: the two stored symmetric per-axis blocks in their
    /// places, zero everywhere the axes would mix.
    pub fn covariance(&self) -> (r: Mat4)
        ensures
            r.m00@ == self@.cx.a,
            r.m02@ == self@.cx.c,
            r.m20@ == self@.cx.c,
            r.m22@ == self@.cx.v,
            r.m11@ == self@.cy.a,
            r.m13@ == self@.cy.c,
            r.m31@ == self@.cy.c,
            r.m33@ == self@.cy.v,
            r.m01@ == rat_zero() && r.m03@ == rat_zero() && r.m10@ == rat_zero() && r.m12@
                == rat_zero(),
            r.m21@ == rat_zero() && r.m23@ == rat_zero() && r.m30@ == rat_zero() && r.m32@
                == rat_zero(),
    {
        let z = Rat::from_int(0);
        Mat4 {
            m00: self.cx.a,
            m01: z,
            m02: self.cx.c,
            m03: z,
            m10: z,
            m11: self.cy.a,
            m12: z,
            m13: self.cy.c,
            m20: self.cx.c,
            m21: z,
            m22: self.cx.v,
            m23: z,
            m30: z,
            m31: self.cy.c,
            m32: z,
            m33: self.cy.v,
        }
    }
}

} // verus!
