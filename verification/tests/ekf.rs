use sensor_fusion_sim::ekf::{Ekf, EkfError, ImuReading, Vec2};
use sensor_fusion_sim::rat::Rat;

fn r(n: i64, d: i64) -> Rat {
    Rat::new(n, d).unwrap()
}

fn origin() -> Vec2 {
    Vec2::new(Rat::from_int(0), Rat::from_int(0))
}

fn dt_100hz() -> Rat {
    r(1, 100)
}

fn accel(x: Rat, y: Rat) -> ImuReading {
    ImuReading { accel: Vec2::new(x, y) }
}

#[test]
fn test_ekf() {
    let mut ekf = Ekf::new(origin(), dt_100hz()).unwrap();

    let one = Rat::from_int(1);
    let zero = Rat::from_int(0);
    ekf.predict(&accel(one, one)).unwrap();
    assert!(zero.lt(&ekf.state().px));

    let gps = Vec2::new(one, one);
    ekf.update(&gps).unwrap();
    assert!(zero.lt(&ekf.state().px));
}

#[test]
fn test_rejects_nonpositive_dt() {
    assert!(matches!(
        Ekf::new(origin(), Rat::from_int(0)),
        Err(EkfError::NonPositiveDt)
    ));
    assert!(matches!(
        Ekf::new(origin(), r(-1, 100)),
        Err(EkfError::NonPositiveDt)
    ));
}

#[test]
fn test_literal_predict() {
    // state [0,0,0,0], dt = 1/100, one predict of acceleration (1,1):
    // velocity becomes 1/100, position becomes 1/10000, exactly.
    let mut ekf = Ekf::new(origin(), dt_100hz()).unwrap();
    let one = Rat::from_int(1);
    ekf.predict(&accel(one, one)).unwrap();
    let st = ekf.state();
    assert!(st.px.eq_value(&r(1, 10000)));
    assert!(st.py.eq_value(&r(1, 10000)));
    assert!(st.vx.eq_value(&r(1, 100)));
    assert!(st.vy.eq_value(&r(1, 100)));
    // covariance from the identity: a' = 1 + dt^2 + q, c' = dt, v' = 1 + q
    let cov = ekf.covariance();
    assert!(cov.m00.eq_value(&r(11001, 10000)));
    assert!(cov.m02.eq_value(&r(1, 100)));
    assert!(cov.m22.eq_value(&r(11, 10)));
    assert!(cov.m11.eq_value(&r(11001, 10000)));
    assert!(cov.m01.eq_value(&Rat::from_int(0)));
}

#[test]
fn test_zero_accel_diagonal_growth() {
    // repeated zero-acceleration predictions leave the state at rest and
    // strictly grow every covariance diagonal entry each call
    let mut ekf = Ekf::new(origin(), dt_100hz()).unwrap();
    let zero = Rat::from_int(0);
    let mut prev = ekf.covariance();
    for _ in 0..3 {
        ekf.predict(&accel(zero, zero)).unwrap();
        let st = ekf.state();
        assert!(st.px.eq_value(&zero));
        assert!(st.py.eq_value(&zero));
        assert!(st.vx.eq_value(&zero));
        assert!(st.vy.eq_value(&zero));
        let cov = ekf.covariance();
        assert!(prev.m00.lt(&cov.m00));
        assert!(prev.m11.lt(&cov.m11));
        assert!(prev.m22.lt(&cov.m22));
        assert!(prev.m33.lt(&cov.m33));
        // the velocity variances grow by exactly the process noise 1/10
        assert!(cov.m22.eq_value(&prev.m22.checked_add(&r(1, 10)).unwrap()));
        assert!(cov.m33.eq_value(&prev.m33.checked_add(&r(1, 10)).unwrap()));
        prev = cov;
    }
}

#[test]
fn test_confirming_update() {
    // a measurement equal to the predicted position leaves the state
    // unchanged and strictly shrinks the position variances
    let mut ekf = Ekf::new(origin(), dt_100hz()).unwrap();
    let one = Rat::from_int(1);
    ekf.predict(&accel(one, one)).unwrap();
    let st = ekf.state();
    let cov = ekf.covariance();
    ekf.update(&Vec2::new(st.px, st.py)).unwrap();
    let st2 = ekf.state();
    let cov2 = ekf.covariance();
    assert!(st2.px.eq_value(&st.px));
    assert!(st2.py.eq_value(&st.py));
    assert!(st2.vx.eq_value(&st.vx));
    assert!(st2.vy.eq_value(&st.vy));
    assert!(cov2.m00.lt(&cov.m00));
    assert!(cov2.m11.lt(&cov.m11));
}

#[test]
fn test_update_pulls_toward_measurement() {
    // a measurement far from the prediction moves the position strictly
    // between the old estimate and the measurement
    let mut ekf = Ekf::new(origin(), dt_100hz()).unwrap();
    let one = Rat::from_int(1);
    ekf.predict(&accel(one, one)).unwrap();
    let before = ekf.state();
    let gps = Vec2::new(one, one);
    ekf.update(&gps).unwrap();
    let after = ekf.state();
    assert!(before.px.lt(&after.px));
    assert!(after.px.lt(&one));
    assert!(before.py.lt(&after.py));
    assert!(after.py.lt(&one));
}

#[test]
fn test_accessors_idempotent() {
    let mut ekf = Ekf::new(origin(), dt_100hz()).unwrap();
    let one = Rat::from_int(1);
    ekf.predict(&accel(one, one)).unwrap();
    let s1 = ekf.state();
    let s2 = ekf.state();
    assert_eq!(s1.px.num(), s2.px.num());
    assert_eq!(s1.px.den(), s2.px.den());
    assert_eq!(s1.vy.num(), s2.vy.num());
    assert_eq!(s1.vy.den(), s2.vy.den());
    let c1 = ekf.covariance();
    let c2 = ekf.covariance();
    assert_eq!(c1.m00.num(), c2.m00.num());
    assert_eq!(c1.m00.den(), c2.m00.den());
    assert_eq!(c1.m23.num(), c2.m23.num());
    assert_eq!(c1.m33.den(), c2.m33.den());
}

#[test]
fn test_singular_update_rejected() {
    // zero measurement noise makes the innovation covariance singular:
    // the update fails without mutating anything and without panicking
    let mut ekf =
        Ekf::with_noise(origin(), dt_100hz(), r(1, 10), Rat::from_int(0)).unwrap();
    let before = ekf.state();
    let cov_before = ekf.covariance();
    let res = ekf.update(&Vec2::new(Rat::from_int(5), Rat::from_int(5)));
    assert!(matches!(res, Err(EkfError::SingularInnovationCovariance)));
    let after = ekf.state();
    let cov_after = ekf.covariance();
    assert!(after.px.eq_value(&before.px));
    assert!(after.vy.eq_value(&before.vy));
    assert!(cov_after.m00.eq_value(&cov_before.m00));
}

#[test]
fn test_singular_update_negative_noise() {
    // measurement noise of -1 against the identity covariance drives the
    // per-axis innovation variance a + r to zero: singular, rejected
    let mut ekf =
        Ekf::with_noise(origin(), dt_100hz(), r(1, 10), Rat::from_int(-1)).unwrap();
    let res = ekf.update(&Vec2::new(Rat::from_int(1), Rat::from_int(1)));
    assert!(matches!(res, Err(EkfError::SingularInnovationCovariance)));
}

#[test]
fn test_overflow_reported() {
    // a process noise at the edge of the representation makes the exact
    // covariance propagation unrepresentable: the predict fails, reports
    // it, and leaves the estimator unchanged
    let mut ekf = Ekf::with_noise(
        origin(),
        dt_100hz(),
        Rat::from_int(i64::MAX),
        Rat::from_int(1),
    )
    .unwrap();
    let zero = Rat::from_int(0);
    let before = ekf.covariance();
    let res = ekf.predict(&accel(zero, zero));
    assert!(matches!(res, Err(EkfError::Overflow)));
    let after = ekf.covariance();
    assert!(after.m22.eq_value(&before.m22));
    assert!(after.m00.eq_value(&before.m00));
}

#[test]
fn test_bounded_uncertainty_under_confirming_cycles() {
    // predict/update cycles with measurements on the true (resting)
    // trajectory keep the position variance bounded instead of letting it
    // diverge: after every confirming update it sits strictly below the
    // measurement noise magnitude (here 1)
    let mut ekf = Ekf::new(origin(), dt_100hz()).unwrap();
    let zero = Rat::from_int(0);
    let noise = Rat::from_int(1);
    for _ in 0..2 {
        ekf.predict(&accel(zero, zero)).unwrap();
        let st = ekf.state();
        ekf.update(&Vec2::new(st.px, st.py)).unwrap();
        let cov = ekf.covariance();
        assert!(cov.m00.lt(&noise));
        assert!(cov.m11.lt(&noise));
    }
}
