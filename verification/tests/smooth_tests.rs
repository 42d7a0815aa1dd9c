use baseplug::{Fixed, Real, Smooth, SmoothStatus};

const SCALE: f64 = 4294967296.0;

fn fx(v: f64) -> Fixed {
    Fixed::from_raw((v * SCALE).round() as i64)
}

fn to_f(v: Fixed) -> f64 {
    v.raw as f64 / SCALE
}

#[test]
fn new_output_is_constant() {
    let initial = fx(0.25);
    let smooth = Smooth::new(initial);
    let out = smooth.output();
    assert_eq!(out.status, SmoothStatus::Inactive);
    assert_eq!(out.values.len(), 128);
    for v in out.values.iter() {
        assert_eq!(*v, initial);
    }
    assert!(!smooth.is_active());
}

#[test]
fn set_arms_without_producing_samples() {
    let mut smooth = Smooth::new(Fixed::zero());
    smooth.set(Fixed::one());
    assert_eq!(smooth.dest(), Fixed::one());
    assert!(smooth.is_active());
    // the buffer still holds the old constant
    assert_eq!(smooth.output().values[0], Fixed::zero());
}

#[test]
fn neutral_coefficients_settle_exactly_after_two_updates() {
    // a = 1, b = 0 right after construction: one sample reaches the target
    let mut smooth = Smooth::new(Fixed::zero());
    smooth.set(Fixed::one());
    smooth.process(1);
    assert_eq!(smooth.output().values[0], Fixed::one());
    // first update collapses onto the target and starts deactivating
    assert_eq!(smooth.update_status(), SmoothStatus::Deactivating);
    // the collapse quantizes every sample to the target, exactly
    for v in smooth.output().values.iter() {
        assert_eq!(*v, Fixed::one());
    }
    // second update retires the filter
    assert_eq!(smooth.update_status(), SmoothStatus::Inactive);
    assert_eq!(smooth.output().values[127], Fixed::one());
}

#[test]
fn filtered_ramp_settles_to_target_exactly() {
    let mut smooth = Smooth::new(Fixed::zero());
    smooth.set_speed_ms(fx(44100.0), fx(5.0));
    let target = fx(0.75);
    smooth.set(target);
    let mut blocks = 0usize;
    loop {
        smooth.process(128);
        let status = smooth.update_status();
        if status == SmoothStatus::Inactive {
            break;
        }
        blocks += 1;
        assert!(blocks < 1000, "filter failed to settle");
    }
    // after settling, the buffer holds the destination exactly
    for v in smooth.output().values.iter() {
        assert_eq!(*v, target);
    }
    assert_eq!(smooth.dest(), target);
}

#[test]
fn ramp_moves_monotonically_toward_target() {
    let mut smooth = Smooth::new(Fixed::zero());
    smooth.set_speed_ms(fx(48000.0), fx(10.0));
    smooth.set(Fixed::one());
    smooth.process(128);
    let out = smooth.output();
    let mut prev = -1.0f64;
    for v in out.values.iter() {
        let f = to_f(*v);
        assert!(f >= prev);
        assert!(f <= 1.0);
        prev = f;
    }
    // a 10 ms constant at 48 kHz covers roughly 23% of the step in 128
    // samples: the ramp must clearly have left zero but not yet arrived
    assert!(prev > 0.1 && prev < 0.5);
}

#[test]
fn reset_collapses_ramp_state() {
    let mut smooth = Smooth::new(Fixed::zero());
    smooth.set_speed_ms(fx(48000.0), fx(10.0));
    smooth.set(Fixed::one());
    smooth.process(64);
    smooth.reset(fx(0.5));
    assert!(!smooth.is_active());
    assert_eq!(smooth.dest(), fx(0.5));
    for v in smooth.output().values.iter() {
        assert_eq!(*v, fx(0.5));
    }
}

#[test]
fn current_value_is_the_single_carry_over() {
    let mut smooth = Smooth::new(fx(0.5));
    let cv = smooth.current_value();
    assert_eq!(cv.values.len(), 1);
    assert_eq!(cv.values[0], fx(0.5));
    assert_eq!(cv.status, SmoothStatus::Inactive);
    smooth.set(Fixed::one());
    smooth.process(3);
    // with neutral coefficients the carry-over is already the target
    let cv = smooth.current_value();
    assert_eq!(cv.values.len(), 1);
    assert_eq!(cv.values[0], Fixed::one());
    assert_eq!(cv.status, SmoothStatus::Active);
}

#[test]
fn process_clamps_to_max_blocksize() {
    let mut smooth = Smooth::new(Fixed::zero());
    smooth.set(Fixed::one());
    // with neutral coefficients every produced sample is the target; a
    // request beyond the capacity must not fault and fills the buffer
    smooth.process(1000);
    let out = smooth.output();
    assert_eq!(out.values.len(), 128);
    assert_eq!(out.values[127], Fixed::one());
}
