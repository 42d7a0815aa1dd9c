use baseplug::{Declick, DeclickOutput, Fixed, Real, SmoothStatus};

fn cmp_output(
    output: &DeclickOutput<isize>,
    from: isize,
    to: isize,
    status: SmoothStatus,
    fade: &[Fixed],
) -> bool {
    *output.from == from && *output.to == to && output.status == status && output.fade == fade
}

fn zeros() -> Vec<Fixed> {
    vec![Fixed::zero(); 128]
}

fn ones() -> Vec<Fixed> {
    vec![Fixed::one(); 128]
}

#[test]
fn reset_test() {
    let mut declick = Declick::new(0 as isize);
    declick.reset(1);
    assert!(cmp_output(&declick.output(), 1, 1, SmoothStatus::Inactive, &zeros()));
}

#[test]
fn set_same_test() {
    let mut declick = Declick::new(0 as isize);
    declick.set(0);
    assert!(cmp_output(&declick.output(), 0, 0, SmoothStatus::Inactive, &zeros()));
}

#[test]
fn set_new_value_test() {
    let mut declick = Declick::new(0 as isize);
    declick.set(1);
    assert!(cmp_output(&declick.output(), 0, 1, SmoothStatus::Active, &zeros()));
}

#[test]
fn set_new_value_next_exists_test() {
    let mut declick = Declick::new(0 as isize);
    declick.set(1);
    declick.set(2);
    assert!(cmp_output(&declick.output(), 0, 1, SmoothStatus::Active, &zeros()));
}

#[test]
fn process_no_next_test() {
    let mut declick = Declick::new(0 as isize);
    declick.process(64);
    assert!(cmp_output(&declick.output(), 0, 0, SmoothStatus::Inactive, &zeros()));
}

#[test]
fn process_next_fading_active_test() {
    let mut declick = Declick::new(0 as isize);
    let mut fade = zeros();
    fade[0] = Fixed::one();
    declick.set(1);
    declick.process(1);

    assert!(cmp_output(&declick.output(), 0, 1, SmoothStatus::Active, &fade));
}

#[test]
fn process_next_fading_finished_test() {
    let mut declick = Declick::new(0 as isize);
    declick.set(1);
    // We must call process 3 times before current, next and staged are updated.
    declick.process(1);
    declick.process(1);
    declick.process(1);

    assert!(cmp_output(&declick.output(), 1, 1, SmoothStatus::Inactive, &ones()));
}

#[test]
fn process_next_staged_fading_finished_test() {
    let mut declick = Declick::new(0 as isize);
    declick.set(1);
    declick.set(2);
    // We must call process 3 times before current, next and staged are updated.
    declick.process(1);
    declick.process(1);
    declick.process(1);

    // the promoted staged value starts its own crossfade at once: the
    // envelope restarted from zero and the third call produced its first
    // sample of the new ramp
    let mut fade = zeros();
    fade[0] = Fixed::one();
    assert!(cmp_output(&declick.output(), 1, 2, SmoothStatus::Active, &fade));
}

#[test]
fn staged_value_completes_its_own_fade() {
    let mut declick = Declick::new(0 as isize);
    declick.set(1);
    declick.set(2);
    // three calls finish the first fade and start the second; two more
    // let the second fade complete and settle on the staged value
    for _ in 0..5 {
        declick.process(1);
    }
    assert!(cmp_output(&declick.output(), 2, 2, SmoothStatus::Inactive, &ones()));
}
