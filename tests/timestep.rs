use pyrite::timestep::Timestep;

#[test]
fn sixty_hertz_steps_once_per_sixtieth() {
    // a sixtieth of a second, rounded up, is 16_666_667 ns
    let mut t = Timestep::new(0);
    let dt = 1_000_000;
    let mut steps = Vec::new();
    for i in 1..=100u64 {
        if t.poll(i * dt, 60) {
            steps.push(i);
        }
    }
    assert_eq!(steps, vec![17, 34, 51, 67, 84]);
}

#[test]
fn never_steps_early() {
    let mut t = Timestep::new(0);
    assert!(!t.poll(16_666_666, 60));
    assert!(t.poll(16_666_667, 60));
    assert_eq!(t.accumulator, 0);
    assert_eq!(t.last_step, 16_666_667);
}

#[test]
fn one_step_per_poll_after_a_stall() {
    let mut t = Timestep::new(0);
    assert!(t.poll(100_000_000, 60));
    assert_eq!(t.accumulator, 100_000_000 - 16_666_667);
    assert!(t.poll(100_000_000, 60));
    assert!(t.poll(100_000_000, 60));
}

#[test]
fn zero_hertz_never_steps_and_clock_going_back_adds_nothing() {
    let mut t = Timestep::new(50);
    assert!(!t.poll(1_000_000_000_000, 0));
    assert_eq!(t.accumulator, 999_999_999_950);
    let mut u = Timestep::new(100);
    assert!(!u.poll(40, 1));
    assert_eq!(u.accumulator, 0);
    assert_eq!(u.last_step, 40);
}

#[test]
fn slow_polls_never_step_early() {
    // 25 ms between polls at 60 Hz: at most one step per whole 16_666_667 ns
    let mut t = Timestep::new(0);
    let mut steps: u64 = 0;
    for i in 1..=40u64 {
        if t.poll(i * 25_000_000, 60) {
            steps += 1;
        }
        assert!(steps * 16_666_667 <= i * 25_000_000);
        assert_eq!(steps * 16_666_667 + t.accumulator, i * 25_000_000);
    }
    assert_eq!(steps, 40);
}
