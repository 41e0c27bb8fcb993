use hypatia::{V4KA, KIB};

#[test]
fn it_works() {
    assert_eq!(2 + 2, 4);
}

#[test]
fn lib_it_works() {
    assert_eq!(2 + 2, 4);
}

#[test]
fn steps_between_works() {
    let start = V4KA::new(0);
    let end = V4KA::new(0);
    assert_eq!(V4KA::steps_between(&start, &end), (0, Some(0)));

    let end = V4KA::new_round_up(1);
    assert_eq!(end.addr(), 4096);
    assert_eq!(V4KA::steps_between(&start, &end), (1, Some(1)));

    let end = V4KA::new(16 * KIB);
    assert_eq!(V4KA::steps_between(&start, &end), (4, Some(4)));

    assert_eq!(V4KA::steps_between(&end, &start), (0, None));
}

#[test]
fn round_trip_steps() {
    let start = V4KA::new(0x7000);
    let fwd = V4KA::forward_checked(start, 25).unwrap();
    assert_eq!(fwd.addr(), 0x7000 + 25 * 4096);
    let back = V4KA::backward_checked(fwd, 25).unwrap();
    assert_eq!(back, start);
}

#[test]
fn round_up_and_down() {
    assert_eq!(V4KA::new_round_up(0).addr(), 0);
    assert_eq!(V4KA::new_round_up(1).addr(), 4096);
    assert_eq!(V4KA::new_round_down(8191).addr(), 4096);
}

#[test]
fn backward_checked_underflow() {
    let start = V4KA::new(0x1000);
    assert!(V4KA::backward_checked(start, 2).is_none());
}
