use path_tracer::random::RandomStream;
use path_tracer::scalar::Scalar;

#[test]
fn a_new_stream_starts_at_zero() {
    let stream = RandomStream::new(5, -2);
    assert_eq!(stream, RandomStream { seed: 5, lane: -2, index: 0 });
}

#[test]
fn draws_lie_in_the_range_and_move_the_stream() {
    let mut stream = RandomStream::new(1, 0);
    let low = Scalar::from_raw(-250);
    let high = Scalar::from_raw(750);
    let mut least = i64::MAX;
    let mut most = i64::MIN;
    for n in 0..1000 {
        assert_eq!(stream.index, n);
        let value = stream.draw(low, high).raw();
        assert!(-250 <= value && value < 750);
        least = least.min(value);
        most = most.max(value);
    }
    assert!(least < -200);
    assert!(most > 700);
}

#[test]
fn a_range_of_one_value_gives_that_value() {
    let mut stream = RandomStream::new(1, 0);
    assert_eq!(stream.draw(Scalar::from_raw(41), Scalar::from_raw(42)).raw(), 41);
}

#[test]
fn a_draw_is_a_function_of_seed_lane_and_index() {
    let low = Scalar::from_int(0);
    let high = Scalar::from_int(1);
    let mut a = RandomStream::new(77, 3);
    let mut b = RandomStream::new(77, 3);
    let first: Vec<i64> = (0..20).map(|_| a.draw(low, high).raw()).collect();
    let again: Vec<i64> = (0..20).map(|_| b.draw(low, high).raw()).collect();
    assert_eq!(first, again);
    let mut late = RandomStream { seed: 77, lane: 3, index: 10 };
    assert_eq!(late.draw(low, high).raw(), first[10]);
    let mut other_seed = RandomStream::new(78, 3);
    let mut other_lane = RandomStream::new(77, 4);
    let seeded: Vec<i64> = (0..20).map(|_| other_seed.draw(low, high).raw()).collect();
    let laned: Vec<i64> = (0..20).map(|_| other_lane.draw(low, high).raw()).collect();
    assert_ne!(first, seeded);
    assert_ne!(first, laned);
    assert_ne!(seeded, laned);
}

#[test]
fn the_last_position_is_followed_by_the_first() {
    let mut stream = RandomStream { seed: 1, lane: 1, index: u64::MAX };
    stream.draw(Scalar::from_int(0), Scalar::from_int(1));
    assert_eq!(stream.index, 0);
}
