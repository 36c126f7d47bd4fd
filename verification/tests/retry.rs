use otap_dataflow::retry::{
    capped_delay_secs, next_retry_delay, retry_delay_nanos, RequestStep, TokenRequest, HALF, UNIT,
};

/// The delay as binary64 arithmetic gives it.
fn float_delay(attempt: i32, draw: u64) -> u64 {
    let base_delay_secs = 5.0 * 2.0_f64.powi(attempt - 1);
    let capped_delay_secs = base_delay_secs.min(30.0);
    let jitter_range = capped_delay_secs * 0.10;
    let random = draw as f64 / UNIT as f64;
    let jitter = (random * 2.0 - 1.0) * jitter_range;
    let delay_secs = (capped_delay_secs + jitter).max(1.0);
    std::time::Duration::from_secs_f64(delay_secs).as_nanos() as u64
}

#[test]
fn delay_doubles_up_to_the_cap() {
    let delays: Vec<u64> = (1..=6).map(capped_delay_secs).collect();
    assert_eq!(delays, [5, 10, 20, 30, 30, 30]);
    assert_eq!(capped_delay_secs(i32::MAX), 30);
}

#[test]
fn middle_draw_leaves_the_delay() {
    assert_eq!(retry_delay_nanos(1, HALF), 5_000_000_000);
    assert_eq!(retry_delay_nanos(2, HALF), 10_000_000_000);
    assert_eq!(retry_delay_nanos(3, HALF), 20_000_000_000);
    assert_eq!(retry_delay_nanos(4, HALF), 30_000_000_000);
}

#[test]
fn extreme_draws_are_a_tenth_away() {
    assert_eq!(retry_delay_nanos(1, 0), 4_500_000_000);
    assert_eq!(retry_delay_nanos(4, 0), 27_000_000_000);
    assert_eq!(retry_delay_nanos(1, UNIT - 1), 5_500_000_000);
    assert_eq!(retry_delay_nanos(100, UNIT - 1), 33_000_000_000);
}

#[test]
fn delay_is_what_binary64_gives() {
    let mut draw: u64 = 12_345;
    for i in 0..200_000 {
        draw = draw.wrapping_mul(6_364_136_223_846_793_005).wrapping_add(1_442_695_040_888_963_407);
        let share = draw >> 11;
        let attempt = 1 + (i % 6);
        assert_eq!(retry_delay_nanos(attempt, share), float_delay(attempt, share));
    }
}

#[test]
fn drawn_delays_stay_within_a_tenth() {
    for attempt in 1..8 {
        let middle = capped_delay_secs(attempt) * 1_000_000_000;
        for _ in 0..100 {
            let delay = next_retry_delay(attempt);
            assert!(delay >= middle / 10 * 9 && delay <= middle / 10 * 11);
        }
    }
}

#[test]
fn draws_differ() {
    let first = next_retry_delay(4);
    assert!((0..100).any(|_| next_retry_delay(4) != first));
}

#[test]
fn a_request_waits_longer_with_each_failure() {
    let mut request = TokenRequest::new();
    for secs in [5, 10, 20, 30, 30] {
        let middle = secs * 1_000_000_000;
        let delay = request.on_failure();
        assert!(delay >= middle / 10 * 9 && delay <= middle / 10 * 11);
    }
}

#[test]
fn requests_go_on_until_one_succeeds() {
    let mut request = TokenRequest::new();
    let first: RequestStep<u8> = request.begin();
    assert!(matches!(first, RequestStep::RequestAfter(0)));
    for secs in [5, 10, 20, 30, 30] {
        let middle = secs * 1_000_000_000;
        let step: RequestStep<u8> = request.on_answer(None);
        match step {
            RequestStep::RequestAfter(wait) => {
                assert!(wait >= middle / 10 * 9 && wait <= middle / 10 * 11);
            }
            RequestStep::Return(_) => panic!("nothing to return"),
        }
    }
    assert!(matches!(request.on_answer(Some(7u8)), RequestStep::Return(7)));
}
