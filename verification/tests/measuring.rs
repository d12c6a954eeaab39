use speed::binary64::Binary64;
use speed::download::{worker_step, worker_urls, Meter, Stretch, WorkerStep, SECOND, WORKERS};
use speed::latency::{LatencyProbe, PROBES};
use speed::speedtest::{Location, Target};

fn of(x: f64) -> Binary64 {
    Binary64 { bits: x.to_bits() }
}

fn latency(times: [f64; 4]) -> u64 {
    let mut probe = LatencyProbe::start();
    for (i, time) in times.iter().enumerate() {
        let (next, outcome) = probe.answered(of(*time));
        if i + 1 == PROBES {
            return outcome.unwrap();
        }
        assert_eq!(outcome, None);
        probe = next;
    }
    unreachable!()
}

#[test]
fn latency_is_the_median_without_the_first_probe() {
    assert_eq!(latency([900.0, 12.0, 40.0, 13.6]), 14);
    assert_eq!(latency([0.1, 12.0, 40.0, 13.6]), 14);
    assert_eq!(latency([5.0, 3.0, 2.0, 1.0]), 2);
    assert_eq!(latency([5.0, 2.5, 2.5, 2.5]), 3);
    assert_eq!(latency([5.0, 0.2, 0.4, 0.1]), 0);
}

#[test]
fn window_reaches_back_a_second() {
    let mut meter = Meter::start();
    let tick = SECOND / 5;
    assert_eq!(meter.latest(), 0);
    assert_eq!(meter.observe(0, 100), None);
    for i in 1..=5u64 {
        let nanos = tick * i as u128;
        assert_eq!(
            meter.observe(nanos, 100 + 10 * i),
            Some(Stretch { bytes: 10 * i, nanos })
        );
    }
    assert_eq!(
        meter.observe(6 * tick, 200),
        Some(Stretch { bytes: 200 - 110, nanos: SECOND })
    );
    assert_eq!(meter.latest(), 200);
}

#[test]
fn window_keeps_two_counts_over_a_long_pause() {
    let mut meter = Meter::start();
    meter.observe(0, 0);
    meter.observe(SECOND / 2, 10);
    assert_eq!(
        meter.observe(9 * SECOND, 40),
        Some(Stretch { bytes: 30, nanos: 9 * SECOND - SECOND / 2 })
    );
    assert_eq!(meter.observe(9 * SECOND, 41), None);
}

#[test]
fn readings_count_after_the_warm_up_and_above_zero() {
    let mut meter = Meter::start();
    assert!(!meter.record(2 * SECOND - 1, of(5.0)));
    assert!(!meter.record(2 * SECOND, of(0.0)));
    assert!(!meter.record(3 * SECOND, of(7.0)));
    assert!(!meter.record(10 * SECOND - 1, of(6.0)));
    assert!(meter.record(10 * SECOND, of(f64::NAN)));
    assert_eq!(meter.finish(), Some(vec![of(6.0), of(7.0)]));
    assert_eq!(Meter::start().finish(), None);
}

#[test]
fn a_tenth_of_the_readings_is_dropped_at_either_end() {
    for n in [1usize, 2, 9, 10, 11, 19, 20, 41] {
        let mut speeds: Vec<f64> = (0..n).map(|i| ((i * 7919) % 101) as f64 + 0.5).collect();
        let mut meter = Meter::start();
        for speed in &speeds {
            meter.record(5 * SECOND, of(*speed));
        }
        speeds.sort_by(f64::total_cmp);
        let trim = speeds.len() / 10;
        let kept = &speeds[trim..speeds.len().saturating_sub(trim).max(trim + 1)];
        let kept: Vec<Binary64> = kept.iter().map(|s| of(*s)).collect();
        assert_eq!(meter.finish(), Some(kept));
    }
}

#[test]
fn workers_take_the_servers_in_turn() {
    let target = |url: &str| Target {
        url: url.to_string(),
        location: Location { city: "Oslo".to_string(), country: "NO".to_string() },
    };
    let urls = worker_urls(&vec![target("a"), target("b"), target("c"), target("d")]);
    assert_eq!(urls, ["a", "b", "c", "d", "a", "b"]);
    assert_eq!(worker_urls(&vec![target("x")]).len(), WORKERS);
    assert_eq!(worker_urls(&vec![target("x")])[5], "x");
}

#[test]
fn workers_stop_when_told() {
    assert_eq!(worker_step(false, false), WorkerStep::Request);
    assert_eq!(worker_step(true, false), WorkerStep::Read);
    assert_eq!(worker_step(false, true), WorkerStep::Quit);
    assert_eq!(worker_step(true, true), WorkerStep::Quit);
}
