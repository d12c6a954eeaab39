use speed::binary64::Binary64;
use speed::cli::{command, once, summary, version_line, Command, OnceStep, HELP};
use speed::speedtest::{Sample, TestResult, Update};

#[test]
fn arguments() {
    for option in ["-h", "--help"] {
        assert!(matches!(command(Some(option), true), Command::Help));
    }
    for option in ["-V", "--version"] {
        assert!(matches!(command(Some(option), false), Command::Version));
    }
    assert!(matches!(command(Some("--once"), true), Command::Once));
    assert!(matches!(command(None, true), Command::Interactive));
    assert!(matches!(command(None, false), Command::Once));
    for option in ["", "--Once", "-v", "once"] {
        match command(Some(option), true) {
            Command::Unknown(complaint) => {
                assert_eq!(complaint, format!("Unknown option: {option}\n\n{HELP}"));
            }
            other => panic!("{other:?}"),
        }
    }
    assert_eq!(version_line(), "speed 1.0.0");
    assert!(HELP.starts_with("speed 1.0.0 — a playful Fast.com speed test\n"));
}

#[test]
fn a_single_test_prints_phases_and_the_result() {
    let result = TestResult {
        speed_mbps: Binary64 { bits: 93.25f64.to_bits() },
        latency_ms: 12,
        bytes: 116_600_000,
        server: "Oslo, NO".to_string(),
        client: "Bergen, NO".to_string(),
    };
    let line = summary(&result, &format!("{:.1}", 93.25), &format!("{:.1}", 116.6));
    assert_eq!(line, "93.2 Mbps  •  12 ms ping  •  Oslo, NO  •  116.6 MB downloaded");

    assert!(matches!(once(Update::Phase("Opening the taps")), OnceStep::Note("Opening the taps")));
    let sample = Sample { speed_mbps: Binary64 { bits: 0 }, elapsed: 0 };
    assert!(matches!(once(Update::Sample(sample)), OnceStep::Silent));
    assert!(matches!(once(Update::Finished(result)), OnceStep::Report(r) if r.latency_ms == 12));
    assert!(matches!(once(Update::Failed("x".to_string())), OnceStep::Fail(e) if e == "x"));
}
