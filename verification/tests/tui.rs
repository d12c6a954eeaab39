use speed::binary64::Binary64;
use speed::speedtest::{Sample, TestResult, Update};
use speed::tui::{App, Control, Input, Key, KeyCode, Status};

fn of(x: f64) -> Binary64 {
    Binary64 { bits: x.to_bits() }
}

fn press(code: KeyCode) -> Input {
    Input::Key(Key { code, control: false, press: true })
}

fn result(speed: f64) -> TestResult {
    TestResult {
        speed_mbps: of(speed),
        latency_ms: 9,
        bytes: 5_000_000,
        server: "Oslo, NO".to_string(),
        client: "Bergen, NO".to_string(),
    }
}

fn opened() -> App {
    let mut app = App::new();
    assert!(app.start_test());
    app
}

#[test]
fn opening_starts_one_test() {
    let mut app = App::new();
    assert_eq!(app.status(), Status::Running);
    assert_eq!(app.phase(), "Warming up");
    assert!(app.start_test());
    assert!(!app.start_test());
    assert_eq!(app.handle(press(KeyCode::Enter)), Control::Continue);
}

#[test]
fn keys_start_and_quit() {
    for code in [KeyCode::Char(' '), KeyCode::Enter, KeyCode::Char('r')] {
        let mut app = opened();
        app.apply(Update::Failed("down".to_string()));
        assert_eq!(app.handle(press(code)), Control::Start);
        assert_eq!(app.handle(press(code)), Control::Continue);
    }
    let mut app = opened();
    assert_eq!(app.handle(press(KeyCode::Char('q'))), Control::Quit);
    assert_eq!(app.handle(press(KeyCode::Esc)), Control::Quit);
    let control_c = Key { code: KeyCode::Char('c'), control: true, press: true };
    assert_eq!(app.handle(Input::Key(control_c)), Control::Quit);
    for code in [KeyCode::Char('c'), KeyCode::Char('x'), KeyCode::Char('Q'), KeyCode::Other] {
        assert_eq!(app.handle(press(code)), Control::Continue);
    }
    let release = Key { code: KeyCode::Char('q'), control: false, press: false };
    assert_eq!(app.handle(Input::Key(release)), Control::Continue);
    assert_eq!(app.handle(Input::Other), Control::Continue);
}

#[test]
fn updates_show() {
    let mut app = opened();
    app.apply(Update::Phase("Opening the taps"));
    assert_eq!(app.phase(), "Opening the taps");
    app.apply(Update::Sample(Sample { speed_mbps: of(12.5), elapsed: 700 }));
    assert_eq!(app.phase(), "Measuring download speed");
    assert_eq!(app.speed(), of(12.5));
    assert_eq!(app.elapsed(), 700);
    assert_eq!(app.samples(), &vec![(700, of(12.5))]);
    assert_eq!(app.handle(Input::Update(Update::Finished(result(30.0)))), Control::Continue);
    assert_eq!(app.status(), Status::Done);
    assert_eq!(app.phase(), "Run complete");
    assert_eq!(app.speed(), of(30.0));
    assert_eq!(app.result().as_ref().unwrap().server, "Oslo, NO");
    assert_eq!(app.history().len(), 1);
}

#[test]
fn a_failure_shows_and_ends_the_test() {
    let mut app = opened();
    app.apply(Update::Failed("could not reach Fast.com".to_string()));
    assert_eq!(app.status(), Status::Failed);
    assert_eq!(app.phase(), "Test interrupted");
    assert_eq!(app.error().as_deref(), Some("could not reach Fast.com"));
    assert!(app.start_test());
}

#[test]
fn a_restart_clears_the_screen_but_not_the_session() {
    let mut app = opened();
    app.apply(Update::Sample(Sample { speed_mbps: of(12.5), elapsed: 700 }));
    app.apply(Update::Finished(result(30.0)));
    assert!(app.start_test());
    assert_eq!(app.status(), Status::Running);
    assert_eq!(app.phase(), "Warming up");
    assert_eq!(app.speed(), of(0.0));
    assert_eq!(app.elapsed(), 0);
    assert!(app.samples().is_empty());
    assert!(app.result().is_none());
    assert!(app.error().is_none());
    assert_eq!(app.history().len(), 1);
}

#[test]
fn six_results_are_remembered_latest_first() {
    let mut app = opened();
    for lap in 1..=7 {
        app.apply(Update::Finished(result(lap as f64)));
        app.start_test();
    }
    app.apply(Update::Finished(result(8.0)));
    assert_eq!(app.result().as_ref().unwrap().speed_mbps, app.history()[0].speed_mbps);
    let speeds: Vec<Binary64> = app.history().iter().map(|r| r.speed_mbps).collect();
    assert_eq!(speeds, [8.0, 7.0, 6.0, 5.0, 4.0, 3.0].map(of));
}

#[test]
fn waiting_is_quiet() {
    let mut app = opened();
    app.apply(Update::Finished(result(30.0)));
    for _ in 0..100 {
        assert_eq!(app.handle(Input::Tick), Control::Continue);
        assert_eq!(app.handle(press(KeyCode::Char('x'))), Control::Continue);
    }
    assert_eq!(app.animation(), 100);
    assert_eq!(app.status(), Status::Done);
}
