use speed::binary64::Binary64;
use speed::download::{Stretch, SECOND};
use speed::run::{
    Event, Reply, Run, Step, Trouble, PHASE_DOWNLOAD, PHASE_FINDING, PHASE_LATENCY,
};
use speed::speedtest::{ApiResponse, Fault, Location, Target, Update};

fn of(x: f64) -> Binary64 {
    Binary64 { bits: x.to_bits() }
}

fn place(city: &str, country: &str) -> Location {
    Location { city: city.to_string(), country: country.to_string() }
}

fn answer(urls: &[&str]) -> ApiResponse {
    ApiResponse {
        client: place("Bergen", "NO"),
        targets: urls
            .iter()
            .map(|url| Target { url: url.to_string(), location: place(&format!("at {url}"), "SE") })
            .collect(),
    }
}

fn only(reply: &Reply) -> &Update {
    assert_eq!(reply.updates.len(), 1);
    &reply.updates[0]
}

fn phase(reply: &Reply) -> &'static str {
    match only(reply) {
        Update::Phase(phase) => phase,
        other => panic!("{other:?}"),
    }
}

fn failure(reply: &Reply) -> String {
    match reply.updates.last() {
        Some(Update::Failed(error)) => error.clone(),
        other => panic!("{other:?}"),
    }
}

fn at_servers() -> Run {
    let reply = Run::begin().run.advance(Event::ClientReady);
    reply.run.advance(Event::Broken("no page".to_string())).run
}

fn at_download() -> Run {
    let mut run = at_servers().advance(Event::Served(answer(&["u0", "u1"]))).run;
    for _ in 0..4 {
        run = run.advance(Event::Probed(of(20.4))).run;
    }
    run
}

#[test]
fn a_label_names_city_and_country() {
    assert_eq!(place("Oslo", "NO").label(), "Oslo, NO");
}

#[test]
fn a_whole_run() {
    let reply = Run::begin();
    assert!(reply.updates.is_empty());
    assert!(!reply.failed());
    assert!(matches!(reply.step, Step::CreateClient));

    let reply = reply.run.advance(Event::ClientReady);
    assert_eq!(phase(&reply), PHASE_FINDING);
    assert_eq!(PHASE_FINDING, "Finding the nearest Netflix edge");
    assert!(matches!(reply.step, Step::LoadPage));

    let page = "<script src=\"/app-9.js\"></script>".to_string();
    let reply = reply.run.advance(Event::Loaded(page));
    assert!(reply.updates.is_empty());
    assert!(matches!(&reply.step, Step::LoadScript(url) if url == "https://fast.com/app-9.js"));

    let script = "token:\"abcdefghijklmnopqrst\"".to_string();
    let reply = reply.run.advance(Event::Loaded(script));
    assert!(matches!(&reply.step, Step::RequestServers(url)
        if url == "https://api.fast.com/netflix/speedtest/v2?https=true&token=abcdefghijklmnopqrst&urlCount=5"));

    let reply = reply.run.advance(Event::Served(answer(&["u0", "u1", "u2"])));
    assert_eq!(phase(&reply), PHASE_LATENCY);
    assert_eq!(PHASE_LATENCY, "Measuring unloaded latency");
    assert!(matches!(&reply.step, Step::Probe(url) if url == "u0"));

    let mut reply = reply.run.advance(Event::Probed(of(300.0)));
    for millis in [21.0, 19.0] {
        assert!(reply.updates.is_empty());
        assert!(matches!(&reply.step, Step::Probe(url) if url == "u0"));
        reply = reply.run.advance(Event::Probed(of(millis)));
    }
    let reply = reply.run.advance(Event::Probed(of(20.4)));
    assert_eq!(phase(&reply), PHASE_DOWNLOAD);
    assert_eq!(PHASE_DOWNLOAD, "Opening the taps");
    assert!(matches!(&reply.step, Step::OpenDownloads(urls)
        if urls == &["u0", "u1", "u2", "u0", "u1", "u2"]));

    let reply = reply.run.advance(Event::Ticked { now: 5, total: 0 });
    assert!(matches!(reply.step, Step::Rate(None)));
    let reply = reply.run.advance(Event::Rated { elapsed: 6, speed: of(0.0) });
    assert!(matches!(only(&reply), Update::Sample(s) if s.elapsed == 6 && s.speed_mbps == of(0.0)));
    assert!(matches!(reply.step, Step::AwaitTick));

    assert_eq!(reply.run.latest_total(), 0);
    let reply = reply.run.advance(Event::Ticked { now: 5 + SECOND, total: 1000 });
    assert!(matches!(reply.step, Step::Rate(Some(Stretch { bytes: 1000, nanos: SECOND }))));
    let reply = reply.run.advance(Event::Rated { elapsed: 10 * SECOND, speed: of(80.0) });
    assert!(matches!(only(&reply), Update::Sample(s) if s.elapsed == 10 * SECOND));
    assert!(matches!(&reply.step, Step::Average(speeds) if speeds == &[of(80.0)]));

    let reply = reply.run.advance(Event::Averaged { speed: of(80.0), total: 1234 });
    match only(&reply) {
        Update::Finished(result) => {
            assert_eq!(result.speed_mbps, of(80.0));
            assert_eq!(result.latency_ms, 20);
            assert_eq!(result.bytes, 1234);
            assert_eq!(result.server, "at u0, SE");
            assert_eq!(result.client, "Bergen, NO");
        }
        other => panic!("{other:?}"),
    }
    assert!(matches!(reply.step, Step::Finish));
    assert!(!reply.failed());
    assert!(matches!(reply.run, Run::Over));

    let reply = reply.run.advance(Event::Broken("late".to_string()));
    assert!(reply.updates.is_empty());
    assert!(matches!(reply.step, Step::Wait));
}

#[test]
fn without_a_token_the_fallback_is_used() {
    let fallback = "https://api.fast.com/netflix/speedtest/v2?https=true&token=YXNkZmFzZGxmbnNkYWZoYXNkZmhrYWxm&urlCount=5";
    let page = || Run::begin().run.advance(Event::ClientReady).run;
    let script = || page().advance(Event::Loaded("src=\"/app-1.js\"".to_string())).run;
    let replies = [
        page().advance(Event::Broken("offline".to_string())),
        page().advance(Event::Loaded("<html></html>".to_string())),
        script().advance(Event::Broken("offline".to_string())),
        script().advance(Event::Loaded("no token here".to_string())),
    ];
    for reply in replies {
        assert!(reply.updates.is_empty());
        assert!(matches!(&reply.step, Step::RequestServers(url) if url == fallback));
    }
}

#[test]
fn what_cannot_be_had_breaks_the_run_off() {
    let broken = || Event::Broken("could not reach Fast.com: refused".to_string());
    let runs = [
        Run::begin().run,
        at_servers(),
        at_servers().advance(Event::Served(answer(&["u"]))).run,
        at_download(),
    ];
    for run in runs {
        let reply = run.advance(broken());
        assert_eq!(failure(&reply), "could not reach Fast.com: refused");
        assert_eq!(reply.updates.len(), 1);
        assert!(reply.failed());
        assert!(matches!(reply.run, Run::Over));
    }
}

#[test]
fn no_servers_is_a_failure() {
    let reply = at_servers().advance(Event::Served(answer(&[])));
    assert_eq!(failure(&reply), "Fast.com returned no test servers");
    assert!(matches!(reply.step, Step::Fail(Fault::NoServers)));
    assert!(reply.failed());
    assert!(matches!(reply.run, Run::Over));
}

#[test]
fn no_data_is_a_failure() {
    let run = at_download().advance(Event::Ticked { now: 0, total: 0 }).run;
    let reply = run.advance(Event::Rated { elapsed: 11 * SECOND, speed: of(0.0) });
    assert_eq!(reply.updates.len(), 2);
    assert!(matches!(&reply.updates[0], Update::Sample(_)));
    assert_eq!(failure(&reply), "the test completed without receiving data");
    assert!(matches!(reply.step, Step::Fail(Fault::NoData)));
    assert!(reply.failed());
}

#[test]
fn the_bytes_of_the_result_cover_every_count() {
    let mut run = at_download();
    let counts = [300_u64, 700, 700, 950];
    for (i, total) in counts.into_iter().enumerate() {
        let now = SECOND * (2 + 3 * i as u128);
        run = run.advance(Event::Ticked { now, total }).run;
        let reply = run.advance(Event::Rated { elapsed: now, speed: of(1.5) });
        assert!(!reply.failed());
        run = reply.run;
    }
    let reply = run.advance(Event::Averaged { speed: of(1.5), total: 950 });
    match only(&reply) {
        Update::Finished(result) => assert!(counts.iter().all(|count| *count <= result.bytes)),
        other => panic!("{other:?}"),
    }
}

#[test]
fn where_no_time_has_passed_the_speed_is_zero() {
    let reply = at_download().advance(Event::Ticked { now: 7, total: 50 });
    assert!(matches!(reply.step, Step::Rate(None)));
    let reply = reply.run.advance(Event::Rated { elapsed: 3 * SECOND, speed: of(99.0) });
    assert!(matches!(only(&reply), Update::Sample(s) if s.speed_mbps == of(0.0)));
}

#[test]
fn the_average_is_of_the_readings_that_count() {
    let mut run = at_download();
    let readings = [(1, 500.0), (2, 30.0), (3, 0.0), (4, 10.0), (10, 20.0)];
    run = run.advance(Event::Ticked { now: 0, total: 0 }).run;
    run = run.advance(Event::Rated { elapsed: 0, speed: of(0.0) }).run;
    for (seconds, speed) in readings {
        let elapsed = seconds * SECOND;
        run = run.advance(Event::Ticked { now: elapsed, total: seconds as u64 }).run;
        let reply = run.advance(Event::Rated { elapsed, speed: of(speed) });
        if seconds == 10 {
            assert!(matches!(&reply.step, Step::Average(speeds)
                if speeds == &[of(10.0), of(20.0), of(30.0)]));
        }
        run = reply.run;
    }
}

#[test]
fn events_that_are_not_waited_for_change_nothing() {
    let reply = at_download().advance(Event::Loaded("x".to_string()));
    assert!(reply.updates.is_empty());
    assert!(matches!(reply.step, Step::Wait));
    assert!(matches!(reply.run, Run::Sampling { .. }));
}

#[test]
fn trouble_is_told_by_step() {
    let url = || "u".to_string();
    let told = |step: Step| {
        [Trouble::Unanswered, Trouble::Refused, Trouble::Unreadable].map(|t| step.fault_with(t))
    };
    assert_eq!(told(Step::CreateClient), [Some(Fault::NoClient), None, None]);
    assert_eq!(told(Step::LoadPage), [None, None, None]);
    assert_eq!(told(Step::LoadScript(url())), [None, None, None]);
    assert_eq!(
        told(Step::RequestServers(url())),
        [Some(Fault::Unreachable), Some(Fault::Rejected), Some(Fault::Unexpected)]
    );
    assert_eq!(
        told(Step::Probe(url())),
        [Some(Fault::ProbeUnanswered), Some(Fault::ProbeRejected), None]
    );
}

#[test]
fn faults_in_words() {
    assert_eq!(Fault::NoClient.message(), "could not create the HTTP client");
    assert_eq!(Fault::Unreachable.message(), "could not reach Fast.com");
    assert_eq!(Fault::Rejected.message(), "Fast.com rejected the test request");
    assert_eq!(Fault::Unexpected.message(), "Fast.com returned an unexpected response");
    assert_eq!(Fault::ProbeUnanswered.message(), "the test server did not respond");
    assert_eq!(Fault::ProbeRejected.message(), "the test server rejected the latency probe");
}
