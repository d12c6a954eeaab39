//! A run of the speed test, as a machine: it is told what happened and says what to do next and
//! which updates to send.

use crate::binary64::{lemma_nearest, Binary64};
use crate::discovery::{
    find_script, find_token, is_token, lemma_fallback_has_token_shape, lemma_token_has_its_shape,
    script_address, script_path_in, targets_address, targets_url, token_in, token_or_fault, FALLBACK_TOKEN,
};
use crate::download::{
    have_to_go, is_cut, kept, lemma_kept_is_the_middle, lemma_observed, lemma_rated, lemma_recorded,
    lemma_stretch, lemma_window, since, stretch_of, trimmed, worker_address, worker_urls, Meter,
    MeterView, Stretch, SECOND, TEST_DURATION, WORKERS,
};
use crate::latency::{
    lemma_first_probe_does_not_count, lemma_median_of_three, median, LatencyProbe, ProbeView,
};
use crate::speedtest::{
    ApiResponse, ApiView, Fault, ResultView, Sample, TestResult, Update, UpdateView,
};
use vstd::prelude::*;
use vstd::string::*;

verus! {

/// The version of the program.
pub const VERSION: &'static str = "1.0.0";

/// What the client calls itself in its requests.
pub const USER_AGENT: &'static str = "speed/1.0.0";

/// How long the client waits for a connection, in seconds.
pub const CONNECT_TIMEOUT_SECS: u64 = 8;

/// How long the client waits for an answer to be complete, in seconds.
pub const TIMEOUT_SECS: u64 = 20;

/// The phase in which a server is looked for.
pub const PHASE_FINDING: &'static str = "Finding the nearest Netflix edge";

/// The phase in which the latency is measured.
pub const PHASE_LATENCY: &'static str = "Measuring unloaded latency";

/// The phase in which the download begins.
pub const PHASE_DOWNLOAD: &'static str = "Opening the taps";

/// How far a run has come, with what it has learned.
#[derive(Debug)]
pub enum Run {
    /// Waiting for the client.
    Client,
    /// Waiting for the page.
    Page,
    /// Waiting for the application script.
    Script,
    /// Waiting for the server list.
    Servers,
    /// Waiting for the answer to a latency probe.
    Latency { api: ApiResponse, probe: LatencyProbe },
    /// Waiting for the next tick of the download.
    Sampling { api: ApiResponse, latency_ms: u64, meter: Meter },
    /// Waiting for the speed to be worked out.
    Rating { api: ApiResponse, latency_ms: u64, meter: Meter },
    /// Waiting for the mean speed to be worked out.
    Averaging { api: ApiResponse, latency_ms: u64 },
    /// At its end.
    Over,
}

/// How far a run has come.
pub enum RunView {
    Client,
    Page,
    Script,
    Servers,
    Latency { api: ApiView, probe: ProbeView },
    Sampling { api: ApiView, latency_ms: u64, meter: MeterView },
    Rating { api: ApiView, latency_ms: u64, meter: MeterView },
    Averaging { api: ApiView, latency_ms: u64 },
    Over,
}

impl View for Run {
    type V = RunView;

    open spec fn view(&self) -> RunView {
        match self {
            Run::Client => RunView::Client,
            Run::Page => RunView::Page,
            Run::Script => RunView::Script,
            Run::Servers => RunView::Servers,
            Run::Latency { api, probe } => RunView::Latency { api: api@, probe: probe@ },
            Run::Sampling { api, latency_ms, meter } => RunView::Sampling {
                api: api@,
                latency_ms: *latency_ms,
                meter: meter@,
            },
            Run::Rating { api, latency_ms, meter } => RunView::Rating {
                api: api@,
                latency_ms: *latency_ms,
                meter: meter@,
            },
            Run::Averaging { api, latency_ms } => RunView::Averaging {
                api: api@,
                latency_ms: *latency_ms,
            },
            Run::Over => RunView::Over,
        }
    }
}

/// What happened.
#[derive(Debug)]
pub enum Event {
    /// The client was made.
    ClientReady,
    /// The text that was asked for has come.
    Loaded(String),
    /// The server list has answered.
    Served(ApiResponse),
    /// A latency probe was answered, after so many milliseconds.
    Probed(Binary64),
    /// The download has ticked: the moment, in nanoseconds, and the bytes so far.
    Ticked { now: u128, total: u64 },
    /// The speed was worked out when the download had been running for so many nanoseconds. Where
    /// there was no stretch to work it out over, it counts as zero, whatever it is given as.
    Rated { elapsed: u128, speed: Binary64 },
    /// The mean speed was worked out, and so many bytes had come in by then.
    Averaged { speed: Binary64, total: u64 },
    /// What was asked for did not succeed, for this reason.
    Broken(String),
}

/// What happened, by the characters of its texts.
pub enum EventView {
    ClientReady,
    Loaded(Seq<char>),
    Served(ApiView),
    Probed(Binary64),
    Ticked { now: u128, total: u64 },
    Rated { elapsed: u128, speed: Binary64 },
    Averaged { speed: Binary64, total: u64 },
    Broken(Seq<char>),
}

impl View for Event {
    type V = EventView;

    open spec fn view(&self) -> EventView {
        match self {
            Event::ClientReady => EventView::ClientReady,
            Event::Loaded(text) => EventView::Loaded(text@),
            Event::Served(api) => EventView::Served(api@),
            Event::Probed(millis) => EventView::Probed(*millis),
            Event::Ticked { now, total } => EventView::Ticked { now: *now, total: *total },
            Event::Rated { elapsed, speed } => EventView::Rated {
                elapsed: *elapsed,
                speed: *speed,
            },
            Event::Averaged { speed, total } => EventView::Averaged {
                speed: *speed,
                total: *total,
            },
            Event::Broken(reason) => EventView::Broken(reason@),
        }
    }
}

/// What to do next.
#[derive(Debug)]
pub enum Step {
    /// Make the client.
    CreateClient,
    /// Load the page.
    LoadPage,
    /// Load the script at this address.
    LoadScript(String),
    /// Ask for the server list at this address.
    RequestServers(String),
    /// Send a latency probe to this address.
    Probe(String),
    /// Start a worker on each of these addresses, then wait for a tick.
    OpenDownloads(Vec<String>),
    /// Wait for the next tick.
    AwaitTick,
    /// Work out the speed over this stretch; it is zero where there is none.
    Rate(Option<Stretch>),
    /// Stop the workers and work out the mean of these speeds.
    Average(Vec<Binary64>),
    /// Stop whatever is running: the run has broken off for this reason.
    Fail(Fault),
    /// Stop whatever is running: the run is at its end.
    Finish,
    /// Go on waiting: nothing has changed.
    Wait,
}

/// What to do next, by the characters of its texts.
pub enum StepView {
    CreateClient,
    LoadPage,
    LoadScript(Seq<char>),
    RequestServers(Seq<char>),
    Probe(Seq<char>),
    OpenDownloads(Seq<Seq<char>>),
    AwaitTick,
    Rate(Option<Stretch>),
    Average(Seq<Binary64>),
    Fail(Fault),
    Finish,
    Wait,
}

impl View for Step {
    type V = StepView;

    open spec fn view(&self) -> StepView {
        match self {
            Step::CreateClient => StepView::CreateClient,
            Step::LoadPage => StepView::LoadPage,
            Step::LoadScript(url) => StepView::LoadScript(url@),
            Step::RequestServers(url) => StepView::RequestServers(url@),
            Step::Probe(url) => StepView::Probe(url@),
            Step::OpenDownloads(urls) => StepView::OpenDownloads(
                urls@.map_values(|u: String| u@),
            ),
            Step::AwaitTick => StepView::AwaitTick,
            Step::Rate(stretch) => StepView::Rate(*stretch),
            Step::Average(speeds) => StepView::Average(speeds@),
            Step::Fail(fault) => StepView::Fail(*fault),
            Step::Finish => StepView::Finish,
            Step::Wait => StepView::Wait,
        }
    }
}

/// How a step can go wrong outside.
#[derive(Clone, Copy, Debug, PartialEq, Eq, Structural)]
pub enum Trouble {
    /// It could not be done, or nobody answered.
    Unanswered,
    /// The answer had an error status.
    Refused,
    /// The answer could not be read.
    Unreadable,
}

impl StepView {
    /// What is to be said of such trouble with this step, in front of what the outside says; for
    /// the rest what the outside says stands alone.
    pub open spec fn fault_with(self, trouble: Trouble) -> Option<Fault> {
        match (self, trouble) {
            (StepView::CreateClient, Trouble::Unanswered) => Some(Fault::NoClient),
            (StepView::RequestServers(_), Trouble::Unanswered) => Some(Fault::Unreachable),
            (StepView::RequestServers(_), Trouble::Refused) => Some(Fault::Rejected),
            (StepView::RequestServers(_), Trouble::Unreadable) => Some(Fault::Unexpected),
            (StepView::Probe(_), Trouble::Unanswered) => Some(Fault::ProbeUnanswered),
            (StepView::Probe(_), Trouble::Refused) => Some(Fault::ProbeRejected),
            _ => None,
        }
    }
}

impl Step {
    /// What is to be said of such trouble with this step, in front of what the outside says; for
    /// the rest what the outside says stands alone.
    pub fn fault_with(&self, trouble: Trouble) -> (r: Option<Fault>)
        ensures
            r == self@.fault_with(trouble),
    {
        match (self, trouble) {
            (Step::CreateClient, Trouble::Unanswered) => Some(Fault::NoClient),
            (Step::RequestServers(_), Trouble::Unanswered) => Some(Fault::Unreachable),
            (Step::RequestServers(_), Trouble::Refused) => Some(Fault::Rejected),
            (Step::RequestServers(_), Trouble::Unreadable) => Some(Fault::Unexpected),
            (Step::Probe(_), Trouble::Unanswered) => Some(Fault::ProbeUnanswered),
            (Step::Probe(_), Trouble::Refused) => Some(Fault::ProbeRejected),
            _ => None,
        }
    }
}

/// The answer of a run to what happened.
#[derive(Debug)]
pub struct Reply {
    /// How far the run has come now.
    pub run: Run,
    /// The updates to send, in this order.
    pub updates: Vec<Update>,
    /// What to do next.
    pub step: Step,
}

/// The answer of a run to what happened.
#[verifier::ext_equal]
pub struct ReplyView {
    pub run: RunView,
    pub updates: Seq<UpdateView>,
    pub step: StepView,
}

impl View for Reply {
    type V = ReplyView;

    open spec fn view(&self) -> ReplyView {
        ReplyView {
            run: self.run@,
            updates: self.updates@.map_values(|u: Update| u@),
            step: self.step@,
        }
    }
}

impl ReplyView {
    /// Whether the run has broken off with this answer.
    pub open spec fn failed(self) -> bool {
        self.updates.len() > 0 && self.updates.last() is Failed
    }
}

impl Reply {
    /// Whether the run has broken off with this answer.
    pub fn failed(&self) -> (r: bool)
        ensures
            r == self@.failed(),
            r == (self@.updates.len() > 0 && self@.updates.last() is Failed),
    {
        let n: usize = self.updates.len();
        if n == 0 {
            return false;
        }
        proof {
            assert(self@.updates.last() == self.updates@[n - 1]@);
        }
        match &self.updates[n - 1] {
            Update::Failed(_) => true,
            _ => false,
        }
    }
}

impl RunView {
    /// From the server list on there is a server; the probes and counts so far are in order.
    pub open spec fn wf(self) -> bool {
        match self {
            RunView::Latency { api, probe } => api.targets.len() > 0 && probe.wf(),
            RunView::Sampling { api, latency_ms, meter } => api.targets.len() > 0 && meter.wf(),
            RunView::Rating { api, latency_ms, meter } => api.targets.len() > 0 && meter.wf(),
            RunView::Averaging { api, latency_ms } => api.targets.len() > 0,
            _ => true,
        }
    }

    /// Whether the event is one that can happen: the count of bytes never falls.
    pub open spec fn admits(self, event: EventView) -> bool {
        match (self, event) {
            (
                RunView::Sampling { api, latency_ms, meter },
                EventView::Ticked { now, total },
            ) => meter.latest() <= total,
            _ => true,
        }
    }
}

/// Ask for the server list, with the token that was found or else with the one for that case.
pub open spec fn asking_servers(token: Option<Seq<char>>) -> ReplyView {
    ReplyView {
        run: RunView::Servers,
        updates: Seq::empty(),
        step: StepView::RequestServers(
            targets_address(
                match token {
                    Some(token) => token,
                    None => FALLBACK_TOKEN@,
                },
            ),
        ),
    }
}

/// The run breaks off by its own decision.
pub open spec fn failing(updates: Seq<UpdateView>, fault: Fault) -> ReplyView {
    ReplyView {
        run: RunView::Over,
        updates: updates.push(UpdateView::Failed(fault.text())),
        step: StepView::Fail(fault),
    }
}

/// The addresses that the workers load from, one for each.
pub open spec fn worker_addresses(api: ApiView) -> Seq<Seq<char>> {
    Seq::new(WORKERS as nat, |w: int| worker_address(api.targets, w))
}

/// The answer of a run in state `run` to `event`.
pub open spec fn answer(run: RunView, event: EventView) -> ReplyView {
    match (run, event) {
        (RunView::Client, EventView::ClientReady) => ReplyView {
            run: RunView::Page,
            updates: seq![UpdateView::Phase(PHASE_FINDING@)],
            step: StepView::LoadPage,
        },
        (RunView::Page, EventView::Loaded(page)) => match script_address(page) {
            Ok(url) => ReplyView {
                run: RunView::Script,
                updates: Seq::empty(),
                step: StepView::LoadScript(url),
            },
            Err(_) => asking_servers(None),
        },
        (RunView::Page, EventView::Broken(_)) => asking_servers(None),
        (RunView::Script, EventView::Loaded(script)) => match token_or_fault(script) {
            Ok(token) => asking_servers(Some(token)),
            Err(_) => asking_servers(None),
        },
        (RunView::Script, EventView::Broken(_)) => asking_servers(None),
        (RunView::Servers, EventView::Served(api)) => if api.targets.len() == 0 {
            failing(Seq::empty(), Fault::NoServers)
        } else {
            ReplyView {
                run: RunView::Latency { api, probe: ProbeView::start() },
                updates: seq![UpdateView::Phase(PHASE_LATENCY@)],
                step: StepView::Probe(api.targets[0].url),
            }
        },
        (RunView::Latency { api, probe }, EventView::Probed(millis)) => match probe.answered(
            millis,
        ).outcome() {
            None => ReplyView {
                run: RunView::Latency { api, probe: probe.answered(millis) },
                updates: Seq::empty(),
                step: StepView::Probe(api.targets[0].url),
            },
            Some(latency_ms) => ReplyView {
                run: RunView::Sampling { api, latency_ms, meter: MeterView::start() },
                updates: seq![UpdateView::Phase(PHASE_DOWNLOAD@)],
                step: StepView::OpenDownloads(worker_addresses(api)),
            },
        },
        (RunView::Sampling { api, latency_ms, meter }, EventView::Ticked { now, total }) => {
            let meter = meter.observed(now, total);
            ReplyView {
                run: RunView::Rating { api, latency_ms, meter },
                updates: Seq::empty(),
                step: StepView::Rate(stretch_of(meter.window, now, total)),
            }
        },
        (RunView::Rating { api, latency_ms, meter }, EventView::Rated { elapsed, speed }) => {
            let speed = meter.rated(speed);
            let meter = meter.recorded(elapsed, speed);
            let updates = seq![UpdateView::Sample(Sample { speed_mbps: speed, elapsed })];
            if elapsed < TEST_DURATION {
                ReplyView {
                    run: RunView::Sampling { api, latency_ms, meter },
                    updates,
                    step: StepView::AwaitTick,
                }
            } else if meter.stable.len() == 0 {
                failing(updates, Fault::NoData)
            } else {
                ReplyView {
                    run: RunView::Averaging { api, latency_ms },
                    updates,
                    step: StepView::Average(kept(meter.stable)),
                }
            }
        },
        (RunView::Averaging { api, latency_ms }, EventView::Averaged { speed, total }) => ReplyView {
            run: RunView::Over,
            updates: seq![
                UpdateView::Finished(
                    ResultView {
                        speed_mbps: speed,
                        latency_ms,
                        bytes: total,
                        server: api.targets[0].location.label(),
                        client: api.client.label(),
                    },
                ),
            ],
            step: StepView::Finish,
        },
        (RunView::Over, _) => ReplyView { run, updates: Seq::empty(), step: StepView::Wait },
        (_, EventView::Broken(reason)) => ReplyView {
            run: RunView::Over,
            updates: seq![UpdateView::Failed(reason)],
            step: StepView::Finish,
        },
        _ => ReplyView { run, updates: Seq::empty(), step: StepView::Wait },
    }
}

fn no_updates() -> (r: Vec<Update>)
    ensures
        r@.map_values(|u: Update| u@) == Seq::<UpdateView>::empty(),
{
    let r: Vec<Update> = Vec::new();
    proof {
        assert(r@.map_values(|u: Update| u@) =~= Seq::<UpdateView>::empty());
    }
    r
}

fn one_update(update: Update) -> (r: Vec<Update>)
    ensures
        r@.map_values(|u: Update| u@) == seq![update@],
{
    let mut r: Vec<Update> = Vec::new();
    r.push(update);
    proof {
        assert(r@.map_values(|u: Update| u@) =~= seq![update@]);
    }
    r
}

fn ask_servers(token: Option<String>) -> (r: Reply)
    ensures
        r@ == asking_servers(
            match token {
                Some(token) => Some(token@),
                None => None,
            },
        ),
{
    let url = match token {
        Some(token) => targets_url(token.as_str()),
        None => targets_url(FALLBACK_TOKEN),
    };
    Reply { run: Run::Servers, updates: no_updates(), step: Step::RequestServers(url) }
}

fn fail(updates: Vec<Update>, fault: Fault) -> (r: Reply)
    ensures
        r@ == failing(updates@.map_values(|u: Update| u@), fault),
{
    let mut all = updates;
    all.push(Update::Failed(fault.message().to_owned()));
    proof {
        assert(all@.map_values(|u: Update| u@) =~= updates@.map_values(|u: Update| u@).push(
            UpdateView::Failed(fault.text()),
        ));
    }
    Reply { run: Run::Over, updates: all, step: Step::Fail(fault) }
}

impl Run {
    /// A new run, and what it asks for first.
    pub fn begin() -> (r: Reply)
        ensures
            r@ == (ReplyView {
                run: RunView::Client,
                updates: Seq::empty(),
                step: StepView::CreateClient,
            }),
            r.run@.wf(),
    {
        Reply { run: Run::Client, updates: no_updates(), step: Step::CreateClient }
    }

    /// The count of bytes that the next tick must not fall below.
    pub fn latest_total(&self) -> (r: u64)
        ensures
            forall|now: u128, total: u64|
                total >= r ==> #[trigger] self@.admits(EventView::Ticked { now, total }),
            self@ matches RunView::Sampling { api, latency_ms, meter } ==> r == meter.latest(),
            !(self@ is Sampling) ==> r == 0,
    {
        match self {
            Run::Sampling { api, latency_ms, meter } => meter.latest(),
            _ => 0,
        }
    }

    /// Takes what happened. An event that the run does not wait for leaves it as it is; where the
    /// page or the script cannot be had, it goes on with the token for that case; where anything
    /// else cannot be had, it breaks off.
    pub fn advance(self, event: Event) -> (r: Reply)
        requires
            self@.wf(),
            self@.admits(event@),
        ensures
            r@ == answer(self@, event@),
            r.run@.wf(),
    {
        match (self, event) {
            (Run::Client, Event::ClientReady) => Reply {
                run: Run::Page,
                updates: one_update(Update::Phase(PHASE_FINDING)),
                step: Step::LoadPage,
            },
            (Run::Page, Event::Loaded(page)) => match find_script(page.as_str()) {
                Ok(url) => Reply {
                    run: Run::Script,
                    updates: no_updates(),
                    step: Step::LoadScript(url),
                },
                Err(_) => ask_servers(None),
            },
            (Run::Page, Event::Broken(_)) => ask_servers(None),
            (Run::Script, Event::Loaded(script)) => match find_token(script.as_str()) {
                Ok(token) => ask_servers(Some(token)),
                Err(_) => ask_servers(None),
            },
            (Run::Script, Event::Broken(_)) => ask_servers(None),
            (Run::Servers, Event::Served(api)) => {
                if api.targets.len() == 0 {
                    fail(no_updates(), Fault::NoServers)
                } else {
                    let url = api.targets[0].url.clone();
                    Reply {
                        run: Run::Latency { api, probe: LatencyProbe::start() },
                        updates: one_update(Update::Phase(PHASE_LATENCY)),
                        step: Step::Probe(url),
                    }
                }
            },
            (Run::Latency { api, probe }, Event::Probed(millis)) => {
                let (probe, outcome) = probe.answered(millis);
                match outcome {
                    None => {
                        let url = api.targets[0].url.clone();
                        Reply {
                            run: Run::Latency { api, probe },
                            updates: no_updates(),
                            step: Step::Probe(url),
                        }
                    },
                    Some(latency_ms) => {
                        let urls = worker_urls(&api.targets);
                        proof {
                            assert(urls@.map_values(|u: String| u@) =~= worker_addresses(api@));
                        }
                        Reply {
                            run: Run::Sampling { api, latency_ms, meter: Meter::start() },
                            updates: one_update(Update::Phase(PHASE_DOWNLOAD)),
                            step: Step::OpenDownloads(urls),
                        }
                    },
                }
            },
            (Run::Sampling { api, latency_ms, meter }, Event::Ticked { now, total }) => {
                let mut meter = meter;
                let stretch = meter.observe(now, total);
                Reply {
                    run: Run::Rating { api, latency_ms, meter },
                    updates: no_updates(),
                    step: Step::Rate(stretch),
                }
            },
            (Run::Rating { api, latency_ms, meter }, Event::Rated { elapsed, speed }) => {
                let mut meter = meter;
                let speed = meter.rate(speed);
                let done = meter.record(elapsed, speed);
                let updates = one_update(Update::Sample(Sample { speed_mbps: speed, elapsed }));
                if !done {
                    Reply {
                        run: Run::Sampling { api, latency_ms, meter },
                        updates,
                        step: Step::AwaitTick,
                    }
                } else {
                    match meter.finish() {
                        None => fail(updates, Fault::NoData),
                        Some(speeds) => Reply {
                            run: Run::Averaging { api, latency_ms },
                            updates,
                            step: Step::Average(speeds),
                        },
                    }
                }
            },
            (Run::Averaging { api, latency_ms }, Event::Averaged { speed, total }) => {
                let result = TestResult {
                    speed_mbps: speed,
                    latency_ms,
                    bytes: total,
                    server: api.targets[0].location.label(),
                    client: api.client.label(),
                };
                Reply {
                    run: Run::Over,
                    updates: one_update(Update::Finished(result)),
                    step: Step::Finish,
                }
            },
            (Run::Over, _) => Reply { run: Run::Over, updates: no_updates(), step: Step::Wait },
            (_, Event::Broken(reason)) => Reply {
                run: Run::Over,
                updates: one_update(Update::Failed(reason)),
                step: Step::Finish,
            },
            (run, _) => Reply { run, updates: no_updates(), step: Step::Wait },
        }
    }
}

/// Where a new run is and what it has sent after `events`, in this order.
pub open spec fn story(events: Seq<EventView>) -> (RunView, Seq<UpdateView>)
    decreases events.len(),
{
    if events.len() == 0 {
        (RunView::Client, Seq::empty())
    } else {
        let (run, sent) = story(events.drop_last());
        let reply = answer(run, events.last());
        (reply.run, sent + reply.updates)
    }
}

/// The phases, in their order.
pub open spec fn phases() -> Seq<UpdateView> {
    seq![
        UpdateView::Phase(PHASE_FINDING@),
        UpdateView::Phase(PHASE_LATENCY@),
        UpdateView::Phase(PHASE_DOWNLOAD@),
    ]
}

/// How many phases a run in that state has begun, if it is not over.
pub open spec fn phases_begun(run: RunView) -> int {
    match run {
        RunView::Client => 0,
        RunView::Page | RunView::Script | RunView::Servers => 1,
        RunView::Latency { .. } => 2,
        _ => 3,
    }
}

/// Whether `update` is a reading that was taken before the time was up.
pub open spec fn is_early_sample(update: UpdateView) -> bool {
    update matches UpdateView::Sample(sample) && sample.elapsed < TEST_DURATION
}

/// Whether `update` is a reading that was taken when the time was up.
pub open spec fn is_final_sample(update: UpdateView) -> bool {
    update matches UpdateView::Sample(sample) && sample.elapsed >= TEST_DURATION
}

/// The phases in their order, then readings, all but perhaps the last of them early.
pub open spec fn is_progress(sent: Seq<UpdateView>) -> bool {
    &&& forall|i: int| 0 <= i < sent.len() && i < 3 ==> #[trigger] sent[i] == phases()[i]
    &&& forall|i: int| 3 <= i < sent.len() ==> #[trigger] sent[i] is Sample
    &&& forall|i: int| 3 <= i < sent.len() - 1 ==> is_early_sample(#[trigger] sent[i])
}

/// What a run in that state has sent.
pub open spec fn has_sent(run: RunView, sent: Seq<UpdateView>) -> bool {
    match run {
        RunView::Over => {
            &&& sent.len() > 0
            &&& sent.last().is_last()
            &&& is_progress(sent.drop_last())
            &&& sent.last() is Finished ==> sent.len() >= 5 && is_final_sample(sent[sent.len() - 2])
        },
        RunView::Averaging { .. } => is_progress(sent) && sent.len() >= 4 && is_final_sample(
            sent.last(),
        ),
        _ => {
            let begun = phases_begun(run);
            &&& is_progress(sent)
            &&& sent.len() >= begun
            &&& sent.len() > begun ==> begun == 3 && is_early_sample(sent.last())
        },
    }
}

proof fn lemma_answer_keeps_order(run: RunView, sent: Seq<UpdateView>, event: EventView)
    requires
        has_sent(run, sent),
    ensures
        has_sent(answer(run, event).run, sent + answer(run, event).updates),
{
    let reply = answer(run, event);
    let all = sent + reply.updates;
    if reply.updates.len() == 0 {
        assert(all =~= sent);
    } else if reply.updates.len() == 1 {
        assert(all.drop_last() =~= sent);
    } else {
        assert(all.drop_last() =~= sent.push(reply.updates[0]));
    }
}

proof fn lemma_story_in_order(events: Seq<EventView>)
    ensures
        has_sent(story(events).0, story(events).1),
    decreases events.len(),
{
    if events.len() > 0 {
        let (run, sent) = story(events.drop_last());
        lemma_story_in_order(events.drop_last());
        lemma_answer_keeps_order(run, sent, events.last());
    }
}

/// Whatever happens to a run, its updates come in this order: the phases, each once; then
/// readings, of which only the last can have been taken when the time was up; then at most one
/// result or failure, and nothing behind it. It ends with a result only behind a reading that was
/// taken when the time was up.
pub proof fn lemma_updates_in_order(events: Seq<EventView>)
    ensures
        ({
            let (run, sent) = story(events);
            let n = sent.len() as int;
            &&& forall|i: int| 0 <= i < n - 1 ==> !(#[trigger] sent[i]).is_last()
            &&& forall|i: int|
                0 <= i < n && i < 3 && !sent[i].is_last() ==> #[trigger] sent[i] == phases()[i]
            &&& forall|i: int| 3 <= i < n && !sent[i].is_last() ==> #[trigger] sent[i] is Sample
            &&& forall|i: int, j: int|
                3 <= i < j < n && sent[j] is Sample ==> is_early_sample(#[trigger] sent[i])
                    && #[trigger] sent[j] is Sample
            &&& n > 0 && sent[n - 1] is Finished ==> n >= 5 && is_final_sample(sent[n - 2])
            &&& run is Over <==> n > 0 && sent[n - 1].is_last()
        }),
{
    lemma_story_in_order(events);
    let (run, sent) = story(events);
    if run is Over {
        let early = sent.drop_last();
        assert forall|i: int| 0 <= i < sent.len() - 1 implies #[trigger] sent[i] == early[i] by {}
    }
}

/// A run that is at its end stays there and sends nothing more.
pub proof fn lemma_over_stays_over(event: EventView)
    ensures
        answer(RunView::Over, event).run is Over,
        answer(RunView::Over, event).updates.len() == 0,
{
}

/// A run that comes to its end has either broken off or sent its result; one that goes on has done
/// neither. Breaking off by its own decision is breaking off too.
pub proof fn lemma_ends_with_result_or_failure(run: RunView, event: EventView)
    requires
        !(run is Over),
    ensures
        ({
            let reply = answer(run, event);
            let finished = reply.updates.len() > 0 && reply.updates.last() is Finished;
            &&& reply.run is Over <==> reply.failed() || finished
            &&& reply.run is Over <==> reply.step is Finish || reply.step is Fail
            &&& reply.step is Fail ==> reply.failed()
        }),
{
}

/// What cannot be had ends a run with that reason, except where only the token is looked for:
/// then the run goes on with the token for that case.
pub proof fn lemma_broken(run: RunView, reason: Seq<char>)
    requires
        !(run is Over),
    ensures
        run is Page || run is Script ==> answer(run, EventView::Broken(reason)) == asking_servers(
            None,
        ),
        !(run is Page || run is Script) ==> answer(run, EventView::Broken(reason)).run is Over
            && answer(run, EventView::Broken(reason)).updates == seq![UpdateView::Failed(reason)],
{
}

/// What the server list has answered, if it has.
pub open spec fn api_of(run: RunView) -> Option<ApiView> {
    match run {
        RunView::Latency { api, probe } => Some(api),
        RunView::Sampling { api, latency_ms, meter } => Some(api),
        RunView::Rating { api, latency_ms, meter } => Some(api),
        RunView::Averaging { api, latency_ms } => Some(api),
        _ => None,
    }
}

/// The latency, once it has been measured.
pub open spec fn latency_of(run: RunView) -> Option<u64> {
    match run {
        RunView::Sampling { api, latency_ms, meter } => Some(latency_ms),
        RunView::Rating { api, latency_ms, meter } => Some(latency_ms),
        RunView::Averaging { api, latency_ms } => Some(latency_ms),
        _ => None,
    }
}

/// What a run has learned it keeps until its end: the answer of the server list, the latency, and
/// with them the servers' and the client's places in the result.
pub proof fn lemma_facts_are_kept(run: RunView, event: EventView)
    ensures
        ({
            let reply = answer(run, event);
            &&& api_of(run) is Some && !(reply.run is Over) ==> api_of(reply.run) == api_of(run)
            &&& latency_of(run) is Some && !(reply.run is Over) ==> latency_of(reply.run)
                == latency_of(run)
            &&& forall|i: int|
                0 <= i < reply.updates.len() ==> (#[trigger] reply.updates[i] matches
                UpdateView::Finished(result) ==> {
                    &&& api_of(run) matches Some(api) && result.server
                        == api.targets[0].location.label() && result.client == api.client.label()
                    &&& latency_of(run) == Some(result.latency_ms)
                })
        }),
{
}

/// Looking for the token: a page that names no script is not followed by a second request, one
/// that does is followed by the request for that script, and the token of the script is used
/// exactly where it holds one.
pub proof fn lemma_discovery(page: Seq<char>, script: Seq<char>)
    ensures
        script_address(page) == Err::<Seq<char>, Fault>(Fault::NoScript) || script_address(
            page,
        ) is Ok,
        script_address(page) is Err ==> answer(RunView::Page, EventView::Loaded(page))
            == asking_servers(None),
        script_address(page) matches Ok(url) ==> answer(
            RunView::Page,
            EventView::Loaded(page),
        ).step == StepView::LoadScript(url) && answer(
            RunView::Page,
            EventView::Loaded(page),
        ).run is Script,
        token_or_fault(script) == Err::<Seq<char>, Fault>(Fault::NoToken) || token_or_fault(
            script,
        ) is Ok,
        token_or_fault(script) is Err ==> answer(RunView::Script, EventView::Loaded(script))
            == asking_servers(None),
        token_or_fault(script) matches Ok(token) ==> answer(
            RunView::Script,
            EventView::Loaded(script),
        ) == asking_servers(Some(token)),
{
}

/// Whether a reading counts: it was taken two seconds into the download or later, and its bits are
/// those of a number above zero.
pub open spec fn is_counted(sample: Sample) -> bool {
    sample.elapsed >= 2_000_000_000 && 0 < sample.speed_mbps.bits <= 0x7ff0_0000_0000_0000
}

/// The speeds of the readings among `sent` that count: those from the end of the warm-up on that
/// are above zero.
pub open spec fn counted(sent: Seq<UpdateView>) -> Seq<Binary64>
    decreases sent.len(),
{
    if sent.len() == 0 {
        Seq::empty()
    } else {
        let before = counted(sent.drop_last());
        match sent.last() {
            UpdateView::Sample(sample) => if is_counted(sample) {
                before.push(sample.speed_mbps)
            } else {
                before
            },
            _ => before,
        }
    }
}

/// What a run in that state has noted of the readings among `sent`.
spec fn has_noted(run: RunView, sent: Seq<UpdateView>) -> bool {
    match run {
        RunView::Sampling { api, latency_ms, meter } => meter.stable == counted(sent),
        RunView::Rating { api, latency_ms, meter } => meter.stable == counted(sent),
        RunView::Averaging { .. } => true,
        RunView::Over => true,
        _ => counted(sent).len() == 0,
    }
}

proof fn lemma_counted_grows(sent: Seq<UpdateView>, update: UpdateView)
    ensures
        counted(sent + seq![update]) == match update {
            UpdateView::Sample(sample) => if is_counted(sample) {
                counted(sent).push(sample.speed_mbps)
            } else {
                counted(sent)
            },
            _ => counted(sent),
        },
{
    assert((sent + seq![update]).drop_last() =~= sent);
}

proof fn lemma_answer_notes(run: RunView, sent: Seq<UpdateView>, event: EventView)
    requires
        has_noted(run, sent),
    ensures
        has_noted(answer(run, event).run, sent + answer(run, event).updates),
        answer(run, event).step matches StepView::Average(speeds) ==> speeds == kept(
            counted(sent + answer(run, event).updates),
        ) && counted(sent + answer(run, event).updates).len() > 0,
        answer(run, event).step == StepView::Fail(Fault::NoData) ==> counted(
            sent + answer(run, event).updates,
        ).len() == 0,
{
    let reply = answer(run, event);
    let n = reply.updates.len();
    if let (
        RunView::Rating { api, latency_ms, meter },
        EventView::Rated { elapsed, speed },
    ) = (run, event) {
        lemma_recorded(meter, elapsed, meter.rated(speed));
    }
    if n == 0 {
        assert(sent + reply.updates =~= sent);
    } else if n == 1 {
        assert(reply.updates =~= seq![reply.updates[0]]);
        lemma_counted_grows(sent, reply.updates[0]);
        if run is Latency {
            assert(counted(sent) =~= Seq::empty());
        }
    } else {
        assert(sent + reply.updates =~= (sent + seq![reply.updates[0]]) + seq![reply.updates[1]]);
        lemma_counted_grows(sent, reply.updates[0]);
        lemma_counted_grows(sent + seq![reply.updates[0]], reply.updates[1]);
    }
}

proof fn lemma_story_noted(events: Seq<EventView>)
    ensures
        has_noted(story(events).0, story(events).1),
    decreases events.len(),
{
    if events.len() > 0 {
        let (run, sent) = story(events.drop_last());
        lemma_story_noted(events.drop_last());
        lemma_answer_notes(run, sent, events.last());
    }
}

/// Whatever happened to a run before, the speeds that it averages are those of the readings it has
/// sent that count, without the tenth at either end; and it breaks off for want of data only where
/// no reading that it has sent counts.
pub proof fn lemma_average_is_of_what_was_sent(events: Seq<EventView>, event: EventView)
    ensures
        ({
            let reply = answer(story(events).0, event);
            let sent = story(events.push(event)).1;
            &&& reply.step matches StepView::Average(speeds) ==> speeds == kept(counted(sent))
                && counted(sent).len() > 0
            &&& reply.step == StepView::Fail(Fault::NoData) ==> counted(sent).len() == 0
        }),
{
    let (run, sent) = story(events);
    lemma_story_noted(events);
    lemma_answer_notes(run, sent, event);
    assert(events.push(event).drop_last() =~= events);
}

/// The counts that a new run has taken after `events`, each with its moment.
pub open spec fn counts_taken(events: Seq<EventView>) -> Seq<(u128, u64)>
    decreases events.len(),
{
    if events.len() == 0 {
        Seq::empty()
    } else {
        let before = counts_taken(events.drop_last());
        match (story(events.drop_last()).0, events.last()) {
            (RunView::Sampling { .. }, EventView::Ticked { now, total }) => before.push(
                (now, total),
            ),
            _ => before,
        }
    }
}

/// Whether the last count that a run takes, with its average, is not below any count before it.
pub open spec fn last_counts_hold(events: Seq<EventView>) -> bool {
    forall|k: int, j: int|
        0 <= k < events.len() && story(events.take(k)).0 is Averaging && 0 <= j < counts_taken(
            events.take(k),
        ).len() ==> (
        #[trigger] events[k] matches EventView::Averaged { speed, total } ==> (
        #[trigger] counts_taken(events.take(k))[j]).1 <= total)
}

/// Whatever happens to a run, as long as the count of bytes has not fallen when it is read for the
/// last time, the bytes of the result are not below any count that the run has taken.
pub proof fn lemma_bytes_cover_every_count(events: Seq<EventView>)
    requires
        last_counts_hold(events),
    ensures
        forall|i: int, j: int|
            0 <= i < story(events).1.len() && 0 <= j < counts_taken(events).len() ==> (
            #[trigger] story(events).1[i] matches UpdateView::Finished(result) ==> (
            #[trigger] counts_taken(events)[j]).1 <= result.bytes),
    decreases events.len(),
{
    if events.len() > 0 {
        let n = events.len() - 1;
        let rest = events.drop_last();
        let (run, sent) = story(rest);
        let reply = answer(run, events.last());
        let counts = counts_taken(events);
        assert(rest =~= events.take(n));
        assert(last_counts_hold(rest)) by {
            assert forall|k: int, j: int|
                0 <= k < rest.len() && story(rest.take(k)).0 is Averaging && 0 <= j < counts_taken(
                    rest.take(k),
                ).len() implies (
            #[trigger] rest[k] matches EventView::Averaged { speed, total } ==> (
            #[trigger] counts_taken(rest.take(k))[j]).1 <= total) by {
                assert(rest.take(k) =~= events.take(k));
                assert(rest[k] == events[k]);
            }
        }
        lemma_bytes_cover_every_count(rest);
        lemma_story_in_order(rest);
        assert forall|i: int, j: int|
            0 <= i < story(events).1.len() && 0 <= j < counts.len() implies (
        #[trigger] story(events).1[i] matches UpdateView::Finished(result) ==> (
        #[trigger] counts[j]).1 <= result.bytes) by {
            if i < sent.len() {
                assert(story(events).1[i] == sent[i]);
                if run is Sampling {
                    assert(!(sent[i] is Finished));
                } else {
                    assert(counts == counts_taken(rest));
                }
            } else {
                assert(story(events).1[i] == reply.updates[i - sent.len()]);
                if run is Averaging {
                    assert(counts == counts_taken(events.take(n)));
                    assert(events[n] == events.last());
                }
            }
        }
    }
}

/// Whether no count was taken before the one in front of it.
pub open spec fn in_time(counts: Seq<(u128, u64)>) -> bool {
    forall|i: int, j: int| 0 <= i < j < counts.len() ==> counts[i].0 <= counts[j].0
}

/// Whether `window` holds the latest of `counts`: from the count before the last on, or from the
/// earliest count of the last second on where that is earlier.
pub open spec fn is_window_of(window: Seq<(u128, u64)>, counts: Seq<(u128, u64)>) -> bool {
    &&& window.is_suffix_of(counts)
    &&& counts.len() > 0 ==> window.len() > 0
    &&& counts.len() >= 2 ==> window.len() >= 2
    &&& window.len() > 2 ==> since(window[0].0, counts.last().0) <= SECOND
    &&& forall|i: int|
        0 <= i < counts.len() - window.len() ==> since(
            (#[trigger] counts[i]).0,
            counts.last().0,
        ) > SECOND
}

/// The window that a run in that state holds, if it holds one.
pub open spec fn window_of(run: RunView) -> Option<Seq<(u128, u64)>> {
    match run {
        RunView::Sampling { api, latency_ms, meter } => Some(meter.window),
        RunView::Rating { api, latency_ms, meter } => Some(meter.window),
        _ => None,
    }
}

proof fn lemma_window_grows(window: Seq<(u128, u64)>, counts: Seq<(u128, u64)>, now: u128, total: u64)
    requires
        is_window_of(window, counts),
        in_time(counts.push((now, total))),
    ensures
        is_window_of(trimmed(window.push((now, total)), now), counts.push((now, total))),
{
    let wider = window.push((now, total));
    let all = counts.push((now, total));
    let next = trimmed(wider, now);
    lemma_window(wider, now);
    let shift = counts.len() - window.len();
    assert(wider =~= all.subrange(shift, all.len() as int)) by {
        assert(window =~= counts.subrange(shift, counts.len() as int));
        assert forall|i: int| 0 <= i < window.len() implies window[i] == counts[i + shift] by {
            assert(window[i] == counts.subrange(shift, counts.len() as int)[i]);
        }
    }
    assert(next =~= wider.subrange(wider.len() - next.len(), wider.len() as int));
    assert(next =~= all.subrange(all.len() - next.len(), all.len() as int));
    assert forall|i: int| 0 <= i < all.len() - next.len() implies since(
        (#[trigger] all[i]).0,
        all.last().0,
    ) > SECOND by {
        if i < shift {
            assert(all[i] == counts[i]);
            assert(all[counts.len() - 1].0 <= all[counts.len() as int].0);
        } else {
            assert(all[i] == wider[i - shift]);
        }
    }
}

/// Whatever happens to a run, as long as its clock does not go back, the window that it reads the
/// speed off begins at the count before the last, or at the earliest count of the last second
/// where that is earlier.
pub proof fn lemma_window_over_a_run(events: Seq<EventView>)
    requires
        in_time(counts_taken(events)),
    ensures
        window_of(story(events).0) matches Some(window) ==> is_window_of(
            window,
            counts_taken(events),
        ),
        phases_begun(story(events).0) < 3 ==> counts_taken(events).len() == 0,
    decreases events.len(),
{
    if events.len() > 0 {
        let rest = events.drop_last();
        let before = counts_taken(rest);
        let run = story(rest).0;
        let counts = counts_taken(events);
        assert(in_time(before)) by {
            assert forall|i: int, j: int| 0 <= i < j < before.len() implies before[i].0
                <= before[j].0 by {
                assert(counts[i] == before[i] && counts[j] == before[j]);
            }
        }
        lemma_window_over_a_run(rest);
        if let (
            RunView::Sampling { api, latency_ms, meter },
            EventView::Ticked { now, total },
        ) = (run, events.last()) {
            lemma_window_grows(meter.window, before, now, total);
        } else if run is Latency {
            assert(Seq::<(u128, u64)>::empty().is_suffix_of(before));
        }
    }
}

/// Every request for the server list carries a token that has the shape of one.
pub proof fn lemma_requests_carry_tokens(run: RunView, event: EventView)
    ensures
        answer(run, event).step matches StepView::RequestServers(url) ==> exists|token: Seq<char>| #[trigger]
            is_token(token) && url == targets_address(token),
{
    lemma_fallback_has_token_shape();
    if let (RunView::Script, EventView::Loaded(script)) = (run, event) {
        lemma_token_has_its_shape(script);
        if let Some(token) = token_in(script) {
            assert(is_token(token));
        }
    }
}

/// Six downloads run side by side, each from one of the servers that were named, in turn.
pub proof fn lemma_six_downloads(run: RunView, event: EventView)
    requires
        run.wf(),
    ensures
        answer(run, event).step matches StepView::OpenDownloads(urls) ==> {
            &&& urls.len() == 6
            &&& run matches RunView::Latency { api, probe } && forall|w: int|
                0 <= w < 6 ==> #[trigger] urls[w] == api.targets[w % api.targets.len() as int].url
        },
{
}

/// Whether a run in that state waits for such an event.
pub open spec fn waits_for(run: RunView, event: EventView) -> bool {
    match run {
        RunView::Client => event is ClientReady,
        RunView::Page => event is Loaded,
        RunView::Script => event is Loaded,
        RunView::Servers => event is Served,
        RunView::Latency { .. } => event is Probed,
        RunView::Sampling { .. } => event is Ticked,
        RunView::Rating { .. } => event is Rated,
        RunView::Averaging { .. } => event is Averaged,
        RunView::Over => false,
    }
}

/// An event that a run does not wait for changes nothing: the run stays where it is, with all that
/// it has learned, sends nothing and asks for nothing. Only bad news is always heard, until the
/// end.
pub proof fn lemma_unexpected_events(run: RunView, event: EventView)
    requires
        !waits_for(run, event),
        !(event is Broken) || run is Over,
    ensures
        answer(run, event).run == run,
        answer(run, event).updates.len() == 0,
        answer(run, event).step is Wait,
{
}

/// Bad news ends a run with exactly the reason that was given, and with nothing else; only while
/// the page or the script is looked for the run goes on, silently, to the server list.
pub proof fn lemma_bad_news(run: RunView, reason: Seq<char>)
    requires
        !(run is Over),
    ensures
        ({
            let reply = answer(run, EventView::Broken(reason));
            &&& run is Page || run is Script ==> reply.run is Servers && reply.updates.len() == 0
                && reply.step is RequestServers
            &&& !(run is Page || run is Script) ==> reply.run is Over && reply.step is Finish
                && reply.updates.len() == 1 && reply.updates[0] == UpdateView::Failed(reason)
        }),
{
}

/// The address that the server list is asked at with `token`, letter by letter.
pub open spec fn list_address(token: Seq<char>) -> Seq<char> {
    "https://api.fast.com/netflix/speedtest/v2"@ + "?https=true&token="@ + token + "&urlCount=5"@
}

/// From the client to the server list: the page comes first; the script that it names is loaded
/// from the site; the token that the script holds is used, and the fixed one wherever there is
/// none, be it that the page or the script cannot be had, names nothing or holds nothing. Nothing
/// is sent meanwhile but the first phase.
pub proof fn lemma_way_to_the_servers(text: Seq<char>, reason: Seq<char>)
    ensures
        ({
            let ready = answer(RunView::Client, EventView::ClientReady);
            &&& ready.run is Page && ready.step is LoadPage
            &&& ready.updates.len() == 1 && ready.updates[0] == UpdateView::Phase(
                "Finding the nearest Netflix edge"@,
            )
        }),
        ({
            let loaded = answer(RunView::Page, EventView::Loaded(text));
            &&& loaded.updates.len() == 0
            &&& script_path_in(text) matches Some(path) ==> loaded.run is Script && loaded.step
                == StepView::LoadScript("https://fast.com"@ + path)
            &&& script_path_in(text) is None ==> loaded.run is Servers && loaded.step
                == StepView::RequestServers(list_address("YXNkZmFzZGxmbnNkYWZoYXNkZmhrYWxm"@))
        }),
        ({
            let loaded = answer(RunView::Script, EventView::Loaded(text));
            &&& loaded.updates.len() == 0 && loaded.run is Servers
            &&& token_in(text) matches Some(token) ==> loaded.step == StepView::RequestServers(
                list_address(token),
            )
            &&& token_in(text) is None ==> loaded.step == StepView::RequestServers(
                list_address("YXNkZmFzZGxmbnNkYWZoYXNkZmhrYWxm"@),
            )
        }),
        answer(RunView::Page, EventView::Broken(reason)).step == StepView::RequestServers(
            list_address("YXNkZmFzZGxmbnNkYWZoYXNkZmhrYWxm"@),
        ),
        answer(RunView::Script, EventView::Broken(reason)).step == StepView::RequestServers(
            list_address("YXNkZmFzZGxmbnNkYWZoYXNkZmhrYWxm"@),
        ),
{
}

/// A server list without a server ends the run with that reason; one with servers is kept as it
/// is, the first of them is probed, and the second phase begins.
pub proof fn lemma_server_list(api: ApiView)
    ensures
        ({
            let reply = answer(RunView::Servers, EventView::Served(api));
            &&& reply.updates.len() == 1
            &&& api.targets.len() == 0 ==> reply.run is Over && reply.step == StepView::Fail(
                Fault::NoServers,
            ) && reply.updates[0] == UpdateView::Failed("Fast.com returned no test servers"@)
            &&& api.targets.len() > 0 ==> reply.run is Latency && api_of(reply.run) == Some(api)
                && reply.step == StepView::Probe(api.targets[0].url) && reply.updates[0]
                == UpdateView::Phase("Measuring unloaded latency"@)
        }),
{
}

/// The answers to latency probes that a new run has taken after `events`, in milliseconds.
pub open spec fn probes_taken(events: Seq<EventView>) -> Seq<Binary64>
    decreases events.len(),
{
    if events.len() == 0 {
        Seq::empty()
    } else {
        let before = probes_taken(events.drop_last());
        match (story(events.drop_last()).0, events.last()) {
            (RunView::Latency { .. }, EventView::Probed(millis)) => before.push(millis),
            _ => before,
        }
    }
}

/// Whether `middle` lies between the other two, at an end of them or inside.
pub open spec fn lies_between(middle: Binary64, x: Binary64, y: Binary64) -> bool {
    x.rank() <= middle.rank() <= y.rank() || y.rank() <= middle.rank() <= x.rank()
}

/// Whether `millis` is the whole number nearest to the one of the three that lies between the
/// other two.
pub open spec fn is_middle_rounded(millis: u64, b: Binary64, c: Binary64, d: Binary64) -> bool {
    &&& lies_between(b, c, d) ==> millis == b.nearest()
    &&& lies_between(c, b, d) ==> millis == c.nearest()
    &&& lies_between(d, b, c) ==> millis == d.nearest()
}

proof fn lemma_median_rounded(b: Binary64, c: Binary64, d: Binary64)
    ensures
        is_middle_rounded(median(seq![b, c, d]).nearest() as u64, b, c, d),
{
    lemma_median_of_three(b, c, d);
    lemma_nearest(b);
    lemma_nearest(c);
    lemma_nearest(d);
}

/// A server list with a server is followed by four probes, one after the other, all to the first
/// server; after the fourth, and not before, the run holds a latency: the whole number nearest to
/// the one of the last three answers that lies between the other two. Then the downloads begin.
pub proof fn lemma_four_probes(
    api: ApiView,
    a: Binary64,
    b: Binary64,
    c: Binary64,
    d: Binary64,
)
    requires
        api.targets.len() > 0,
    ensures
        ({
            let served = answer(RunView::Servers, EventView::Served(api));
            let first = answer(served.run, EventView::Probed(a));
            let second = answer(first.run, EventView::Probed(b));
            let third = answer(second.run, EventView::Probed(c));
            let fourth = answer(third.run, EventView::Probed(d));
            &&& first.run is Latency && second.run is Latency && third.run is Latency
            &&& first.updates.len() == 0 && second.updates.len() == 0 && third.updates.len() == 0
            &&& first.step == StepView::Probe(api.targets[0].url)
            &&& second.step == StepView::Probe(api.targets[0].url)
            &&& third.step == StepView::Probe(api.targets[0].url)
            &&& fourth.run is Sampling && api_of(fourth.run) == Some(api)
            &&& latency_of(fourth.run) matches Some(millis) && is_middle_rounded(millis, b, c, d)
            &&& fourth.updates.len() == 1 && fourth.updates[0] == UpdateView::Phase(
                "Opening the taps"@,
            )
            &&& fourth.step matches StepView::OpenDownloads(urls) && urls.len() == 6 && forall|
                w: int,
            |
                0 <= w < 6 ==> #[trigger] urls[w] == api.targets[w % api.targets.len() as int].url
        }),
{
    lemma_first_probe_does_not_count(a, b, c, d);
    lemma_median_rounded(b, c, d);
}

/// What a run in that state has to do with the probes that it has taken.
spec fn has_probed(run: RunView, probes: Seq<Binary64>) -> bool {
    match run {
        RunView::Latency { api, probe } => {
            &&& probe.sent == probes.len() < 4
            &&& probe.kept == if probes.len() == 0 {
                Seq::empty()
            } else {
                probes.skip(1)
            }
        },
        RunView::Over => true,
        _ => match latency_of(run) {
            Some(millis) => probes.len() == 4 && is_middle_rounded(
                millis,
                probes[1],
                probes[2],
                probes[3],
            ),
            None => probes.len() == 0,
        },
    }
}

/// Whatever happens to a run and in whatever order, the latency that it holds and the one in its
/// result are that of its probes: it has taken four answers, and of the last three it is the whole
/// number nearest to the one that lies between the other two.
pub proof fn lemma_latency_is_the_median(events: Seq<EventView>)
    ensures
        latency_of(story(events).0) matches Some(millis) ==> probes_taken(events).len() == 4
            && is_middle_rounded(
            millis,
            probes_taken(events)[1],
            probes_taken(events)[2],
            probes_taken(events)[3],
        ),
        forall|i: int|
            0 <= i < story(events).1.len() ==> (#[trigger] story(events).1[i] matches
            UpdateView::Finished(result) ==> probes_taken(events).len() == 4 && is_middle_rounded(
                result.latency_ms,
                probes_taken(events)[1],
                probes_taken(events)[2],
                probes_taken(events)[3],
            )),
{
    lemma_probes_noted(events);
}

proof fn lemma_probes_noted(events: Seq<EventView>)
    ensures
        has_probed(story(events).0, probes_taken(events)),
        forall|i: int|
            0 <= i < story(events).1.len() ==> (#[trigger] story(events).1[i] matches
            UpdateView::Finished(result) ==> probes_taken(events).len() == 4 && is_middle_rounded(
                result.latency_ms,
                probes_taken(events)[1],
                probes_taken(events)[2],
                probes_taken(events)[3],
            )),
    decreases events.len(),
{
    if events.len() > 0 {
        let rest = events.drop_last();
        let (run, sent) = story(rest);
        let reply = answer(run, events.last());
        let before = probes_taken(rest);
        let probes = probes_taken(events);
        lemma_probes_noted(rest);
        lemma_story_in_order(rest);
        if let (RunView::Latency { api, probe }, EventView::Probed(millis)) = (run, events.last()) {
            let n = before.len();
            if n == 0 {
                assert(probe.answered(millis).kept =~= probes.skip(1));
            } else {
                assert(probe.answered(millis).kept =~= probes.skip(1));
            }
            if n == 3 {
                assert(probes.skip(1) =~= seq![probes[1], probes[2], probes[3]]);
                lemma_median_rounded(probes[1], probes[2], probes[3]);
            }
        } else {
            assert(probes == before);
        }
        assert forall|i: int| 0 <= i < story(events).1.len() implies (#[trigger] story(
            events,
        ).1[i] matches UpdateView::Finished(result) ==> probes.len() == 4 && is_middle_rounded(
            result.latency_ms,
            probes[1],
            probes[2],
            probes[3],
        )) by {
            if i < sent.len() {
                assert(story(events).1[i] == sent[i]);
                if run is Latency {
                    assert(!(sent[i] is Finished));
                }
            } else {
                assert(story(events).1[i] == reply.updates[i - sent.len()]);
            }
        }
    }
}

/// A count is answered with what came in since the front of the window: with the count there the
/// bytes make up the new total, and with the moment there the time makes up now. Nothing is handed
/// out where no time has passed, and nothing is sent.
pub proof fn lemma_stretch_is_what_came_in(run: RunView, now: u128, total: u64)
    requires
        run is Sampling,
        run.wf(),
        run.admits(EventView::Ticked { now, total }),
    ensures
        ({
            let reply = answer(run, EventView::Ticked { now, total });
            &&& reply.run is Rating && reply.updates.len() == 0
            &&& window_of(reply.run) matches Some(window) && window.len() > 0 && window.last() == (
                now,
                total,
            ) && {
                let front = window[0];
                &&& front.0 >= now ==> reply.step == StepView::Rate(None)
                &&& front.0 < now ==> (reply.step matches StepView::Rate(Some(stretch))
                    && stretch.bytes + front.1 == total && stretch.nanos + front.0 == now)
            }
        }),
{
    if let RunView::Sampling { api, latency_ms, meter } = run {
        let next = meter.observed(now, total);
        lemma_observed(meter, now, total);
        let all = meter.window.push((now, total));
        let gone = choose|gone: int| #[trigger]
            have_to_go(all, now, gone) && next.window == all.skip(gone);
        assert(next.window[0] == all[gone]);
        assert(next.window.last() == all.last());
        if meter.window.len() > 0 {
            let n = meter.window.len() - 1;
            assert(meter.window[n].1 <= total);
            if gone < n {
                assert(meter.window[gone].1 <= meter.window[n].1);
            }
        }
        lemma_stretch(next.window, now, total);
    }
}

/// The speed is read off a sliding window of a second: whatever happened to a run before, as long
/// as neither its clock nor the count of bytes goes back, a count is rated against one of the
/// counts that the run has taken. That is the earliest of the last second, or the one before the
/// new count where that is earlier. The stretch has exactly the bytes that came in since then and
/// exactly the time that has passed since then.
pub proof fn lemma_speed_of_the_last_second(events: Seq<EventView>, now: u128, total: u64)
    requires
        story(events).0 is Sampling,
        forall|i: int, j: int|
            0 <= i < j < counts_taken(events).len() ==> (#[trigger] counts_taken(events)[i]).0 <= (
            #[trigger] counts_taken(events)[j]).0,
        forall|i: int|
            0 <= i < counts_taken(events).len() ==> (#[trigger] counts_taken(events)[i]).0 <= now
                && counts_taken(events)[i].1 <= total,
    ensures
        exists|front: int|
            {
                &&& #[trigger] have_to_go(counts_taken(events).push((now, total)), now, front)
                &&& is_rated_from(
                    answer(story(events).0, EventView::Ticked { now, total }).step,
                    counts_taken(events).push((now, total))[front],
                    now,
                    total,
                )
            },
{
    let event = EventView::Ticked { now, total };
    let next = events.push(event);
    let counts = counts_taken(events).push((now, total));
    assert(next.drop_last() =~= events);
    assert(counts_taken(next) == counts);
    assert(in_time(counts));
    lemma_window_over_a_run(next);
    let reply = answer(story(events).0, event);
    let window = window_of(reply.run)->0;
    let front = counts.len() - window.len();
    assert(window =~= counts.subrange(front, counts.len() as int));
    assert(window[0] == counts[front]);
    assert forall|i: int| 0 <= i < front implies now - (#[trigger] counts[i]).0 > 1_000_000_000 by {
        assert(since(counts[i].0, counts.last().0) > SECOND);
    }
    assert(have_to_go(counts, now, front));
    lemma_stretch(window, now, total);
}

/// Whether `step` asks to rate exactly what came in from the count `front` to `total` at `now`.
pub open spec fn is_rated_from(step: StepView, front: (u128, u64), now: u128, total: u64) -> bool {
    &&& front.0 >= now ==> step == StepView::Rate(None)
    &&& front.0 < now ==> (step matches StepView::Rate(Some(stretch)) && stretch.bytes + front.1
        == total && stretch.nanos + front.0 == now)
}

/// A reading belongs to the count before it: it is sent with its time, and its speed is the one
/// that was worked out where there was something to rate, and zero where there was nothing,
/// whatever was worked out. Before the tenth second the next count is waited for, and from then on
/// none is.
pub proof fn lemma_reading_of_a_count(
    run: RunView,
    now: u128,
    total: u64,
    elapsed: u128,
    speed: Binary64,
)
    requires
        run is Sampling,
        run.wf(),
        run.admits(EventView::Ticked { now, total }),
    ensures
        ({
            let ticked = answer(run, EventView::Ticked { now, total });
            let rated = answer(ticked.run, EventView::Rated { elapsed, speed });
            &&& ticked.step is Rate
            &&& rated.updates.len() > 0
            &&& rated.updates[0] matches UpdateView::Sample(sample) && sample.elapsed == elapsed
                && sample.speed_mbps.bits == if ticked.step == StepView::Rate(None) {
                0
            } else {
                speed.bits
            }
            &&& elapsed < 10_000_000_000 ==> rated.run is Sampling && rated.step is AwaitTick
                && rated.updates.len() == 1 && window_of(rated.run) == window_of(ticked.run)
            &&& elapsed >= 10_000_000_000 ==> rated.run is Averaging || rated.run is Over
        }),
{
    lemma_stretch_is_what_came_in(run, now, total);
    if let RunView::Rating { api, latency_ms, meter } = answer(
        run,
        EventView::Ticked { now, total },
    ).run {
        lemma_rated(meter, speed);
        lemma_recorded(meter, elapsed, meter.rated(speed));
    }
}

/// The end of the time: whatever happened to a run before, from the tenth second on it averages
/// the readings that count among all that it has sent, but for the lowest tenth and the highest
/// tenth of them, each rounded down; where none counts, it breaks off for that reason. Before, it
/// goes on.
pub proof fn lemma_end_of_the_time(events: Seq<EventView>, elapsed: u128, speed: Binary64)
    requires
        story(events).0 is Rating,
    ensures
        ({
            let event = EventView::Rated { elapsed, speed };
            let reply = answer(story(events).0, event);
            let all = counted(story(events.push(event)).1);
            &&& elapsed < 10_000_000_000 ==> reply.run is Sampling && reply.step is AwaitTick
            &&& elapsed >= 10_000_000_000 && all.len() > 0 ==> reply.run is Averaging && (
            reply.step matches StepView::Average(speeds) && speeds.len() > 0 && exists|
                low: Seq<Binary64>,
                high: Seq<Binary64>,
            | #[trigger]
                is_cut(low, speeds, high, all))
            &&& elapsed >= 10_000_000_000 && all.len() == 0 ==> reply.run is Over && reply.step
                == StepView::Fail(Fault::NoData) && reply.updates.len() == 2 && reply.updates[1]
                == UpdateView::Failed("the test completed without receiving data"@)
        }),
{
    let event = EventView::Rated { elapsed, speed };
    lemma_average_is_of_what_was_sent(events, event);
    let all = counted(story(events.push(event)).1);
    lemma_kept_is_the_middle(all);
}

/// The result of a run is made of what it was told last and of what it was told by the server
/// list: the mean speed and the bytes as they came, the latency that it holds, and the city and the
/// country of the first server and of the client.
pub proof fn lemma_result(run: RunView, speed: Binary64, total: u64)
    requires
        run is Averaging,
    ensures
        ({
            let reply = answer(run, EventView::Averaged { speed, total });
            &&& reply.run is Over && reply.step is Finish && reply.updates.len() == 1
            &&& reply.updates[0] matches UpdateView::Finished(result) && {
                &&& result.speed_mbps == speed
                &&& result.bytes == total
                &&& latency_of(run) == Some(result.latency_ms)
                &&& api_of(run) matches Some(api) && result.server
                    == api.targets[0].location.city + ", "@ + api.targets[0].location.country
                    && result.client == api.client.city + ", "@ + api.client.country
            }
        }),
{
}

/// The server list that a new run has taken after `events`.
pub open spec fn list_taken(events: Seq<EventView>) -> Option<ApiView>
    decreases events.len(),
{
    if events.len() == 0 {
        None
    } else {
        match (story(events.drop_last()).0, events.last()) {
            (RunView::Servers, EventView::Served(api)) => Some(api),
            _ => list_taken(events.drop_last()),
        }
    }
}

/// Whatever happens to a run, what it holds and what its result names are the places of the one
/// server list that it has taken.
pub proof fn lemma_places_of_the_list(events: Seq<EventView>)
    ensures
        api_of(story(events).0) is Some ==> api_of(story(events).0) == list_taken(events),
        forall|i: int|
            0 <= i < story(events).1.len() ==> (#[trigger] story(events).1[i] matches
            UpdateView::Finished(result) ==> (list_taken(events) matches Some(api) && result.server
                == api.targets[0].location.city + ", "@ + api.targets[0].location.country
                && result.client == api.client.city + ", "@ + api.client.country)),
    decreases events.len(),
{
    if events.len() > 0 {
        let rest = events.drop_last();
        let (run, sent) = story(rest);
        let reply = answer(run, events.last());
        lemma_places_of_the_list(rest);
        lemma_story_in_order(rest);
        assert forall|i: int| 0 <= i < story(events).1.len() implies (#[trigger] story(
            events,
        ).1[i] matches UpdateView::Finished(result) ==> (list_taken(events) matches Some(api)
            && result.server == api.targets[0].location.city + ", "@
            + api.targets[0].location.country && result.client == api.client.city + ", "@
            + api.client.country)) by {
            if i < sent.len() {
                assert(story(events).1[i] == sent[i]);
                if run is Servers {
                    assert(!(sent[i] is Finished));
                }
            } else {
                assert(story(events).1[i] == reply.updates[i - sent.len()]);
            }
        }
    }
}

/// The readings that a run sends come from its counts, one each: it has sent as many as it has
/// taken counts, but for one that is still being worked out.
pub proof fn lemma_one_reading_for_each_count(events: Seq<EventView>)
    ensures
        !(story(events).0 is Over) ==> readings_in(story(events).1) == counts_taken(events).len()
            - if story(events).0 is Rating {
            1int
        } else {
            0int
        },
        phases_begun(story(events).0) < 3 ==> counts_taken(events).len() == 0,
    decreases events.len(),
{
    if events.len() > 0 {
        let rest = events.drop_last();
        let (run, sent) = story(rest);
        let reply = answer(run, events.last());
        lemma_one_reading_for_each_count(rest);
        if reply.updates.len() == 0 {
            assert(sent + reply.updates =~= sent);
        } else if reply.updates.len() == 1 {
            assert((sent + reply.updates).drop_last() =~= sent);
        }
    }
}

/// How many of the updates are readings.
pub open spec fn readings_in(sent: Seq<UpdateView>) -> int
    decreases sent.len(),
{
    if sent.len() == 0 {
        0
    } else {
        readings_in(sent.drop_last()) + if sent.last() is Sample {
            1int
        } else {
            0int
        }
    }
}

/// What is said of trouble depends on what was tried, and not on where: nothing is added for the
/// page, the script and the download; each kind of trouble with the server list has words of its
/// own, and so has a probe that is not answered or refused, and a client that cannot be made.
pub proof fn lemma_trouble(url: Seq<char>, trouble: Trouble)
    ensures
        StepView::LoadPage.fault_with(trouble) is None,
        StepView::LoadScript(url).fault_with(trouble) is None,
        StepView::RequestServers(url).fault_with(trouble) == Some(
            match trouble {
                Trouble::Unanswered => Fault::Unreachable,
                Trouble::Refused => Fault::Rejected,
                Trouble::Unreadable => Fault::Unexpected,
            },
        ),
        StepView::Probe(url).fault_with(trouble) == match trouble {
            Trouble::Unanswered => Some(Fault::ProbeUnanswered),
            Trouble::Refused => Some(Fault::ProbeRejected),
            Trouble::Unreadable => None,
        },
        StepView::CreateClient.fault_with(trouble) is Some <==> trouble is Unanswered,
{
}

/// A run may be told any count of bytes that is not below the last one, and all else at any time.
pub proof fn lemma_what_is_admitted(run: RunView, event: EventView, now: u128, total: u64)
    ensures
        !(event is Ticked) || !(run is Sampling) ==> run.admits(event),
        run matches RunView::Sampling { api, latency_ms, meter } ==> (run.admits(
            EventView::Ticked { now, total },
        ) <==> meter.window.len() == 0 || meter.window.last().1 <= total),
{
}

/// The client names itself by the version that the program names.
pub proof fn lemma_user_agent()
    ensures
        USER_AGENT@ == "speed/"@ + VERSION@,
{
    reveal_strlit("speed/1.0.0");
    reveal_strlit("speed/");
    reveal_strlit("1.0.0");
    assert(USER_AGENT@ =~= "speed/"@ + VERSION@);
}

} // verus!
