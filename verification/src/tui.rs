//! The state of the interactive screen and how it answers to keys, ticks and updates.

use crate::binary64::Binary64;
use crate::run::{lemma_updates_in_order, story, EventView};
use crate::speedtest::{ResultView, TestResult, Update, UpdateView};
use std::collections::VecDeque;
use vstd::prelude::*;
use vstd::string::*;

verus! {

/// How many results are remembered.
pub const HISTORY: usize = 6;

/// How long the pause between two ticks of the screen is, in milliseconds.
pub const FRAME_MILLIS: u64 = 50;

/// The phase before a run has sent anything.
pub const PHASE_WARM_UP: &'static str = "Warming up";

/// The phase while the speed is read.
pub const PHASE_MEASURING: &'static str = "Measuring download speed";

/// The phase of a run that has come to its end.
pub const PHASE_COMPLETE: &'static str = "Run complete";

/// The phase of a run that has broken off.
pub const PHASE_INTERRUPTED: &'static str = "Test interrupted";

/// How the latest test stands.
#[derive(Clone, Copy, Debug, PartialEq, Eq, Structural)]
pub enum Status {
    /// It is under way.
    Running,
    /// It has come to its end.
    Done,
    /// It has broken off.
    Failed,
}

/// The state of the screen.
#[derive(Debug)]
pub struct App {
    status: Status,
    phase: &'static str,
    speed: Binary64,
    elapsed: u128,
    samples: Vec<(u128, Binary64)>,
    result: Option<TestResult>,
    error: Option<String>,
    history: VecDeque<TestResult>,
    animation: usize,
    task: bool,
}

/// The state of the screen.
#[verifier::ext_equal]
pub struct AppView {
    /// How the latest test stands.
    pub status: Status,
    /// The phase that is shown.
    pub phase: Seq<char>,
    /// The speed that is shown, in megabits per second.
    pub speed: Binary64,
    /// How long the download has been running, in nanoseconds.
    pub elapsed: u128,
    /// The readings of this test, each with the time it was taken after, in nanoseconds.
    pub samples: Seq<(u128, Binary64)>,
    /// The result of this test.
    pub result: Option<ResultView>,
    /// Why this test broke off.
    pub error: Option<Seq<char>>,
    /// The results of this session, latest first.
    pub history: Seq<ResultView>,
    /// How often the screen has ticked, wrapping around.
    pub animation: usize,
    /// Whether a test is under way in the background.
    pub task: bool,
}

/// A result by the characters of its names, if there is one.
pub open spec fn result_view(result: Option<TestResult>) -> Option<ResultView> {
    match result {
        Some(result) => Some(result@),
        None => None,
    }
}

/// A text by its characters, if there is one.
pub open spec fn text_view(text: Option<String>) -> Option<Seq<char>> {
    match text {
        Some(text) => Some(text@),
        None => None,
    }
}

impl View for App {
    type V = AppView;

    closed spec fn view(&self) -> AppView {
        AppView {
            status: self.status,
            phase: self.phase@,
            speed: self.speed,
            elapsed: self.elapsed,
            samples: self.samples@,
            result: result_view(self.result),
            error: text_view(self.error),
            history: self.history@.map_values(|r: TestResult| r@),
            animation: self.animation,
            task: self.task,
        }
    }
}

/// The keys that are told apart.
#[derive(Clone, Copy, Debug, PartialEq, Eq, Structural)]
pub enum KeyCode {
    /// The key of a character.
    Char(char),
    /// The enter key.
    Enter,
    /// The escape key.
    Esc,
    /// Any other key.
    Other,
}

/// A key that was touched.
#[derive(Clone, Copy, Debug, PartialEq, Eq, Structural)]
pub struct Key {
    /// Which key.
    pub code: KeyCode,
    /// Whether the control key was held.
    pub control: bool,
    /// Whether the key went down, and did not repeat or come up.
    pub press: bool,
}

impl Key {
    /// Whether the key leaves the program.
    pub open spec fn quits(self) -> bool {
        self.press && (self.code == KeyCode::Char('q') || self.code == KeyCode::Esc || (self.code
            == KeyCode::Char('c') && self.control))
    }

    /// Whether the key asks for another test.
    pub open spec fn starts(self) -> bool {
        self.press && (self.code == KeyCode::Char(' ') || self.code == KeyCode::Enter || self.code
            == KeyCode::Char('r'))
    }
}

/// What reaches the screen.
#[derive(Debug)]
pub enum Input {
    /// Time for the next frame.
    Tick,
    /// A key was touched.
    Key(Key),
    /// A test has sent an update.
    Update(Update),
    /// Something happened to the terminal that is not a key.
    Other,
}

/// What reaches the screen, by the characters of its texts.
pub enum InputView {
    Tick,
    Key(Key),
    Update(UpdateView),
    Other,
}

impl View for Input {
    type V = InputView;

    open spec fn view(&self) -> InputView {
        match self {
            Input::Tick => InputView::Tick,
            Input::Key(key) => InputView::Key(*key),
            Input::Update(update) => InputView::Update(update@),
            Input::Other => InputView::Other,
        }
    }
}

/// What the program does after an input.
#[derive(Clone, Copy, Debug, PartialEq, Eq, Structural)]
pub enum Control {
    /// Go on.
    Continue,
    /// Start a test in the background and go on.
    Start,
    /// Leave.
    Quit,
}

/// The number zero.
pub open spec fn zero() -> Binary64 {
    Binary64 { bits: 0 }
}

impl AppView {
    /// The screen before the first test.
    pub open spec fn new() -> AppView {
        AppView {
            status: Status::Running,
            phase: PHASE_WARM_UP@,
            speed: zero(),
            elapsed: 0,
            samples: Seq::empty(),
            result: None,
            error: None,
            history: Seq::empty(),
            animation: 0,
            task: false,
        }
    }

    /// A test is under way only while it shows as running; no more results are remembered than
    /// there is room for; a test that has come to its end has a result, and one that has broken
    /// off has a reason; a result that is shown is the latest that is remembered.
    pub open spec fn wf(self) -> bool {
        &&& self.task ==> self.status == Status::Running
        &&& self.history.len() <= HISTORY
        &&& self.status == Status::Done ==> self.result is Some
        &&& self.status == Status::Failed ==> self.error is Some
        &&& self.result matches Some(result) ==> self.history.len() > 0 && self.history[0] == result
    }

    /// Whether a test is under way.
    pub open spec fn busy(self) -> bool {
        self.status == Status::Running && self.task
    }

    /// The screen once a test has been asked for.
    pub open spec fn started(self) -> AppView {
        if self.busy() {
            self
        } else {
            AppView { history: self.history, animation: self.animation, task: true, ..Self::new() }
        }
    }

    /// The screen once an update has come.
    pub open spec fn applied(self, update: UpdateView) -> AppView {
        match update {
            UpdateView::Phase(phase) => AppView { phase, ..self },
            UpdateView::Sample(sample) => AppView {
                phase: PHASE_MEASURING@,
                speed: sample.speed_mbps,
                elapsed: sample.elapsed,
                samples: self.samples.push((sample.elapsed, sample.speed_mbps)),
                ..self
            },
            UpdateView::Finished(result) => {
                let results = seq![result] + self.history;
                AppView {
                    speed: result.speed_mbps,
                    status: Status::Done,
                    phase: PHASE_COMPLETE@,
                    history: if results.len() > HISTORY {
                        results.take(HISTORY as int)
                    } else {
                        results
                    },
                    result: Some(result),
                    task: false,
                    ..self
                }
            },
            UpdateView::Failed(error) => AppView {
                status: Status::Failed,
                phase: PHASE_INTERRUPTED@,
                error: Some(error),
                task: false,
                ..self
            },
        }
    }

    /// The screen one frame later.
    pub open spec fn ticked(self) -> AppView {
        AppView {
            animation: if self.animation == usize::MAX {
                0
            } else {
                (self.animation + 1) as usize
            },
            ..self
        }
    }

    /// The screen after an input, and what the program does.
    pub open spec fn handled(self, input: InputView) -> (AppView, Control) {
        match input {
            InputView::Tick => (self.ticked(), Control::Continue),
            InputView::Key(key) => if key.quits() {
                (self, Control::Quit)
            } else if key.starts() && !self.busy() {
                (self.started(), Control::Start)
            } else {
                (self, Control::Continue)
            },
            InputView::Update(update) => (self.applied(update), Control::Continue),
            InputView::Other => (self, Control::Continue),
        }
    }
}

impl App {
    /// The screen before the first test.
    pub fn new() -> (r: App)
        ensures
            r@ == AppView::new(),
    {
        let r = App {
            status: Status::Running,
            phase: PHASE_WARM_UP,
            speed: Binary64 { bits: 0 },
            elapsed: 0,
            samples: Vec::new(),
            result: None,
            error: None,
            history: VecDeque::new(),
            animation: 0,
            task: false,
        };
        proof {
            assert(r@ =~= AppView::new());
        }
        r
    }

    /// How the latest test stands.
    pub fn status(&self) -> (r: Status)
        ensures
            r == self@.status,
    {
        self.status
    }

    /// The phase that is shown.
    pub fn phase(&self) -> (r: &'static str)
        ensures
            r@ == self@.phase,
    {
        self.phase
    }

    /// The speed that is shown, in megabits per second.
    pub fn speed(&self) -> (r: Binary64)
        ensures
            r == self@.speed,
    {
        self.speed
    }

    /// How long the download has been running, in nanoseconds.
    pub fn elapsed(&self) -> (r: u128)
        ensures
            r == self@.elapsed,
    {
        self.elapsed
    }

    /// The readings of this test, each with the time it was taken after, in nanoseconds.
    pub fn samples(&self) -> (r: &Vec<(u128, Binary64)>)
        ensures
            r@ == self@.samples,
    {
        &self.samples
    }

    /// The result of this test.
    pub fn result(&self) -> (r: &Option<TestResult>)
        ensures
            result_view(*r) == self@.result,
    {
        &self.result
    }

    /// Why this test broke off.
    pub fn error(&self) -> (r: &Option<String>)
        ensures
            text_view(*r) == self@.error,
    {
        &self.error
    }

    /// The results of this session, latest first.
    pub fn history(&self) -> (r: &VecDeque<TestResult>)
        ensures
            r@.map_values(|result: TestResult| result@) == self@.history,
    {
        &self.history
    }

    /// How often the screen has ticked, wrapping around.
    pub fn animation(&self) -> (r: usize)
        ensures
            r == self@.animation,
    {
        self.animation
    }

    /// Clears the screen for another test and tells whether to start one; while one is under way
    /// it does neither.
    pub fn start_test(&mut self) -> (r: bool)
        ensures
            final(self)@ == old(self)@.started(),
            r == !old(self)@.busy(),
    {
        let busy = match self.status {
            Status::Running => self.task,
            _ => false,
        };
        if busy {
            return false;
        }
        self.status = Status::Running;
        self.phase = PHASE_WARM_UP;
        self.speed = Binary64 { bits: 0 };
        self.elapsed = 0;
        self.samples.clear();
        self.result = None;
        self.error = None;
        self.task = true;
        proof {
            assert(self@ =~= old(self)@.started());
        }
        true
    }

    /// Takes an update of the test.
    pub fn apply(&mut self, update: Update)
        ensures
            final(self)@ == old(self)@.applied(update@),
    {
        match update {
            Update::Phase(phase) => {
                self.phase = phase;
            },
            Update::Sample(sample) => {
                self.phase = PHASE_MEASURING;
                self.speed = sample.speed_mbps;
                self.elapsed = sample.elapsed;
                self.samples.push((sample.elapsed, sample.speed_mbps));
            },
            Update::Finished(result) => {
                self.speed = result.speed_mbps;
                self.status = Status::Done;
                self.phase = PHASE_COMPLETE;
                self.history.push_front(result.clone());
                self.history.truncate(HISTORY);
                self.result = Some(result);
                self.task = false;
            },
            Update::Failed(error) => {
                self.status = Status::Failed;
                self.phase = PHASE_INTERRUPTED;
                self.error = Some(error);
                self.task = false;
            },
        }
        proof {
            assert(self@ =~= old(self)@.applied(update@));
        }
    }

    /// Goes to the next frame.
    pub fn tick(&mut self)
        ensures
            final(self)@ == old(self)@.ticked(),
    {
        self.animation = self.animation.wrapping_add(1);
        proof {
            assert(self@ =~= old(self)@.ticked());
        }
    }

    /// Takes an input and tells what the program does.
    pub fn handle(&mut self, input: Input) -> (r: Control)
        ensures
            (final(self)@, r) == old(self)@.handled(input@),
    {
        match input {
            Input::Tick => {
                self.tick();
                Control::Continue
            },
            Input::Key(key) => {
                if !key.press {
                    return Control::Continue;
                }
                match key.code {
                    KeyCode::Esc | KeyCode::Char('q') => Control::Quit,
                    KeyCode::Char('c') => {
                        if key.control {
                            Control::Quit
                        } else {
                            Control::Continue
                        }
                    },
                    KeyCode::Enter | KeyCode::Char(' ') | KeyCode::Char('r') => {
                        if self.start_test() {
                            Control::Start
                        } else {
                            Control::Continue
                        }
                    },
                    _ => Control::Continue,
                }
            },
            Input::Update(update) => {
                self.apply(update);
                Control::Continue
            },
            Input::Other => Control::Continue,
        }
    }
}

/// Every input keeps the screen in order, and it starts in order.
pub proof fn lemma_stays_well_formed(app: AppView, input: InputView)
    ensures
        AppView::new().wf(),
        AppView::new().started().wf(),
        app.wf() ==> app.handled(input).0.wf(),
{
}

/// Opening the program starts one test.
pub proof fn lemma_opening_starts_a_test()
    ensures
        !AppView::new().busy(),
        AppView::new().started().busy(),
{
}

/// The screen after `inputs`, in this order.
pub open spec fn after(app: AppView, inputs: Seq<InputView>) -> AppView
    decreases inputs.len(),
{
    if inputs.len() == 0 {
        app
    } else {
        after(app, inputs.drop_last()).handled(inputs.last()).0
    }
}

/// What the program does on the input number `i`.
pub open spec fn control_at(app: AppView, inputs: Seq<InputView>, i: int) -> Control {
    after(app, inputs.take(i)).handled(inputs[i]).1
}

/// Whether the input is the last update of a test.
pub open spec fn ends_test(input: InputView) -> bool {
    input matches InputView::Update(update) && update.is_last()
}

/// Whether the input is a key that asks for another test.
pub open spec fn asks_for_test(input: InputView) -> bool {
    input matches InputView::Key(key) && key.starts()
}

proof fn lemma_after_step(app: AppView, inputs: Seq<InputView>, i: int)
    requires
        0 <= i < inputs.len(),
    ensures
        after(app, inputs.take(i + 1)) == after(app, inputs.take(i)).handled(inputs[i]).0,
{
    assert(inputs.take(i + 1).drop_last() =~= inputs.take(i));
    assert(inputs.take(i + 1).last() == inputs[i]);
}

/// While the program waits, it stays quiet: without a key that asks for a test none is started
/// and none is under way, whatever else happens and however long.
pub proof fn lemma_quiet_while_waiting(app: AppView, inputs: Seq<InputView>)
    requires
        !app.busy(),
        forall|i: int| 0 <= i < inputs.len() ==> !asks_for_test(#[trigger] inputs[i]),
    ensures
        !after(app, inputs).busy(),
        forall|i: int|
            0 <= i < inputs.len() ==> #[trigger] control_at(app, inputs, i) != Control::Start,
    decreases inputs.len(),
{
    if inputs.len() > 0 {
        let n = inputs.len() - 1;
        let rest = inputs.drop_last();
        assert forall|i: int| 0 <= i < rest.len() implies !asks_for_test(#[trigger] rest[i]) by {
            assert(rest[i] == inputs[i]);
        }
        lemma_quiet_while_waiting(app, rest);
        assert(rest =~= inputs.take(n));
        assert(!asks_for_test(inputs[n]));
        assert forall|i: int| 0 <= i < inputs.len() implies #[trigger] control_at(app, inputs, i)
            != Control::Start by {
            if i < n {
                assert(rest.take(i) =~= inputs.take(i));
                assert(control_at(app, rest, i) != Control::Start);
            }
        }
    }
}

/// A test that is under way stays so until its last update.
proof fn lemma_busy_until_last(app: AppView, inputs: Seq<InputView>, from: int, to: int)
    requires
        0 <= from <= to <= inputs.len(),
        after(app, inputs.take(from)).busy(),
        forall|k: int| from <= k < to ==> !ends_test(#[trigger] inputs[k]),
    ensures
        after(app, inputs.take(to)).busy(),
    decreases to - from,
{
    if from < to {
        lemma_busy_until_last(app, inputs, from, to - 1);
        lemma_after_step(app, inputs, to - 1);
        assert(!ends_test(inputs[to - 1]));
    }
}

/// Only one test runs at a time: between two starts the first test has sent its last update.
pub proof fn lemma_one_test_at_a_time(app: AppView, inputs: Seq<InputView>, i: int, j: int)
    requires
        0 <= i < j < inputs.len(),
        control_at(app, inputs, i) == Control::Start,
        control_at(app, inputs, j) == Control::Start,
    ensures
        exists|k: int| i < k < j && ends_test(#[trigger] inputs[k]),
{
    if forall|k: int| i < k < j ==> !ends_test(#[trigger] inputs[k]) {
        lemma_after_step(app, inputs, i);
        lemma_busy_until_last(app, inputs, i + 1, j);
        assert(false);
    }
}

/// A key that asks for a test starts one exactly when none is under way, and starting clears
/// what the last one showed but keeps the results of the session.
pub proof fn lemma_start_key(app: AppView, key: Key)
    requires
        key.starts(),
    ensures
        app.handled(InputView::Key(key)).1 == Control::Start <==> !app.busy(),
        app.busy() ==> app.handled(InputView::Key(key)).0 == app,
        ({
            let next = app.handled(InputView::Key(key)).0;
            &&& next.busy()
            &&& next.history == app.history
            &&& !app.busy() ==> next.samples.len() == 0 && next.result is None && next.error is None
        }),
{
}

/// A new result comes first in the session, the others keep their order behind it, and the
/// oldest gives way when there is no room.
pub proof fn lemma_latest_result_first(app: AppView, result: ResultView)
    requires
        app.wf(),
    ensures
        ({
            let next = app.applied(UpdateView::Finished(result));
            &&& next.history.len() == if app.history.len() < HISTORY {
                app.history.len() + 1
            } else {
                HISTORY as nat
            }
            &&& next.history[0] == result
            &&& next.result == Some(result)
            &&& forall|i: int|
                0 < i < next.history.len() ==> #[trigger] next.history[i] == app.history[i - 1]
        }),
{
}

/// The screen after `updates`, in this order.
pub open spec fn shown(app: AppView, updates: Seq<UpdateView>) -> AppView
    decreases updates.len(),
{
    if updates.len() == 0 {
        app
    } else {
        shown(app, updates.drop_last()).applied(updates.last())
    }
}

proof fn lemma_shown_busy(app: AppView, updates: Seq<UpdateView>)
    requires
        app.busy(),
        forall|i: int| 0 <= i < updates.len() - 1 ==> !(#[trigger] updates[i]).is_last(),
    ensures
        shown(app, updates).busy() <==> !(updates.len() > 0 && updates.last().is_last()),
    decreases updates.len(),
{
    if updates.len() > 0 {
        let rest = updates.drop_last();
        assert forall|i: int| 0 <= i < rest.len() - 1 implies !(#[trigger] rest[i]).is_last() by {
            assert(rest[i] == updates[i]);
        }
        if rest.len() > 0 {
            assert(rest.last() == updates[rest.len() - 1]);
        }
        lemma_shown_busy(app, rest);
    }
}

/// The screen follows the run: after the updates of a run, whatever happened to it, a test shows
/// as under way exactly as long as the run is not at its end.
pub proof fn lemma_screen_follows_run(app: AppView, events: Seq<EventView>)
    requires
        app.busy(),
    ensures
        shown(app, story(events).1).busy() <==> !(story(events).0 is Over),
{
    lemma_updates_in_order(events);
    lemma_shown_busy(app, story(events).1);
}

/// Leaving: a pressed q, a pressed escape key and a pressed c with control leave the program, in
/// whatever state the screen is, and they leave the screen as it is. Nothing else leaves.
pub proof fn lemma_leaving(app: AppView, input: InputView)
    ensures
        app.handled(input).1 == Control::Quit <==> (input matches InputView::Key(key) && key.press
            && (key.code == KeyCode::Char('q') || key.code == KeyCode::Esc || (key.code
            == KeyCode::Char('c') && key.control))),
        app.handled(input).1 == Control::Quit ==> app.handled(input).0 == app,
{
}

/// Starting: a pressed space bar, enter key or r starts a test, in whatever state the screen is,
/// unless one is under way already. Nothing else starts one.
pub proof fn lemma_starting(app: AppView, input: InputView)
    ensures
        app.handled(input).1 == Control::Start <==> (input matches InputView::Key(key) && key.press
            && (key.code == KeyCode::Char(' ') || key.code == KeyCode::Enter || key.code
            == KeyCode::Char('r')) && !(app.status == Status::Running && app.task)),
        app.handled(input).1 == Control::Start ==> app.handled(input).0.status == Status::Running
            && app.handled(input).0.task,
{
}

/// A key that neither leaves nor starts changes nothing, and neither does what is no key. A key
/// that comes up or repeats is such a one, whichever it is.
pub proof fn lemma_other_inputs(app: AppView, key: Key)
    ensures
        app.handled(InputView::Other) == (app, Control::Continue),
        !key.press ==> app.handled(InputView::Key(key)) == (app, Control::Continue),
        app.handled(InputView::Key(key)).1 == Control::Continue ==> app.handled(
            InputView::Key(key),
        ).0 == app,
{
}

/// A test that is asked for while one is under way changes nothing. Else the screen shows a test
/// under way and nothing of the one before; the results of the session and the spinning mark
/// stay.
pub proof fn lemma_fresh_start(app: AppView)
    ensures
        app.status == Status::Running && app.task ==> app.started() == app,
        !(app.status == Status::Running && app.task) ==> {
            let next = app.started();
            &&& next.status == Status::Running && next.task
            &&& next.phase == "Warming up"@
            &&& next.speed.bits == 0 && next.elapsed == 0
            &&& next.samples.len() == 0 && next.result is None && next.error is None
            &&& next.history == app.history && next.animation == app.animation
        },
{
}

/// A frame counts by one and changes nothing else; behind the largest count comes zero.
pub proof fn lemma_frame(app: AppView)
    ensures
        app.handled(InputView::Tick).1 == Control::Continue,
        ({
            let next = app.handled(InputView::Tick).0;
            &&& next.animation == app.animation + 1 || (app.animation == usize::MAX
                && next.animation == 0)
            &&& next == (AppView { animation: next.animation, ..app })
        }),
{
}

/// A phase is shown as it is named, and nothing else changes.
pub proof fn lemma_phase_shown(app: AppView, phase: Seq<char>)
    ensures
        ({
            let next = app.handled(InputView::Update(UpdateView::Phase(phase)));
            &&& next.1 == Control::Continue
            &&& next.0.phase == phase
            &&& next.0 == (AppView { phase: next.0.phase, ..app })
        }),
{
}

/// A reading is shown with its speed and its time and goes behind the readings before it; how the
/// test stands and the session do not change.
pub proof fn lemma_reading_shown(app: AppView, sample: crate::speedtest::Sample)
    ensures
        ({
            let next = app.handled(InputView::Update(UpdateView::Sample(sample)));
            &&& next.1 == Control::Continue
            &&& next.0.phase == "Measuring download speed"@
            &&& next.0.speed == sample.speed_mbps && next.0.elapsed == sample.elapsed
            &&& next.0.samples.len() == app.samples.len() + 1
            &&& next.0.samples.last() == (sample.elapsed, sample.speed_mbps)
            &&& app.samples.is_prefix_of(next.0.samples)
            &&& next.0.status == app.status && next.0.task == app.task
            &&& next.0.result == app.result && next.0.error == app.error
            &&& next.0.history == app.history && next.0.animation == app.animation
        }),
{
    let next = app.applied(UpdateView::Sample(sample));
    assert(app.samples =~= next.samples.subrange(0, app.samples.len() as int));
}

/// A result ends the test: it is shown with its speed, comes first in the session, and the others
/// follow in their order, up to six in all. The readings stay on the screen.
pub proof fn lemma_result_shown(app: AppView, result: ResultView)
    ensures
        ({
            let next = app.handled(InputView::Update(UpdateView::Finished(result)));
            &&& next.1 == Control::Continue
            &&& next.0.status == Status::Done && !next.0.task
            &&& next.0.phase == "Run complete"@
            &&& next.0.speed == result.speed_mbps && next.0.result == Some(result)
            &&& next.0.history.len() == if app.history.len() < 6 {
                app.history.len() + 1
            } else {
                6
            }
            &&& next.0.history[0] == result
            &&& forall|i: int|
                0 < i < next.0.history.len() ==> #[trigger] next.0.history[i] == app.history[i - 1]
            &&& next.0.samples == app.samples && next.0.elapsed == app.elapsed
            &&& next.0.error == app.error && next.0.animation == app.animation
        }),
{
}

/// A failure ends the test: its reason is shown, and nothing else of the test or the session
/// changes.
pub proof fn lemma_failure_shown(app: AppView, error: Seq<char>)
    ensures
        ({
            let next = app.handled(InputView::Update(UpdateView::Failed(error)));
            &&& next.1 == Control::Continue
            &&& next.0.status == Status::Failed && !next.0.task
            &&& next.0.phase == "Test interrupted"@
            &&& next.0.error == Some(error)
            &&& next.0.speed == app.speed && next.0.elapsed == app.elapsed
            &&& next.0.samples == app.samples && next.0.result == app.result
            &&& next.0.history == app.history && next.0.animation == app.animation
        }),
{
}

/// The results among `inputs`, latest first.
pub open spec fn results_in(inputs: Seq<InputView>) -> Seq<ResultView>
    decreases inputs.len(),
{
    if inputs.len() == 0 {
        Seq::empty()
    } else {
        match inputs.last() {
            InputView::Update(UpdateView::Finished(result)) => seq![result] + results_in(
                inputs.drop_last(),
            ),
            _ => results_in(inputs.drop_last()),
        }
    }
}

/// Whatever happens on the screen, the session shows the results that have come in, latest first,
/// in front of those before them, and the latest six where there are more.
pub proof fn lemma_session_of_results(app: AppView, inputs: Seq<InputView>)
    requires
        app.history.len() <= 6,
    ensures
        ({
            let all = results_in(inputs) + app.history;
            after(app, inputs).history == if all.len() > 6 {
                all.take(6)
            } else {
                all
            }
        }),
    decreases inputs.len(),
{
    let all = results_in(inputs) + app.history;
    if inputs.len() > 0 {
        let rest = inputs.drop_last();
        let before = results_in(rest) + app.history;
        lemma_session_of_results(app, rest);
        if let InputView::Update(UpdateView::Finished(result)) = inputs.last() {
            assert(all =~= seq![result] + before);
            let held = if before.len() > 6 {
                before.take(6)
            } else {
                before
            };
            let results = seq![result] + held;
            if results.len() > 6 {
                assert(results.take(6) =~= all.take(6));
            } else {
                assert(results =~= all);
            }
        }
    } else {
        assert(all =~= app.history);
    }
}

/// The readings among `updates`, each with its time.
pub open spec fn readings_of(updates: Seq<UpdateView>) -> Seq<(u128, Binary64)>
    decreases updates.len(),
{
    if updates.len() == 0 {
        Seq::empty()
    } else {
        match updates.last() {
            UpdateView::Sample(sample) => readings_of(updates.drop_last()).push(
                (sample.elapsed, sample.speed_mbps),
            ),
            _ => readings_of(updates.drop_last()),
        }
    }
}

/// The screen shows all readings of a run, in their order, behind those that it showed before; and
/// it shows as done, failed or running as the last update tells.
pub proof fn lemma_readings_of_a_run(app: AppView, updates: Seq<UpdateView>)
    ensures
        shown(app, updates).samples == app.samples + readings_of(updates),
        updates.len() > 0 && updates.last() is Finished ==> shown(app, updates).status
            == Status::Done,
        updates.len() > 0 && updates.last() is Failed ==> shown(app, updates).status
            == Status::Failed,
        (forall|i: int| 0 <= i < updates.len() ==> !(#[trigger] updates[i]).is_last()) ==> shown(
            app,
            updates,
        ).status == app.status && shown(app, updates).task == app.task,
    decreases updates.len(),
{
    if updates.len() > 0 {
        let rest = updates.drop_last();
        lemma_readings_of_a_run(app, rest);
        assert(app.samples + readings_of(updates) =~= shown(app, updates).samples);
        if forall|i: int| 0 <= i < updates.len() ==> !(#[trigger] updates[i]).is_last() {
            assert forall|i: int| 0 <= i < rest.len() implies !(#[trigger] rest[i]).is_last() by {
                assert(rest[i] == updates[i]);
            }
            assert(!updates[updates.len() - 1].is_last());
        }
    } else {
        assert(app.samples + readings_of(updates) =~= app.samples);
    }
}

/// The screen begins as if a test were about to run, with nothing to show.
pub proof fn lemma_first_screen()
    ensures
        AppView::new().status == Status::Running,
        !AppView::new().task,
        AppView::new().phase == "Warming up"@,
        AppView::new().speed.bits == 0,
        AppView::new().elapsed == 0,
        AppView::new().samples.len() == 0,
        AppView::new().result is None,
        AppView::new().error is None,
        AppView::new().history.len() == 0,
        AppView::new().animation == 0,
{
}

} // verus!
