//! What the screen shows: its panels, what stands in them and where they stand.

use crate::binary64::{
    lemma_named_numbers, lemma_patterns, lemma_units_strictly_increase, one, Binary64,
    FIVE_HUNDRED_BITS, HUNDRED_BITS, TEN_BITS, TWENTY_FIVE_BITS,
};
use crate::download::TEST_DURATION;
use crate::layout::{
    inside, lemma_head_and_rest, lemma_header_body_footer, lemma_two_columns, split, Axis, Rect,
    Share,
};
use crate::style::{
    add_line, bold, border, colored, cyan, dim, frame, green, lines_view, no_border, no_lines,
    plain, purple, span, styled, Border, BorderView, Chart, ChartView, Color, Line, Paragraph,
    ParagraphView, SpanView, Wrapping,
};
use crate::text::{
    copies, decimal, decimal_two, digits, lemma_copies_len, lemma_copies_of_one,
    lemma_digits_read_back, lemma_padded, lemma_two_digits_read_back, number, pad, padded, repeat,
    two_digits,
};
use crate::tui::{App, AppView, Status};
use vstd::prelude::*;
use vstd::string::*;
use vstd::utf8::encode_utf8;

verus! {

/// The numbers of the screen in writing, each with one digit behind the point.
#[derive(Debug)]
pub struct Figures {
    /// The seconds that the download has been running, at least four characters wide.
    pub elapsed: String,
    /// The speed that is shown, in megabits per second.
    pub speed: String,
    /// The data of the result that is shown, in megabytes.
    pub data: String,
    /// The speeds of the remembered results, latest first, each at least seven characters wide.
    pub laps: Vec<String>,
}

/// The numbers of the screen in writing.
pub struct FiguresView {
    pub elapsed: Seq<char>,
    pub speed: Seq<char>,
    pub data: Seq<char>,
    pub laps: Seq<Seq<char>>,
}

impl View for Figures {
    type V = FiguresView;

    open spec fn view(&self) -> FiguresView {
        FiguresView {
            elapsed: self.elapsed@,
            speed: self.speed@,
            data: self.data@,
            laps: self.laps@.map_values(|l: String| l@),
        }
    }
}

/// A remark on a connection of that speed.
pub open spec fn mood(speed: Binary64) -> Seq<char> {
    if speed.nan() {
        "taking the scenic route"@
    } else if speed.value() >= 500 * one() {
        "warp speed — ridiculously fast"@
    } else if speed.value() >= 100 * one() {
        "flying — 4K has room to spare"@
    } else if speed.value() >= 25 * one() {
        "cruising — streaming looks great"@
    } else if speed.value() >= 10 * one() {
        "steady — everyday browsing is covered"@
    } else {
        "taking the scenic route"@
    }
}

/// A remark on a connection of that speed, in megabits per second.
pub fn connection_mood(speed: Binary64) -> (r: &'static str)
    ensures
        r@ == mood(speed),
{
    proof {
        lemma_named_numbers();
    }
    if speed.at_least(Binary64 { bits: FIVE_HUNDRED_BITS }) {
        "warp speed — ridiculously fast"
    } else if speed.at_least(Binary64 { bits: HUNDRED_BITS }) {
        "flying — 4K has room to spare"
    } else if speed.at_least(Binary64 { bits: TWENTY_FIVE_BITS }) {
        "cruising — streaming looks great"
    } else if speed.at_least(Binary64 { bits: TEN_BITS }) {
        "steady — everyday browsing is covered"
    } else {
        "taking the scenic route"
    }
}

/// The highest speed among the readings, and ten at least.
pub open spec fn peak_of(samples: Seq<(u128, Binary64)>) -> Binary64
    decreases samples.len(),
{
    if samples.len() == 0 {
        Binary64 { bits: TEN_BITS }
    } else {
        let before = peak_of(samples.drop_last());
        let speed = samples.last().1;
        if !speed.nan() && speed.value() > before.value() {
            speed
        } else {
            before
        }
    }
}

/// The peak is ten or one of the readings, and no reading and not ten is above it.
pub proof fn lemma_peak(samples: Seq<(u128, Binary64)>)
    ensures
        !peak_of(samples).nan(),
        peak_of(samples).value() >= 10 * one(),
        forall|i: int|
            0 <= i < samples.len() && !(#[trigger] samples[i]).1.nan() ==> samples[i].1.value()
                <= peak_of(samples).value(),
        peak_of(samples) == (Binary64 { bits: TEN_BITS }) || exists|i: int|
            0 <= i < samples.len() && (#[trigger] samples[i]).1 == peak_of(samples),
    decreases samples.len(),
{
    lemma_named_numbers();
    if samples.len() > 0 {
        let rest = samples.drop_last();
        lemma_peak(rest);
        assert forall|i: int|
            0 <= i < samples.len() && !(#[trigger] samples[i]).1.nan() implies samples[i].1.value()
            <= peak_of(samples).value() by {
            if i < rest.len() {
                assert(rest[i] == samples[i]);
            }
        }
        if peak_of(samples) == peak_of(rest) {
            if peak_of(rest) != (Binary64 { bits: TEN_BITS }) {
                let i = choose|i: int|
                    0 <= i < rest.len() && (#[trigger] rest[i]).1 == peak_of(rest);
                assert(samples[i] == rest[i]);
            }
        } else {
            assert(samples[samples.len() - 1].1 == peak_of(samples));
        }
    }
}

/// The highest speed among the readings, and ten at least.
pub fn peak(samples: &Vec<(u128, Binary64)>) -> (r: Binary64)
    ensures
        r == peak_of(samples@),
{
    let mut r = Binary64 { bits: TEN_BITS };
    let mut i: usize = 0;
    proof {
        assert(samples@.take(0) =~= Seq::empty());
    }
    while i < samples.len()
        invariant
            i <= samples.len(),
            r == peak_of(samples@.take(i as int)),
        decreases samples.len() - i,
    {
        let speed = samples[i].1;
        proof {
            assert(samples@.take(i + 1).drop_last() =~= samples@.take(i as int));
            lemma_peak(samples@.take(i as int));
        }
        if !speed.is_nan() && !r.at_least(speed) {
            r = speed;
        }
        i = i + 1;
    }
    proof {
        assert(samples@.take(i as int) =~= samples@);
    }
    r
}

/// How many bytes the text takes.
pub open spec fn byte_len(s: Seq<char>) -> usize {
    encode_utf8(s).len() as usize
}

/// The frames of the spinning mark.
pub open spec fn spinner() -> Seq<Seq<char>> {
    seq!["⠋"@, "⠙"@, "⠹"@, "⠸"@, "⠼"@, "⠴"@, "⠦"@, "⠧"@]
}

/// The frame of the spinning mark after `animation` ticks: each stands for two.
pub open spec fn spinner_frame(animation: usize) -> Seq<char> {
    spinner()[(animation / 2) as int % 8]
}

/// The left part of the header.
pub open spec fn indicator(app: AppView) -> Seq<char> {
    match app.status {
        Status::Running => spinner_frame(app.animation) + "  "@ + app.phase,
        Status::Done => "●  Ready for another lap"@,
        Status::Failed => "!  Something got in the way"@,
    }
}

/// The right part of the header.
pub open spec fn clock(app: AppView, figures: FiguresView) -> Seq<char> {
    if app.status == Status::Running {
        figures.elapsed + "s / 10s"@
    } else {
        "SPACE TO RUN"@
    }
}

/// The columns that the two parts of the header and its margins take, by their bytes.
pub open spec fn header_columns(app: AppView, figures: FiguresView) -> int {
    byte_len(indicator(app)) as int % 0x1_0000 + byte_len(clock(app, figures)) as int % 0x1_0000 + 6
}

/// The spaces between the two parts of the header.
pub open spec fn header_gap(width: u16, app: AppView, figures: FiguresView) -> nat {
    let taken = header_columns(app, figures);
    if taken <= width {
        (width - taken) as nat
    } else {
        0
    }
}

/// The header: the state of the test on the left, the clock on the right.
pub open spec fn header_panel(width: u16, app: AppView, figures: FiguresView) -> ParagraphView {
    ParagraphView {
        lines: seq![
            seq![
                styled("  "@ + indicator(app), colored(cyan())),
                styled(copies(" "@, header_gap(width, app, figures)), plain()),
                styled(clock(app, figures), colored(dim())),
            ],
        ],
        style: plain(),
        centered: false,
        wrapping: Wrapping::Cut,
        border: BorderView { bottom: true, ..no_border() },
    }
}

fn spinner_text(animation: usize) -> (r: &'static str)
    ensures
        r@ == spinner_frame(animation),
{
    match (animation / 2) % 8 {
        0 => "⠋",
        1 => "⠙",
        2 => "⠹",
        3 => "⠸",
        4 => "⠼",
        5 => "⠴",
        6 => "⠦",
        _ => "⠧",
    }
}

fn indicator_text(app: &App) -> (r: String)
    ensures
        r@ == indicator(app@),
{
    match app.status() {
        Status::Running => {
            let mut r = spinner_text(app.animation()).to_owned();
            r.append("  ");
            r.append(app.phase());
            r
        },
        Status::Done => "●  Ready for another lap".to_owned(),
        Status::Failed => "!  Something got in the way".to_owned(),
    }
}

fn clock_text(app: &App, figures: &Figures) -> (r: String)
    ensures
        r@ == clock(app@, figures@),
{
    match app.status() {
        Status::Running => {
            let mut r = figures.elapsed.clone();
            r.append("s / 10s");
            r
        },
        _ => "SPACE TO RUN".to_owned(),
    }
}

/// The header: the state of the test on the left, the clock on the right.
pub fn draw_header(width: u16, app: &App, figures: &Figures) -> (r: Paragraph)
    requires
        header_columns(app@, figures@) <= u16::MAX,
    ensures
        r@ == header_panel(width, app@, figures@),
{
    let left = indicator_text(app);
    let right = clock_text(app, figures);
    let left_columns: u16 = (left.as_str().len() % 0x1_0000) as u16;
    let right_columns: u16 = (right.as_str().len() % 0x1_0000) as u16;
    let taken: u16 = left_columns + right_columns + 6;
    let gap: u16 = if taken <= width {
        width - taken
    } else {
        0
    };
    let mut shown = "  ".to_owned();
    shown.append(left.as_str());
    let line = Line::empty().with(span(shown.as_str(), colored(cyan()))).with(
        span(repeat(" ", gap as usize).as_str(), plain()),
    ).with(span(right.as_str(), colored(dim())));
    let mut lines = no_lines();
    add_line(&mut lines, line);
    proof {
        assert(line@ =~= header_panel(width, app@, figures@).lines[0]);
        assert(lines_view(lines@) =~= header_panel(width, app@, figures@).lines);
    }
    Paragraph {
        lines,
        style: plain(),
        centered: false,
        wrapping: Wrapping::Cut,
        border: border(false, false, true),
    }
}

/// The screen `n` frames later.
pub open spec fn ticked_times(app: AppView, n: nat) -> AppView
    decreases n,
{
    if n == 0 {
        app
    } else {
        ticked_times(app, (n - 1) as nat).ticked()
    }
}

/// The count of the ticks wraps around behind its largest value.
proof fn lemma_ticks_wrap(app: AppView, n: nat)
    requires
        n <= 16,
    ensures
        ticked_times(app, n).animation == if app.animation + n <= usize::MAX {
            app.animation + n
        } else {
            app.animation + n - usize::MAX - 1
        },
    decreases n,
{
    if n > 0 {
        lemma_ticks_wrap(app, (n - 1) as nat);
    }
}

/// Every two ticks the spinning mark goes on by one frame, and so it goes round once in sixteen,
/// also where the count of the ticks wraps around.
pub proof fn lemma_spinner_goes_round(app: AppView)
    ensures
        spinner_frame(ticked_times(app, 2).animation) == spinner()[((app.animation / 2) as int % 8
            + 1) % 8],
        spinner_frame(ticked_times(app, 16).animation) == spinner_frame(app.animation),
{
    lemma_ticks_wrap(app, 2);
    lemma_ticks_wrap(app, 16);
    assert(usize::MAX == 0xffff_ffff || usize::MAX == 0xffff_ffff_ffff_ffff);
}

/// No character takes more than four bytes.
proof fn lemma_encoded_len(s: Seq<char>)
    ensures
        encode_utf8(s).len() <= 4 * s.len(),
    decreases s.len(),
{
    if s.len() > 0 {
        lemma_encoded_len(s.drop_first());
    }
}

/// With a phase and a clock of up to four thousand characters, and with any that does not show as
/// running, the columns of the header can be counted.
pub proof fn lemma_header_can_be_counted(app: AppView, figures: FiguresView)
    requires
        app.status == Status::Running ==> app.phase.len() <= 4000 && figures.elapsed.len() <= 4000,
    ensures
        header_columns(app, figures) <= u16::MAX,
{
    reveal_strlit("⠋");
    reveal_strlit("⠙");
    reveal_strlit("⠹");
    reveal_strlit("⠸");
    reveal_strlit("⠼");
    reveal_strlit("⠴");
    reveal_strlit("⠦");
    reveal_strlit("⠧");
    reveal_strlit("  ");
    reveal_strlit("●  Ready for another lap");
    reveal_strlit("!  Something got in the way");
    reveal_strlit("s / 10s");
    reveal_strlit("SPACE TO RUN");
    lemma_encoded_len(indicator(app));
    lemma_encoded_len(clock(app, figures));
}

/// The colour of the headline.
pub open spec fn headline_color(app: AppView) -> Color {
    if app.status == Status::Failed {
        Color::Red
    } else {
        green()
    }
}

/// The speed in large, or that there is none.
pub open spec fn headline(app: AppView, figures: FiguresView) -> Seq<char> {
    if app.status == Status::Failed {
        "NO SIGNAL"@
    } else {
        figures.speed
    }
}

/// The remark below the headline.
pub open spec fn subtitle(app: AppView) -> Seq<char> {
    match app.status {
        Status::Failed => match app.error {
            Some(error) => error,
            None => "Unknown network error"@,
        },
        Status::Done => mood(app.speed),
        Status::Running => if !app.speed.nan() && app.speed.value() == 0 {
            "getting the runway clear…"@
        } else {
            "Mbps right now"@
        },
    }
}

/// The panel of the speed.
pub open spec fn speed_panel(app: AppView, figures: FiguresView) -> ParagraphView {
    ParagraphView {
        lines: seq![
            seq![styled(headline(app, figures), bold(headline_color(app)))],
            seq![styled(subtitle(app), colored(dim()))],
        ],
        style: plain(),
        centered: true,
        wrapping: Wrapping::Cut,
        border: BorderView { right: true, ..no_border() },
    }
}

/// The upper end of the chart, in hundredths of the highest speed.
pub const HEADROOM_PERCENT: u16 = 115;

/// The chart of the readings: all of them, over the time that a download runs.
pub open spec fn chart_panel(app: AppView) -> ChartView {
    ChartView {
        name: "live"@,
        color: purple(),
        axis: frame(),
        points: app.samples,
        span: TEST_DURATION,
        peak: peak_of(app.samples),
        headroom_percent: HEADROOM_PERCENT,
        border: BorderView {
            top: true,
            right: true,
            title: seq![styled(" THROUGHPUT "@, colored(dim()))],
            ..no_border()
        },
    }
}

/// The same readings once more.
fn copied(samples: &Vec<(u128, Binary64)>) -> (r: Vec<(u128, Binary64)>)
    ensures
        r@ == samples@,
{
    let mut r: Vec<(u128, Binary64)> = Vec::new();
    let mut i: usize = 0;
    while i < samples.len()
        invariant
            i <= samples.len(),
            r@ == samples@.take(i as int),
        decreases samples.len() - i,
    {
        r.push(samples[i]);
        i = i + 1;
    }
    proof {
        assert(samples@.take(i as int) =~= samples@);
    }
    r
}

fn subtitle_text(app: &App) -> (r: String)
    ensures
        r@ == subtitle(app@),
{
    match app.status() {
        Status::Failed => match app.error() {
            Some(error) => error.clone(),
            None => "Unknown network error".to_owned(),
        },
        Status::Done => connection_mood(app.speed()).to_owned(),
        Status::Running => if app.speed().is_zero() {
            "getting the runway clear…".to_owned()
        } else {
            "Mbps right now".to_owned()
        },
    }
}

/// The panel of the speed, and the chart of the readings below it.
pub fn draw_speed(app: &App, figures: &Figures) -> (r: (Paragraph, Chart))
    ensures
        r.0@ == speed_panel(app@, figures@),
        r.1@ == chart_panel(app@),
{
    let failed = match app.status() {
        Status::Failed => true,
        _ => false,
    };
    let headline = if failed {
        span("NO SIGNAL", bold(Color::Red))
    } else {
        span(figures.speed.as_str(), bold(green()))
    };
    let subtitle = span(subtitle_text(app).as_str(), colored(dim()));
    let mut lines = no_lines();
    add_line(&mut lines, Line::empty().with(headline));
    add_line(&mut lines, Line::empty().with(subtitle));
    proof {
        assert(lines_view(lines@)[0] =~= speed_panel(app@, figures@).lines[0]);
        assert(lines_view(lines@)[1] =~= speed_panel(app@, figures@).lines[1]);
        assert(lines_view(lines@) =~= speed_panel(app@, figures@).lines);
    }
    let panel = Paragraph {
        lines,
        style: plain(),
        centered: true,
        wrapping: Wrapping::Cut,
        border: border(false, true, false),
    };
    let title = Line::empty().with(span(" THROUGHPUT ", colored(dim())));
    let chart = Chart {
        name: "live",
        color: purple(),
        axis: frame(),
        points: copied(app.samples()),
        span: TEST_DURATION,
        peak: peak(app.samples()),
        headroom_percent: HEADROOM_PERCENT,
        border: Border { title, ..border(true, true, false) },
    };
    (panel, chart)
}

/// A heading of the session panel.
pub open spec fn heading(text: Seq<char>) -> Seq<SpanView> {
    seq![styled(text, bold(purple()))]
}

/// A remark in the session panel.
pub open spec fn remark(text: Seq<char>) -> Seq<SpanView> {
    seq![styled(text, colored(dim()))]
}

/// A value with its name in front.
pub open spec fn metric_line(label: Seq<char>, value: Seq<char>) -> Seq<SpanView> {
    seq![
        styled("  "@ + padded(label, 7), colored(dim())),
        styled(value, colored(Color::White)),
    ]
}

/// What the session panel says of the test.
pub open spec fn session_lines(app: AppView, figures: FiguresView) -> Seq<Seq<SpanView>> {
    match app.result {
        Some(result) => seq![
            Seq::empty(),
            metric_line("PING"@, digits(result.latency_ms as nat) + " ms"@),
            metric_line("SERVER"@, result.server),
            metric_line("YOU"@, result.client),
            metric_line("DATA"@, figures.data + " MB"@),
        ],
        None => if app.status == Status::Running {
            seq![
                Seq::empty(),
                remark("  Racing packets across"@),
                remark("  Netflix's network…"@),
            ]
        } else {
            Seq::empty()
        },
    }
}

/// The line of the remembered result number `i`.
pub open spec fn lap_line(figures: FiguresView, i: int) -> Seq<SpanView> {
    seq![
        styled("  "@ + two_digits((i + 1) as nat) + "  "@, colored(dim())),
        styled(figures.laps[i] + " Mbps"@, colored(green())),
    ]
}

/// What the session panel says of the first `n` remembered results.
pub open spec fn lap_lines(figures: FiguresView, n: nat) -> Seq<Seq<SpanView>> {
    Seq::new(n, |i: int| lap_line(figures, i))
}

/// What the session panel says of the session.
pub open spec fn recent_lines(app: AppView, figures: FiguresView) -> Seq<Seq<SpanView>> {
    if app.history.len() == 0 {
        seq![remark("  Laps appear here."@)]
    } else {
        lap_lines(figures, app.history.len())
    }
}

/// The panel of the session.
pub open spec fn history_panel(app: AppView, figures: FiguresView) -> ParagraphView {
    ParagraphView {
        lines: seq![heading("  SESSION"@)] + session_lines(app, figures) + seq![
            Seq::empty(),
            heading("  RECENT RUNS"@),
            Seq::empty(),
        ] + recent_lines(app, figures),
        style: plain(),
        centered: false,
        wrapping: Wrapping::Keep,
        border: no_border(),
    }
}

fn heading_of(text: &str) -> (r: Line)
    ensures
        r@ == heading(text@),
{
    Line::empty().with(span(text, bold(purple())))
}

fn remark_of(text: &str) -> (r: Line)
    ensures
        r@ == remark(text@),
{
    Line::empty().with(span(text, colored(dim())))
}

/// A value with its name in front.
pub fn metric(label: &str, value: &str) -> (r: Line)
    ensures
        r@ == metric_line(label@, value@),
{
    let mut name = "  ".to_owned();
    name.append(pad(label, 7).as_str());
    Line::empty().with(span(name.as_str(), colored(dim()))).with(
        span(value, colored(Color::White)),
    )
}

/// `text` with `end` behind it.
fn joined(text: &str, end: &str) -> (r: String)
    ensures
        r@ == text@ + end@,
{
    let mut r = text.to_owned();
    r.append(end);
    r
}

/// The panel of the session.
pub fn draw_history(app: &App, figures: &Figures) -> (r: Paragraph)
    requires
        figures@.laps.len() == app@.history.len(),
    ensures
        r@ == history_panel(app@, figures@),
{
    let ghost session = session_lines(app@, figures@);
    let mut lines = no_lines();
    add_line(&mut lines, heading_of("  SESSION"));
    match app.result() {
        Some(result) => {
            add_line(&mut lines, Line::empty());
            let latency = joined(decimal(result.latency_ms).as_str(), " ms");
            add_line(&mut lines, metric("PING", latency.as_str()));
            add_line(&mut lines, metric("SERVER", result.server.as_str()));
            add_line(&mut lines, metric("YOU", result.client.as_str()));
            let data = joined(figures.data.as_str(), " MB");
            add_line(&mut lines, metric("DATA", data.as_str()));
        },
        None => {
            let running = match app.status() {
                Status::Running => true,
                _ => false,
            };
            if running {
                add_line(&mut lines, Line::empty());
                add_line(&mut lines, remark_of("  Racing packets across"));
                add_line(&mut lines, remark_of("  Netflix's network…"));
            }
        },
    }
    proof {
        assert(lines_view(lines@) =~= seq![heading("  SESSION"@)] + session);
    }
    add_line(&mut lines, Line::empty());
    add_line(&mut lines, heading_of("  RECENT RUNS"));
    add_line(&mut lines, Line::empty());
    let ghost upper = lines_view(lines@);
    proof {
        assert(upper =~= seq![heading("  SESSION"@)] + session + seq![
            Seq::empty(),
            heading("  RECENT RUNS"@),
            Seq::empty(),
        ]);
    }
    let laps: usize = figures.laps.len();
    if laps == 0 {
        add_line(&mut lines, remark_of("  Laps appear here."));
        proof {
            assert(lines_view(lines@) =~= upper + recent_lines(app@, figures@));
        }
    } else {
        let mut i: usize = 0;
        proof {
            assert(upper =~= upper + lap_lines(figures@, 0));
        }
        while i < laps
            invariant
                i <= laps,
                laps == figures.laps.len(),
                lines_view(lines@) == upper + lap_lines(figures@, i as nat),
            decreases laps - i,
        {
            let mut number = "  ".to_owned();
            number.append(decimal_two(i as u64 + 1).as_str());
            number.append("  ");
            let speed = joined(figures.laps[i].as_str(), " Mbps");
            let line = Line::empty().with(span(number.as_str(), colored(dim()))).with(
                span(speed.as_str(), colored(green())),
            );
            proof {
                assert(line@ =~= lap_line(figures@, i as int));
            }
            add_line(&mut lines, line);
            proof {
                assert(lines_view(lines@) =~= upper + lap_lines(figures@, (i + 1) as nat));
            }
            i = i + 1;
        }
    }
    Paragraph {
        lines,
        style: plain(),
        centered: false,
        wrapping: Wrapping::Keep,
        border: border(false, false, false),
    }
}

/// How many columns the runner has.
pub open spec fn track(width: u16) -> nat {
    if width > 35 {
        (width - 34) as nat
    } else {
        1
    }
}

/// The runner of the footer: it is one mark further on its track every two ticks.
pub open spec fn runner(width: u16, app: AppView) -> Seq<char> {
    if app.status == Status::Running {
        let at = (app.animation / 2) as int % track(width) as int;
        copies("·"@, at as nat) + "◆"@ + copies("·"@, (track(width) - at - 1) as nat)
    } else {
        "────────────────────"@
    }
}

/// The footer: the runner and the keys.
pub open spec fn footer_panel(width: u16, app: AppView) -> ParagraphView {
    ParagraphView {
        lines: seq![
            seq![
                styled("  "@ + runner(width, app) + "  "@, colored(purple())),
                styled("SPACE/ENTER"@, bold(cyan())),
                styled(" rerun   "@, colored(dim())),
                styled("Q"@, bold(cyan())),
                styled(" quit"@, colored(dim())),
            ],
        ],
        style: plain(),
        centered: true,
        wrapping: Wrapping::Cut,
        border: BorderView { top: true, ..no_border() },
    }
}

/// The runner fills its track, whatever the time.
pub proof fn lemma_runner_fills_its_track(width: u16, app: AppView)
    requires
        app.status == Status::Running,
    ensures
        runner(width, app).len() == track(width),
        runner(width, app)[(app.animation / 2) as int % track(width) as int] == '◆',
{
    reveal_strlit("·");
    reveal_strlit("◆");
    let at = (app.animation / 2) as int % track(width) as int;
    lemma_copies_len("·"@, at as nat);
    lemma_copies_len("·"@, (track(width) - at - 1) as nat);
}

/// The footer: the runner and the keys.
pub fn draw_footer(width: u16, app: &App) -> (r: Paragraph)
    ensures
        r@ == footer_panel(width, app@),
{
    let running = match app.status() {
        Status::Running => true,
        _ => false,
    };
    let runner = if running {
        let track: usize = if width > 35 {
            width as usize - 34
        } else {
            1
        };
        let at: usize = (app.animation() / 2) % track;
        let mut r = repeat("·", at);
        r.append("◆");
        r.append(repeat("·", track - at - 1).as_str());
        r
    } else {
        "────────────────────".to_owned()
    };
    let mut shown = "  ".to_owned();
    shown.append(runner.as_str());
    shown.append("  ");
    let line = Line::empty().with(span(shown.as_str(), colored(purple()))).with(
        span("SPACE/ENTER", bold(cyan())),
    ).with(span(" rerun   ", colored(dim()))).with(span("Q", bold(cyan()))).with(
        span(" quit", colored(dim())),
    );
    let mut lines = no_lines();
    add_line(&mut lines, line);
    proof {
        assert(line@ =~= footer_panel(width, app@).lines[0]);
        assert(lines_view(lines@) =~= footer_panel(width, app@).lines);
    }
    Paragraph {
        lines,
        style: plain(),
        centered: true,
        wrapping: Wrapping::Cut,
        border: border(true, false, false),
    }
}

/// The narrowest screen.
pub const LEAST_WIDTH: u16 = 58;

/// The lowest screen.
pub const LEAST_HEIGHT: u16 = 18;

/// Where the panels stand.
#[derive(Clone, Copy, Debug, PartialEq, Eq, Structural)]
pub struct Areas {
    /// The header.
    pub header: Rect,
    /// The speed.
    pub speed: Rect,
    /// The chart.
    pub chart: Rect,
    /// The session.
    pub history: Rect,
    /// The footer.
    pub footer: Rect,
}

/// Whether there is room for the panels.
pub open spec fn has_room(area: Rect) -> bool {
    area.width >= LEAST_WIDTH && area.height >= LEAST_HEIGHT
}

/// Where the panels stand on a screen with room for them: inside the border a header and a footer
/// of three rows; between them 68 hundredths of the columns for the speed, in six rows, and the
/// chart below it, and the other columns for the session.
pub open spec fn areas_of(area: Rect) -> Areas {
    let inner = area.inside_border();
    let cut = (68 * inner.width + 50) / 100;
    let top = inner.y + 3;
    let body = inner.height - 6;
    Areas {
        header: Rect { height: 3, ..inner },
        speed: Rect { x: inner.x, y: top as u16, width: cut as u16, height: 6 },
        chart: Rect {
            x: inner.x,
            y: (top + 6) as u16,
            width: cut as u16,
            height: (body - 6) as u16,
        },
        history: Rect {
            x: (inner.x + cut) as u16,
            y: top as u16,
            width: (inner.width - cut) as u16,
            height: body as u16,
        },
        footer: Rect { y: (inner.y + inner.height - 3) as u16, height: 3, ..inner },
    }
}

/// The panels lie inside the border, no two of them share a cell, and together they have as many
/// cells as there are: nothing is left over.
pub proof fn lemma_panels_fill_the_screen(area: Rect)
    requires
        area.wf(),
        has_room(area),
    ensures
        ({
            let a = areas_of(area);
            let inner = area.inside_border();
            &&& area.contains(inner)
            &&& inner.contains(a.header) && inner.contains(a.speed) && inner.contains(a.chart)
            &&& inner.contains(a.history) && inner.contains(a.footer)
            &&& a.header.apart(a.speed) && a.header.apart(a.chart) && a.header.apart(a.history)
            &&& a.header.apart(a.footer) && a.speed.apart(a.chart) && a.speed.apart(a.history)
            &&& a.speed.apart(a.footer) && a.chart.apart(a.history) && a.chart.apart(a.footer)
            &&& a.history.apart(a.footer)
            &&& a.header.height + a.speed.height + a.chart.height + a.footer.height == inner.height
            &&& a.history.height == a.speed.height + a.chart.height
            &&& a.speed.width == a.chart.width
            &&& a.speed.width + a.history.width == inner.width
            &&& a.chart.height >= 4
            &&& a.speed.width > a.history.width
            &&& a.history.width > 0
        }),
{
}

/// The areas of the panels on a screen with room for them.
pub fn arrange(area: Rect) -> (r: Areas)
    requires
        area.wf(),
        has_room(area),
    ensures
        r == areas_of(area),
{
    let inner = inside(area);
    let rows_shares: Vec<Share> = vec![Share::Length(3), Share::Least(9), Share::Length(3)];
    proof {
        assert(rows_shares@ =~= seq![Share::Length(3), Share::Least(9), Share::Length(3)]);
        lemma_header_body_footer(3, 9, 3, inner);
    }
    let rows = split(Axis::Vertical, &rows_shares, inner);
    let body_shares: Vec<Share> = vec![Share::Percent(68), Share::Percent(32)];
    proof {
        assert(body_shares@ =~= seq![Share::Percent(68), Share::Percent(32)]);
        lemma_two_columns(68, 32, rows@[1]);
    }
    let body = split(Axis::Horizontal, &body_shares, rows[1]);
    let sections_shares: Vec<Share> = vec![Share::Length(6), Share::Least(4)];
    proof {
        assert(sections_shares@ =~= seq![Share::Length(6), Share::Least(4)]);
        lemma_head_and_rest(6, 4, body@[0]);
    }
    let sections = split(Axis::Vertical, &sections_shares, body[0]);
    Areas {
        header: rows[0],
        speed: sections[0],
        chart: sections[1],
        history: body[1],
        footer: rows[2],
    }
}

/// The whole screen.
#[derive(Debug)]
pub enum Screen {
    /// There is no room for the panels.
    TooSmall {
        /// What it says instead.
        notice: Paragraph,
    },
    /// The panels.
    Full {
        /// Where they stand.
        areas: Areas,
        /// The border of the screen.
        shell: Border,
        /// The header.
        header: Paragraph,
        /// The speed.
        speed: Paragraph,
        /// The chart.
        chart: Chart,
        /// The session.
        history: Paragraph,
        /// The footer.
        footer: Paragraph,
    },
}

/// The whole screen.
pub enum ScreenView {
    TooSmall { notice: ParagraphView },
    Full {
        areas: Areas,
        shell: BorderView,
        header: ParagraphView,
        speed: ParagraphView,
        chart: ChartView,
        history: ParagraphView,
        footer: ParagraphView,
    },
}

impl View for Screen {
    type V = ScreenView;

    open spec fn view(&self) -> ScreenView {
        match self {
            Screen::TooSmall { notice } => ScreenView::TooSmall { notice: notice@ },
            Screen::Full { areas, shell, header, speed, chart, history, footer } => ScreenView::Full {
                areas: *areas,
                shell: shell@,
                header: header@,
                speed: speed@,
                chart: chart@,
                history: history@,
                footer: footer@,
            },
        }
    }
}

/// What is said where there is no room for the panels.
pub open spec fn too_small_notice() -> ParagraphView {
    ParagraphView {
        lines: seq![
            seq![styled("speed needs a terminal at least 58 × 18"@, plain())],
            Seq::empty(),
            seq![styled("Resize the window, or press q to quit."@, plain())],
        ],
        style: colored(cyan()),
        centered: true,
        wrapping: Wrapping::Trim,
        border: no_border(),
    }
}

/// The border of the screen.
pub open spec fn shell_border() -> BorderView {
    BorderView {
        top: true,
        right: true,
        bottom: true,
        left: true,
        color: frame(),
        title: seq![
            styled(" SPEED "@, bold(cyan())),
            styled("// FAST.COM "@, colored(dim())),
        ],
    }
}

/// Whether the screen can be drawn: where there is room for the panels, each remembered result
/// comes with its speed in writing, and the columns of the header can be counted.
pub open spec fn is_drawable(area: Rect, app: AppView, figures: FiguresView) -> bool {
    has_room(area) ==> figures.laps.len() == app.history.len() && header_columns(app, figures)
        <= u16::MAX
}

/// The screen of that size.
pub open spec fn screen_of(area: Rect, app: AppView, figures: FiguresView) -> ScreenView {
    if has_room(area) {
        let areas = areas_of(area);
        ScreenView::Full {
            areas,
            shell: shell_border(),
            header: header_panel(areas.header.width, app, figures),
            speed: speed_panel(app, figures),
            chart: chart_panel(app),
            history: history_panel(app, figures),
            footer: footer_panel(areas.footer.width, app),
        }
    } else {
        ScreenView::TooSmall { notice: too_small_notice() }
    }
}

/// Whether the screen can be drawn with these numbers.
pub fn drawable(area: Rect, app: &App, figures: &Figures) -> (r: bool)
    ensures
        r == is_drawable(area, app@, figures@),
{
    if area.width < LEAST_WIDTH || area.height < LEAST_HEIGHT {
        return true;
    }
    let left = indicator_text(app);
    let right = clock_text(app, figures);
    let columns: usize = left.as_str().len() % 0x1_0000 + right.as_str().len() % 0x1_0000 + 6;
    let laps: usize = app.history().len();
    proof {
        assert(app@.history.len() == laps);
    }
    figures.laps.len() == laps && columns <= 0xffff
}

fn notice() -> (r: Paragraph)
    ensures
        r@ == too_small_notice(),
{
    let mut lines = no_lines();
    let first = Line::empty().with(span("speed needs a terminal at least 58 × 18", plain()));
    let last = Line::empty().with(span("Resize the window, or press q to quit.", plain()));
    add_line(&mut lines, first);
    add_line(&mut lines, Line::empty());
    add_line(&mut lines, last);
    proof {
        assert(first@ =~= too_small_notice().lines[0]);
        assert(last@ =~= too_small_notice().lines[2]);
        assert(lines_view(lines@) =~= too_small_notice().lines);
    }
    Paragraph {
        lines,
        style: colored(cyan()),
        centered: true,
        wrapping: Wrapping::Trim,
        border: border(false, false, false),
    }
}

/// The screen on that area.
pub fn draw(area: Rect, app: &App, figures: &Figures) -> (r: Screen)
    requires
        has_room(area) ==> area.wf(),
        is_drawable(area, app@, figures@),
    ensures
        r@ == screen_of(area, app@, figures@),
{
    if area.width < LEAST_WIDTH || area.height < LEAST_HEIGHT {
        return Screen::TooSmall { notice: notice() };
    }
    let areas = arrange(area);
    let title = Line::empty().with(span(" SPEED ", bold(cyan()))).with(
        span("// FAST.COM ", colored(dim())),
    );
    let shell = Border {
        top: true,
        right: true,
        bottom: true,
        left: true,
        color: frame(),
        title,
    };
    proof {
        assert(shell@.title =~= shell_border().title);
    }
    let (speed, chart) = draw_speed(app, figures);
    Screen::Full {
        areas,
        shell,
        header: draw_header(areas.header.width, app, figures),
        speed,
        chart,
        history: draw_history(app, figures),
        footer: draw_footer(areas.footer.width, app),
    }
}

proof fn lemma_at_least(speed: Binary64, bound: u64)
    requires
        0 < bound < 0x7ff0_0000_0000_0000,
    ensures
        !speed.nan() && speed.value() >= crate::binary64::units(bound as int) <==> bound
            <= speed.bits <= 0x7ff0_0000_0000_0000,
{
    lemma_patterns(speed);
    lemma_units_strictly_increase(0, bound as int);
    if speed.bits < bound {
        lemma_units_strictly_increase(speed.bits as int, bound as int);
    }
    if bound < speed.bits < 0x8000_0000_0000_0000 {
        lemma_units_strictly_increase(bound as int, speed.bits as int);
    }
}

/// The remark on a connection goes up at ten, twenty-five, one hundred and five hundred megabits
/// per second, each of them included, as told by the bits of these numbers; what is no number gets
/// the lowest.
pub proof fn lemma_moods(speed: Binary64)
    ensures
        0x407f_4000_0000_0000 <= speed.bits <= 0x7ff0_0000_0000_0000 ==> mood(speed)
            == "warp speed — ridiculously fast"@,
        0x4059_0000_0000_0000 <= speed.bits < 0x407f_4000_0000_0000 ==> mood(speed)
            == "flying — 4K has room to spare"@,
        0x4039_0000_0000_0000 <= speed.bits < 0x4059_0000_0000_0000 ==> mood(speed)
            == "cruising — streaming looks great"@,
        0x4024_0000_0000_0000 <= speed.bits < 0x4039_0000_0000_0000 ==> mood(speed)
            == "steady — everyday browsing is covered"@,
        speed.bits < 0x4024_0000_0000_0000 || speed.bits > 0x7ff0_0000_0000_0000 ==> mood(speed)
            == "taking the scenic route"@,
{
    lemma_named_numbers();
    lemma_at_least(speed, 0x407f_4000_0000_0000);
    lemma_at_least(speed, 0x4059_0000_0000_0000);
    lemma_at_least(speed, 0x4039_0000_0000_0000);
    lemma_at_least(speed, 0x4024_0000_0000_0000);
}

/// The panels are shown on every screen of at least 58 columns and 18 rows, and on no smaller one:
/// that says how large it has to be, and how to leave.
pub proof fn lemma_room(area: Rect, app: AppView, figures: FiguresView)
    ensures
        screen_of(area, app, figures) is Full <==> area.width >= 58 && area.height >= 18,
        area.width < 58 || area.height < 18 ==> is_drawable(area, app, figures),
        screen_of(area, app, figures) matches ScreenView::TooSmall { notice } ==> {
            &&& notice.lines.len() == 3 && notice.lines[0].len() == 1 && notice.lines[2].len() == 1
            &&& notice.lines[0][0].text == "speed needs a terminal at least 58 × 18"@
            &&& notice.lines[1].len() == 0
            &&& notice.lines[2][0].text == "Resize the window, or press q to quit."@
        },
{
}

/// Where the panels stand, counted from the screen: a frame of one cell all around; three rows at
/// the top for the header and three at the bottom for the footer; six rows for the speed and the
/// others for the chart below it; the nearest to 68 hundredths of the columns for these two, and
/// the other columns for the session.
pub proof fn lemma_measures(area: Rect)
    requires
        area.wf(),
        area.width >= 58,
        area.height >= 18,
    ensures
        ({
            let a = areas_of(area);
            &&& a.header.x == area.x + 1 && a.header.y == area.y + 1
            &&& a.header.width == area.width - 2 && a.header.height == 3
            &&& a.footer.x == area.x + 1 && a.footer.y + 4 == area.y + area.height
            &&& a.footer.width == area.width - 2 && a.footer.height == 3
            &&& a.speed.x == area.x + 1 && a.speed.y == area.y + 4 && a.speed.height == 6
            &&& 100 * a.speed.width <= 68 * (area.width - 2) + 50 < 100 * a.speed.width + 100
            &&& a.chart.x == area.x + 1 && a.chart.y == area.y + 10
            &&& a.chart.width == a.speed.width && a.chart.height == area.height - 14
            &&& a.history.x == area.x + 1 + a.speed.width && a.history.y == area.y + 4
            &&& a.history.width + a.speed.width == area.width - 2
            &&& a.history.height == area.height - 8
        }),
{
}

/// The header tells how the test stands: while it runs, the spinning mark and the phase on the
/// left and the seconds on the right; else a word and the key. Between them there is as much space
/// as the columns leave, by the bytes of both and six more, or none.
pub proof fn lemma_header_shown(width: u16, app: AppView, figures: FiguresView)
    ensures
        ({
            let lines = header_panel(width, app, figures).lines;
            let left = lines[0][0].text;
            let gap = lines[0][1].text;
            let right = lines[0][2].text;
            let bytes = encode_utf8(left.skip(2)).len() as usize as int % 0x1_0000 + encode_utf8(
                right,
            ).len() as usize as int % 0x1_0000;
            &&& lines.len() == 1 && lines[0].len() == 3
            &&& app.status == Status::Running ==> left == "  "@ + spinner_frame(app.animation)
                + "  "@ + app.phase && right == figures.elapsed + "s / 10s"@
            &&& app.status == Status::Done ==> left == "  "@ + "●  Ready for another lap"@ && right
                == "SPACE TO RUN"@
            &&& app.status == Status::Failed ==> left == "  "@ + "!  Something got in the way"@
                && right == "SPACE TO RUN"@
            &&& forall|i: int| 0 <= i < gap.len() ==> #[trigger] gap[i] == ' '
            &&& bytes + 6 <= width ==> bytes + 6 + gap.len() == width
            &&& bytes + 6 > width ==> gap.len() == 0
        }),
{
    reveal_strlit("  ");
    reveal_strlit(" ");
    assert(" "@ =~= seq![' ']);
    lemma_copies_of_one(' ', header_gap(width, app, figures));
    let left = header_panel(width, app, figures).lines[0][0].text;
    assert(left.skip(2) =~= indicator(app));
    assert("  "@ + (spinner_frame(app.animation) + "  "@ + app.phase) =~= "  "@ + spinner_frame(
        app.animation,
    ) + "  "@ + app.phase);
}

/// The spinning mark is one of eight, and it stays for two ticks.
pub proof fn lemma_spinning_mark(animation: usize)
    ensures
        spinner_frame(animation) == seq!["⠋"@, "⠙"@, "⠹"@, "⠸"@, "⠼"@, "⠴"@, "⠦"@, "⠧"@][(
        animation / 2) as int % 8],
        animation % 2 == 0 && animation < usize::MAX ==> spinner_frame((animation + 1) as usize)
            == spinner_frame(animation),
{
}

/// The speed panel tells what the test is about: in large the speed, or in red that there is none;
/// below it why the test broke off, or the remark on its result, or that the speed is the one of
/// the moment, if there is one yet.
pub proof fn lemma_speed_shown(app: AppView, figures: FiguresView)
    ensures
        ({
            let lines = speed_panel(app, figures).lines;
            let large = lines[0][0];
            let small = lines[1][0].text;
            &&& lines.len() == 2 && lines[0].len() == 1 && lines[1].len() == 1
            &&& large.style.bold
            &&& app.status == Status::Failed ==> large.text == "NO SIGNAL"@ && large.style.color
                == Some(Color::Red)
            &&& app.status != Status::Failed ==> large.text == figures.speed && large.style.color
                != Some(Color::Red)
            &&& app.status == Status::Failed ==> match app.error {
                Some(error) => small == error,
                None => small == "Unknown network error"@,
            }
            &&& app.status == Status::Done ==> small == mood(app.speed)
            &&& app.status == Status::Running && (app.speed.bits == 0 || app.speed.bits
                == 0x8000_0000_0000_0000) ==> small == "getting the runway clear…"@
            &&& app.status == Status::Running && !(app.speed.bits == 0 || app.speed.bits
                == 0x8000_0000_0000_0000) ==> small == "Mbps right now"@
        }),
{
    lemma_patterns(app.speed);
}

/// The chart shows all readings and nothing else, over ten seconds; it makes room for every one of
/// them, for ten at least, and for fifteen hundredths more.
pub proof fn lemma_chart_shown(app: AppView)
    ensures
        chart_panel(app).points == app.samples,
        chart_panel(app).span == 10_000_000_000,
        chart_panel(app).headroom_percent == 115,
        !chart_panel(app).peak.nan(),
        chart_panel(app).peak.value() >= 10 * one(),
        forall|i: int|
            0 <= i < app.samples.len() && !(#[trigger] app.samples[i]).1.nan()
                ==> app.samples[i].1.value() <= chart_panel(app).peak.value(),
        chart_panel(app).peak.value() == 10 * one() || exists|i: int|
            0 <= i < app.samples.len() && (#[trigger] app.samples[i]).1 == chart_panel(app).peak,
{
    lemma_named_numbers();
    lemma_peak(app.samples);
}

/// A value stands behind its name: two spaces, the name, and spaces up to seven columns.
pub proof fn lemma_metric(label: Seq<char>, value: Seq<char>)
    ensures
        metric_line(label, value).len() == 2,
        metric_line(label, value)[1].text == value,
        ("  "@ + label).is_prefix_of(metric_line(label, value)[0].text),
        metric_line(label, value)[0].text.len() == 2 + if label.len() < 7 {
            7
        } else {
            label.len()
        },
        forall|i: int|
            2 + label.len() <= i < metric_line(label, value)[0].text.len() ==> #[trigger]
                metric_line(label, value)[0].text[i] == ' ',
{
    reveal_strlit("  ");
    lemma_padded(label, 7);
    let text = metric_line(label, value)[0].text;
    let part = padded(label, 7);
    let front = "  "@ + label;
    assert forall|i: int| 0 <= i < label.len() implies part[i] == label[i] by {
        assert(part.subrange(0, label.len() as int)[i] == label[i]);
    }
    assert(front =~= text.subrange(0, front.len() as int));
    assert forall|i: int| 2 + label.len() <= i < text.len() implies #[trigger] text[i] == ' ' by {
        assert(text[i] == part[i - 2]);
    }
}

/// How many lines of the session panel stand above its lower heading: with a result a heading, a
/// gap and four values, while a test runs a heading, a gap and two lines, else the heading alone.
pub open spec fn upper_lines(app: AppView) -> int {
    if app.result is Some {
        6
    } else if app.status == Status::Running {
        4
    } else {
        1
    }
}

/// The session panel shows the values of the result, if there is one, and below them one line for
/// each remembered result, in their order, numbered from one on, with its own speed.
pub proof fn lemma_session_shown(app: AppView, figures: FiguresView)
    ensures
        ({
            let lines = history_panel(app, figures).lines;
            let n = upper_lines(app);
            &&& lines.len() == n + 3 + if app.history.len() == 0 {
                1
            } else {
                app.history.len()
            }
            &&& lines[0].len() == 1 && lines[0][0].text == "  SESSION"@
            &&& lines[n].len() == 0 && lines[n + 2].len() == 0
            &&& lines[n + 1].len() == 1 && lines[n + 1][0].text == "  RECENT RUNS"@
            &&& app.result is None && app.status == Status::Running ==> lines[1].len() == 0
                && lines[2].len() == 1 && lines[2][0].text == "  Racing packets across"@
                && lines[3].len() == 1 && lines[3][0].text == "  Netflix's network…"@
            &&& app.history.len() == 0 ==> lines[n + 3].len() == 1 && lines[n + 3][0].text
                == "  Laps appear here."@
            &&& app.result matches Some(result) ==> {
                &&& lines[1].len() == 0
                &&& exists|ping: Seq<char>| #[trigger]
                    number(ping) == result.latency_ms && lines[2] == metric_line(
                        "PING"@,
                        ping + " ms"@,
                    ) && (ping[0] == '0' ==> ping.len() == 1) && ping.len() > 0 && forall|i: int|
                        0 <= i < ping.len() ==> '0' <= #[trigger] ping[i] <= '9'
                &&& lines[3] == metric_line("SERVER"@, result.server)
                &&& lines[4] == metric_line("YOU"@, result.client)
                &&& lines[5] == metric_line("DATA"@, figures.data + " MB"@)
            }
        }),
        forall|i: int|
            0 <= i < app.history.len() ==> {
                let line = #[trigger] history_panel(app, figures).lines[upper_lines(app) + 3 + i];
                &&& line.len() == 2
                &&& line[1].text == figures.laps[i] + " Mbps"@
                &&& line[0].text.len() >= 6
                &&& number(line[0].text.subrange(2, line[0].text.len() - 2)) == i + 1
            },
{
    let lines = history_panel(app, figures).lines;
    let n = upper_lines(app);
    reveal_strlit("  ");
    if let Some(result) = app.result {
        lemma_digits_read_back(result.latency_ms as nat);
        let ping = digits(result.latency_ms as nat);
        assert(number(ping) == result.latency_ms);
        assert(lines[2] == metric_line("PING"@, ping + " ms"@));
    }
    assert forall|i: int| 0 <= i < app.history.len() implies {
        let line = #[trigger] lines[n + 3 + i];
        &&& line.len() == 2
        &&& line[1].text == figures.laps[i] + " Mbps"@
        &&& line[0].text.len() >= 6
        &&& number(line[0].text.subrange(2, line[0].text.len() - 2)) == i + 1
    } by {
        let line = lines[n + 3 + i];
        assert(line == lap_line(figures, i));
        lemma_two_digits_read_back((i + 1) as nat);
        assert(line[0].text.subrange(2, line[0].text.len() - 2) =~= two_digits((i + 1) as nat));
    }
}

/// The runner is a single mark on a track of dots, as long as the footer is wide but for 34
/// columns and at least one; the mark moves on every two ticks and begins anew at the end. While
/// no test runs there is a line of fixed length. The keys stand behind it.
pub proof fn lemma_footer_shown(width: u16, app: AppView)
    ensures
        ({
            let line = footer_panel(width, app).lines[0];
            let text = line[0].text;
            let length = if width >= 35 {
                width - 34
            } else {
                1
            };
            &&& footer_panel(width, app).lines.len() == 1 && line.len() == 5
            &&& line[1].text == "SPACE/ENTER"@ && line[2].text == " rerun   "@
            &&& line[3].text == "Q"@ && line[4].text == " quit"@
            &&& app.status == Status::Running ==> text.len() == length + 4 && forall|i: int|
                0 <= i < length ==> #[trigger] text[i + 2] == if i == (app.animation / 2) as int
                    % length {
                    '◆'
                } else {
                    '·'
                }
            &&& app.status != Status::Running ==> text == "  "@ + "────────────────────"@ + "  "@
        }),
{
    reveal_strlit("  ");
    reveal_strlit("·");
    reveal_strlit("◆");
    if app.status == Status::Running {
        let at = (app.animation / 2) as int % track(width) as int;
        assert("·"@ =~= seq!['·']);
        lemma_copies_of_one('·', at as nat);
        lemma_copies_of_one('·', (track(width) - at - 1) as nat);
    }
}

/// The screen is made of these panels, each as wide as its area.
pub proof fn lemma_panels_of_the_screen(area: Rect, app: AppView, figures: FiguresView)
    requires
        area.wf(),
    ensures
        screen_of(area, app, figures) matches ScreenView::Full {
            areas,
            shell,
            header,
            speed,
            chart,
            history,
            footer,
        } ==> {
            &&& areas == areas_of(area)
            &&& header == header_panel((area.width - 2) as u16, app, figures)
            &&& speed == speed_panel(app, figures)
            &&& chart == chart_panel(app)
            &&& history == history_panel(app, figures)
            &&& footer == footer_panel((area.width - 2) as u16, app)
        },
{
}

/// Every screen can be drawn with one figure for each remembered result, unless a phase or a clock
/// of thousands of characters is to be shown on it; and none with room for the panels can be drawn
/// with more figures or fewer.
pub proof fn lemma_can_be_drawn(area: Rect, app: AppView, figures: FiguresView)
    ensures
        figures.laps.len() == app.history.len() && (app.status == Status::Running
            ==> app.phase.len() <= 4000 && figures.elapsed.len() <= 4000) ==> is_drawable(
            area,
            app,
            figures,
        ),
        area.width >= 58 && area.height >= 18 && figures.laps.len() != app.history.len()
            ==> !is_drawable(area, app, figures),
{
    if app.status == Status::Running ==> app.phase.len() <= 4000 && figures.elapsed.len() <= 4000 {
        lemma_header_can_be_counted(app, figures);
    }
}

} // verus!
