use ratatui::layout::{Constraint, Direction, Layout};
use ratatui::widgets::{Block, Borders};
use speed::binary64::Binary64;
use speed::layout::Rect;
use speed::screen::{
    arrange, connection_mood, draw, draw_footer, draw_header, draw_history, draw_speed, drawable,
    metric, peak, Figures, Screen,
};
use speed::speedtest::{Sample, TestResult, Update};
use speed::style::{Color, Line, Wrapping};
use speed::tui::App;

fn of(x: f64) -> Binary64 {
    Binary64 { bits: x.to_bits() }
}

fn rect(r: ratatui::layout::Rect) -> Rect {
    Rect { x: r.x, y: r.y, width: r.width, height: r.height }
}

fn text(line: &Line) -> String {
    line.spans.iter().map(|span| span.text.as_str()).collect()
}

fn figures() -> Figures {
    Figures {
        elapsed: format!("{:>4.1}", 3.24),
        speed: format!("{:.1}", 87.66),
        data: format!("{:.1}", 12.34),
        laps: Vec::new(),
    }
}

fn result(speed: f64) -> TestResult {
    TestResult {
        speed_mbps: of(speed),
        latency_ms: 17,
        bytes: 12_340_000,
        server: "Oslo, NO".to_string(),
        client: "Bergen, NO".to_string(),
    }
}

fn finished() -> App {
    let mut app = App::new();
    app.start_test();
    app.apply(Update::Finished(result(287.4)));
    app
}

#[test]
fn panels_stand_where_the_layout_puts_them() {
    let mut sizes = Vec::new();
    for width in 58..=260u16 {
        sizes.push((width, 18 + width % 61));
    }
    for height in 18..=120u16 {
        sizes.push((58 + (height * 7) % 97, height));
    }
    sizes.push((65535, 18));
    sizes.push((58, 65535));
    sizes.push((12345, 23456));
    for (width, height) in sizes {
        for (x, y) in [(0, 0), (3, 5)] {
            let (width, height) = (width.min(65535 - x), height.min(65535 - y));
            let area = ratatui::layout::Rect { x, y, width, height };
            let inner = Block::default().borders(Borders::ALL).title("title").inner(area);
            let rows = Layout::default()
                .direction(Direction::Vertical)
                .constraints([Constraint::Length(3), Constraint::Min(9), Constraint::Length(3)])
                .split(inner);
            let body = Layout::default()
                .direction(Direction::Horizontal)
                .constraints([Constraint::Percentage(68), Constraint::Percentage(32)])
                .split(rows[1]);
            let sections = Layout::default()
                .direction(Direction::Vertical)
                .constraints([Constraint::Length(6), Constraint::Min(4)])
                .split(body[0]);
            let areas = arrange(rect(area));
            assert_eq!(areas.header, rect(rows[0]));
            assert_eq!(areas.footer, rect(rows[2]));
            assert_eq!(areas.speed, rect(sections[0]));
            assert_eq!(areas.chart, rect(sections[1]));
            assert_eq!(areas.history, rect(body[1]));

            let w = inner.width as u32;
            let cut = ((68 * w + 50) / 100) as u16;
            assert_eq!(
                areas.header,
                Rect { x: x + 1, y: y + 1, width: width - 2, height: 3 }
            );
            assert_eq!(
                areas.speed,
                Rect { x: x + 1, y: y + 4, width: cut, height: 6 }
            );
            assert_eq!(
                areas.chart,
                Rect { x: x + 1, y: y + 10, width: cut, height: height - 14 }
            );
            assert_eq!(
                areas.history,
                Rect { x: x + 1 + cut, y: y + 4, width: width - 2 - cut, height: height - 8 }
            );
            assert_eq!(
                areas.footer,
                Rect { x: x + 1, y: y + height - 4, width: width - 2, height: 3 }
            );
        }
    }
}

#[test]
fn a_small_area_may_lie_past_the_last_column() {
    let area = Rect { x: u16::MAX, y: u16::MAX, width: 57, height: 17 };
    let app = App::new();
    assert!(drawable(area, &app, &figures()));
    assert!(matches!(draw(area, &app, &figures()), Screen::TooSmall { .. }));
}

#[test]
fn a_small_terminal_gets_a_notice() {
    let app = App::new();
    for (width, height) in [(57, 40), (200, 17), (0, 0)] {
        let area = Rect { x: 0, y: 0, width, height };
        assert!(drawable(area, &app, &figures()));
        match draw(area, &app, &figures()) {
            Screen::TooSmall { notice } => {
                let lines: Vec<String> = notice.lines.iter().map(text).collect();
                assert_eq!(
                    lines.join("\n"),
                    "speed needs a terminal at least 58 × 18\n\nResize the window, or press q to quit."
                );
                assert!(notice.centered);
                assert_eq!(notice.wrapping, Wrapping::Trim);
                assert_eq!(notice.style.color, Some(Color::Rgb(59, 220, 255)));
            }
            other => panic!("{other:?}"),
        }
    }
}

#[test]
fn the_whole_screen() {
    let app = App::new();
    let area = Rect { x: 0, y: 0, width: 80, height: 24 };
    assert!(drawable(area, &app, &figures()));
    match draw(area, &app, &figures()) {
        Screen::Full { areas, shell, header, speed, chart, history, footer } => {
            assert_eq!(areas, arrange(area));
            assert!(shell.top && shell.right && shell.bottom && shell.left);
            assert_eq!(text(&shell.title), " SPEED // FAST.COM ");
            assert!(header.border.bottom && !header.border.top);
            assert!(speed.border.right && speed.centered);
            assert_eq!(text(&chart.border.title), " THROUGHPUT ");
            assert_eq!(chart.name, "live");
            assert_eq!(history.wrapping, Wrapping::Keep);
            assert!(footer.border.top && footer.centered);
        }
        other => panic!("{other:?}"),
    }
    let mut wrong = figures();
    wrong.laps.push("1.0".to_string());
    assert!(!drawable(area, &app, &wrong));
}

#[test]
fn header_of_a_running_test() {
    let mut app = App::new();
    app.tick();
    app.tick();
    let line = &draw_header(78, &app, &figures()).lines[0];
    assert_eq!(line.spans.len(), 3);
    assert_eq!(line.spans[0].text, "  ⠙  Warming up");
    let gap = 78 - ("⠙  Warming up".len() + " 3.2s / 10s".len() + 6);
    assert_eq!(line.spans[1].text, " ".repeat(gap));
    assert_eq!(line.spans[2].text, " 3.2s / 10s");
    for _ in 0..16 {
        app.tick();
    }
    assert_eq!(draw_header(78, &app, &figures()).lines[0].spans[0].text, "  ⠙  Warming up");
    assert_eq!(draw_header(5, &app, &figures()).lines[0].spans[1].text, "");
}

#[test]
fn a_slow_reading_leaves_the_chart_at_ten() {
    let mut app = App::new();
    app.apply(Update::Sample(Sample { speed_mbps: of(4.0), elapsed: 200_000_000 }));
    let (_, chart) = draw_speed(&app, &figures());
    assert_eq!(chart.points, vec![(200_000_000, of(4.0))]);
    assert_eq!(chart.span, 10_000_000_000);
    let top = f64::from_bits(chart.peak.bits) * (f64::from(chart.headroom_percent) / 100.0);
    assert_eq!(top, 11.5);
    assert_eq!(115.0 / 100.0, 1.15);
}

#[test]
fn two_ticks_turn_the_spinner_by_one_frame() {
    let mut app = App::new();
    let marks = ["⠋", "⠙", "⠹", "⠸", "⠼", "⠴", "⠦", "⠧", "⠋", "⠙"];
    for mark in marks {
        let shown = &draw_header(78, &app, &figures()).lines[0].spans[0].text;
        assert_eq!(shown, &format!("  {mark}  Warming up"));
        app.tick();
        app.tick();
    }
}

#[test]
fn header_at_rest() {
    let mut app = finished();
    let line = &draw_header(60, &app, &figures()).lines[0];
    assert_eq!(line.spans[0].text, "  ●  Ready for another lap");
    assert_eq!(line.spans[2].text, "SPACE TO RUN");
    app.apply(Update::Failed("x".to_string()));
    let line = &draw_header(60, &app, &figures()).lines[0];
    assert_eq!(line.spans[0].text, "  !  Something got in the way");
}

#[test]
fn speed_panel_by_state() {
    let mut app = App::new();
    let (panel, _) = draw_speed(&app, &figures());
    assert_eq!(text(&panel.lines[0]), "87.7");
    assert_eq!(text(&panel.lines[1]), "getting the runway clear…");
    assert_eq!(panel.lines[0].spans[0].style.color, Some(Color::Rgb(99, 255, 183)));
    assert!(panel.lines[0].spans[0].style.bold);

    app.apply(Update::Sample(Sample { speed_mbps: of(87.66), elapsed: 1 }));
    let (panel, chart) = draw_speed(&app, &figures());
    assert_eq!(text(&panel.lines[1]), "Mbps right now");
    assert_eq!(chart.peak, of(87.66));
    assert_eq!(chart.points, vec![(1, of(87.66))]);
    assert_eq!(chart.span, 10_000_000_000);
    assert_eq!(chart.headroom_percent, 115);

    let (panel, _) = draw_speed(&finished(), &figures());
    assert_eq!(text(&panel.lines[1]), "flying — 4K has room to spare");

    app.apply(Update::Failed("could not reach Fast.com".to_string()));
    let (panel, _) = draw_speed(&app, &figures());
    assert_eq!(text(&panel.lines[0]), "NO SIGNAL");
    assert_eq!(text(&panel.lines[1]), "could not reach Fast.com");
    assert_eq!(panel.lines[0].spans[0].style.color, Some(Color::Red));
}

#[test]
fn moods() {
    let cases = [
        (1000.0, "warp speed — ridiculously fast"),
        (500.0, "warp speed — ridiculously fast"),
        (499.99, "flying — 4K has room to spare"),
        (100.0, "flying — 4K has room to spare"),
        (99.9, "cruising — streaming looks great"),
        (25.0, "cruising — streaming looks great"),
        (24.9, "steady — everyday browsing is covered"),
        (10.0, "steady — everyday browsing is covered"),
        (9.9, "taking the scenic route"),
        (0.0, "taking the scenic route"),
        (-600.0, "taking the scenic route"),
        (f64::NAN, "taking the scenic route"),
        (f64::INFINITY, "warp speed — ridiculously fast"),
    ];
    for (speed, mood) in cases {
        assert_eq!(connection_mood(of(speed)), mood, "{speed}");
    }
}

#[test]
fn peak_is_ten_at_least() {
    let lists: [&[f64]; 6] = [
        &[],
        &[3.0, 9.9],
        &[3.0, 50.0, 20.0],
        &[f64::NAN, 11.0],
        &[11.0, f64::NAN, -5.0],
        &[f64::INFINITY, 12.0],
    ];
    for speeds in lists {
        let samples = speeds.iter().map(|s| (0u128, of(*s))).collect();
        let expected = speeds.iter().copied().fold(10.0, f64::max);
        assert_eq!(peak(&samples), of(expected));
    }
}

#[test]
fn session_panel_of_a_running_test() {
    let lines: Vec<String> = draw_history(&App::new(), &figures()).lines.iter().map(text).collect();
    assert_eq!(
        lines,
        [
            "  SESSION",
            "",
            "  Racing packets across",
            "  Netflix's network…",
            "",
            "  RECENT RUNS",
            "",
            "  Laps appear here.",
        ]
    );
}

#[test]
fn session_panel_with_results() {
    let mut app = finished();
    app.apply(Update::Finished(result(9.0)));
    let mut figures = figures();
    figures.laps = vec![format!("{:>7.1}", 9.0), format!("{:>7.1}", 287.4)];
    let panel = draw_history(&app, &figures);
    let lines: Vec<String> = panel.lines.iter().map(text).collect();
    assert_eq!(
        lines,
        [
            "  SESSION",
            "",
            "  PING   17 ms",
            "  SERVER Oslo, NO",
            "  YOU    Bergen, NO",
            "  DATA   12.3 MB",
            "",
            "  RECENT RUNS",
            "",
            "  01      9.0 Mbps",
            "  02    287.4 Mbps",
        ]
    );
    assert!(panel.lines[1].spans.is_empty());
}

#[test]
fn session_panel_of_a_failed_test() {
    let mut app = App::new();
    app.apply(Update::Failed("x".to_string()));
    let lines: Vec<String> = draw_history(&app, &figures()).lines.iter().map(text).collect();
    assert_eq!(lines, ["  SESSION", "", "  RECENT RUNS", "", "  Laps appear here."]);
}

#[test]
fn metrics_line_up() {
    let line = metric("PING", "4 ms");
    assert_eq!(line.spans[0].text, "  PING   ");
    assert_eq!(line.spans[1].text, "4 ms");
    assert_eq!(line.spans[1].style.color, Some(Color::White));
}

#[test]
fn footer_runs_on_its_track() {
    let mut app = App::new();
    for tick in 0..40usize {
        for width in [0u16, 34, 35, 36, 40, 78] {
            let track = width.saturating_sub(34).max(1) as usize;
            let at = (tick / 2) % track;
            let expected = format!(
                "  {}◆{}  SPACE/ENTER rerun   Q quit",
                "·".repeat(at),
                "·".repeat(track - at - 1)
            );
            assert_eq!(text(&draw_footer(width, &app).lines[0]), expected);
        }
        app.tick();
    }
    assert_eq!(
        text(&draw_footer(78, &finished()).lines[0]),
        "  ────────────────────  SPACE/ENTER rerun   Q quit"
    );
}
