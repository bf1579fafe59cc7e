use dynamodb_violation_detector::aws::{TableDescription, TableKeySchema};
use dynamodb_violation_detector::config::{ExportConfig, ScanConfig};
use dynamodb_violation_detector::domain::{KeySchemaElement, TypeCode};
use dynamodb_violation_detector::rules::{Target, Violation, ViolationCategory};
use dynamodb_violation_detector::scan::UNITS_PER_RCU;
use dynamodb_violation_detector::state::{CategoryCounts, RateSpan, StateSnapshot};
use dynamodb_violation_detector::tui::app::{
    App, Command, KeyCode, KeyEvent, KeyEventKind, Screen, Shown,
};
use dynamodb_violation_detector::tui::completed::CompletedScreen;
use dynamodb_violation_detector::tui::inflight::{
    bar, fmt_duration, fmt_eta, HeaderFigures, InFlightScreen, BAR_WIDTH,
};
use dynamodb_violation_detector::tui::line::{Panel, Style};
use dynamodb_violation_detector::tui::setup::SetupScreen;
use std::time::Duration;

const SECOND: u64 = 1_000_000_000;

fn key(code: KeyCode) -> KeyEvent {
    KeyEvent { code, ctrl: false, kind: KeyEventKind::Press }
}

fn ctrl(code: KeyCode) -> KeyEvent {
    KeyEvent { code, ctrl: true, kind: KeyEventKind::Press }
}

fn config() -> ScanConfig {
    ScanConfig {
        table: "users".to_string(),
        region: None,
        profile: None,
        segments: 4,
        rate_limit_percent: None,
        export: ExportConfig { csv: true, csv_path: None, ndjson: true, ndjson_path: None },
        gsi: Vec::new(),
        lsi: Vec::new(),
        ttl: None,
    }
}

fn description() -> TableDescription {
    TableDescription {
        name: "users".to_string(),
        key_schema: TableKeySchema {
            pk: KeySchemaElement { name: "id".to_string(), type_code: TypeCode::S },
            sk: None,
        },
        gsis: Vec::new(),
        lsis: Vec::new(),
        ttl: None,
        provisioned_rcu: None,
        item_count: 10,
    }
}

fn app() -> App {
    App::new(SetupScreen::new(&config(), &description()))
}

fn panel_text(panel: &Panel) -> String {
    let mut text = panel.title.clone();
    text.push('\n');
    for line in &panel.lines {
        for span in &line.spans {
            text.push_str(&span.text);
        }
        text.push('\n');
    }
    text
}

fn figures() -> HeaderFigures {
    HeaderFigures {
        percent: 25,
        items_per_sec: "250".to_string(),
        rcu_per_sec: "12.0".to_string(),
        rcu_used: "42.5".to_string(),
    }
}

fn running() -> StateSnapshot {
    let mut category_counts = CategoryCounts::new();
    for _ in 0..7 {
        category_counts.record(ViolationCategory::TypeMismatch);
    }
    for _ in 0..3 {
        category_counts.record(ViolationCategory::TtlMalformed);
    }
    StateSnapshot {
        items_scanned: 1500,
        total_violations: 10,
        category_counts,
        per_segment_items: vec![500, 500, 500],
        consumed_rcu: 425 * UNITS_PER_RCU / 10,
        rate: Some(RateSpan { items: 250, rcu: 12 * UNITS_PER_RCU, nanos: SECOND }),
        elapsed: 75 * SECOND,
        eta: Some(3725 * SECOND as u128),
        item_count: 6000,
        recent_violations: Vec::new(),
    }
}

fn draw(screen: &InFlightScreen, snapshot: &StateSnapshot) -> String {
    let mut text = panel_text(&screen.header_panel(snapshot, &figures()));
    text.push_str(&panel_text(&screen.body_panel(snapshot)));
    if let Some(modal) = screen.modal() {
        text.push_str(&panel_text(&modal));
    }
    text
}

#[test]
fn header_shows_aggregate_stats() {
    let text = draw(&InFlightScreen::new(), &running());

    assert!(text.contains("Scan in progress"));
    assert!(text.contains("1500"));
    assert!(text.contains("~25%"));
    assert!(text.contains("250 items/s"));
    assert!(text.contains("10 total"));
    assert!(text.contains("1m15s elapsed"));
    assert!(text.contains("1h02m05s remaining"));
}

#[test]
fn body_lists_every_category_and_each_segment() {
    let text = draw(&InFlightScreen::new(), &running());

    assert!(text.contains("Type mismatch"));
    assert!(text.contains("TTL >5y past"));
    assert!(text.contains("Segments (3)"));
    assert!(text.contains("#0"));
    assert!(text.contains("#2"));
}

#[test]
fn unknown_eta_renders_a_dash() {
    let mut snapshot = running();
    snapshot.eta = None;
    let text = draw(&InFlightScreen::new(), &snapshot);

    assert!(text.contains("— remaining"));
}

#[test]
fn cancel_modal_toggles_with_request_and_dismiss() {
    let mut screen = InFlightScreen::new();
    assert!(!screen.is_confirming_cancel());

    screen.request_cancel();
    assert!(screen.is_confirming_cancel());
    let text = draw(&screen, &running());
    assert!(text.contains("Cancel scan?"));
    assert!(text.contains("[y] cancel scan"));

    screen.dismiss_cancel();
    assert!(!screen.is_confirming_cancel());
    let text = draw(&screen, &running());
    assert!(!text.contains("Cancel scan?"));
}

#[test]
fn segment_bar_fills_proportionally_to_the_target() {
    assert_eq!(bar(0, 100), format!("[{}]", "░".repeat(BAR_WIDTH)));
    assert_eq!(bar(100, 100), format!("[{}]", "█".repeat(BAR_WIDTH)));
    assert_eq!(bar(200, 100), format!("[{}]", "█".repeat(BAR_WIDTH)));
}

#[test]
fn segment_bar_is_indeterminate_without_an_item_count() {
    assert_eq!(bar(50, 0), "─".repeat(BAR_WIDTH));
}

#[test]
fn segment_bar_rounds_to_the_nearest_cell() {
    let filled = |value: u64, target: u64| -> usize {
        bar(value, target).chars().filter(|c| *c == '█').count()
    };
    assert_eq!(filled(1, 2), 12);
    assert_eq!(filled(1, 48), 1);
    assert_eq!(filled(1, 49), 0);
    assert_eq!(filled(47, 48), 24);
    assert_eq!(filled(46, 48), 23);
    for value in 0..=96u64 {
        let fraction = (value as f64 / 96.0).min(1.0);
        assert_eq!(filled(value, 96), (fraction * BAR_WIDTH as f64).round() as usize);
    }
}

#[test]
fn duration_formatting_scales_with_magnitude() {
    let fmt = |duration: Duration| fmt_duration(duration.as_secs() as u128);
    assert_eq!(fmt(Duration::from_secs(5)), "5s");
    assert_eq!(fmt(Duration::from_secs(75)), "1m15s");
    assert_eq!(fmt(Duration::from_secs(3725)), "1h02m05s");
}

#[test]
fn durations_at_the_edges() {
    assert_eq!(fmt_duration(0), "0s");
    assert_eq!(fmt_duration(59), "59s");
    assert_eq!(fmt_duration(60), "1m00s");
    assert_eq!(fmt_duration(3600), "1h00m00s");
    assert_eq!(fmt_duration(359_999), "99h59m59s");
    assert_eq!(fmt_eta(Some(1_999_999_999)), "1s");
    assert_eq!(fmt_eta(None), "—");
}

#[test]
fn in_flight_panels_are_exact() {
    let screen = InFlightScreen::default();
    assert_eq!(
        panel_text(&screen.header_panel(&running(), &figures())),
        " Scan in progress \n\
         Items scanned   1500  (1500 of ~6000, ~25%)\n\
         Throughput      250 items/s · 12.0 RCU/s\n\
         Violations      10 total\n\
         Time            1m15s elapsed · 1h02m05s remaining · 42.5 RCU used\n"
    );
    let body = panel_text(&screen.body_panel(&running()));
    assert!(body.starts_with(" Progress \nViolations by category\n  Type mismatch        7\n"));
    assert!(body.contains("\n  TTL malformed        3\n  TTL >5y past         0\n\nSegments (3)\n"));
    assert!(body.ends_with("  #2   [██████░░░░░░░░░░░░░░░░░░]  500\n"));
}

fn violation(target: Target, category: ViolationCategory, attribute: Option<&str>) -> Violation {
    Violation {
        target,
        category,
        attribute: attribute.map(str::to_string),
        actual_value: None,
        actual_type: None,
        expected_type: None,
        size_bytes: None,
    }
}

fn finished(violations: Vec<Violation>) -> StateSnapshot {
    let mut category_counts = CategoryCounts::new();
    for v in &violations {
        category_counts.record(v.category);
    }
    StateSnapshot {
        items_scanned: 1200,
        total_violations: violations.len() as u64,
        category_counts,
        per_segment_items: vec![600, 600],
        consumed_rcu: 0,
        rate: None,
        elapsed: 30 * SECOND,
        eta: None,
        item_count: 1200,
        recent_violations: violations,
    }
}

fn draw_completed(screen: &CompletedScreen, snapshot: &StateSnapshot, paths: &Vec<String>) -> String {
    let mut text = panel_text(&screen.summary_panel(snapshot, paths));
    text.push_str(&panel_text(&screen.list_panel(snapshot).0));
    text
}

#[test]
fn summary_shows_counts_and_export_paths() {
    let snapshot = finished(vec![
        violation(
            Target::Gsi("GSI1".to_string()),
            ViolationCategory::TypeMismatch,
            Some("email"),
        ),
        violation(Target::Ttl, ViolationCategory::TtlMalformed, None),
    ]);
    let paths = vec!["violations-users.csv".to_string()];

    let screen = CompletedScreen::new(snapshot.recent_violations.len());
    let text = draw_completed(&screen, &snapshot, &paths);

    assert!(text.contains("Scan complete"));
    assert!(text.contains("2 violations total"));
    assert!(text.contains("Type mismatch"));
    assert!(text.contains("violations-users.csv"));
}

#[test]
fn list_shows_target_category_hierarchy() {
    let snapshot = finished(vec![violation(
        Target::Gsi("GSI1".to_string()),
        ViolationCategory::TypeMismatch,
        Some("email"),
    )]);

    let screen = CompletedScreen::new(snapshot.recent_violations.len());
    let text = draw_completed(&screen, &snapshot, &Vec::new());

    assert!(text.contains("Recent violations (1)"));
    assert!(text.contains("GSI GSI1"));
    assert!(text.contains("attr `email`"));
}

#[test]
fn empty_scan_reports_no_violations() {
    let snapshot = finished(Vec::new());
    let screen = CompletedScreen::new(0);
    let text = draw_completed(&screen, &snapshot, &Vec::new());

    assert!(text.contains("No violations found."));
}

#[test]
fn export_disabled_when_no_paths() {
    let snapshot = finished(Vec::new());
    let screen = CompletedScreen::new(0);
    let text = draw_completed(&screen, &snapshot, &Vec::new());

    assert!(text.contains("(export disabled)"));
}

#[test]
fn selection_clamps_at_both_ends() {
    let mut screen = CompletedScreen::new(3);
    assert_eq!(screen.selected(), 0);

    screen.select_prev();
    assert_eq!(screen.selected(), 0);

    screen.select_next();
    screen.select_next();
    screen.select_next();
    screen.select_next();
    assert_eq!(screen.selected(), 2);

    screen.select_prev();
    assert_eq!(screen.selected(), 1);
}

#[test]
fn selection_is_inert_with_no_violations() {
    let mut screen = CompletedScreen::new(0);
    screen.select_next();
    assert_eq!(screen.selected(), 0);
}

#[test]
fn completed_panels_are_exact() {
    let snapshot = finished(vec![
        violation(Target::Lsi("L".to_string()), ViolationCategory::MissingKey, Some("a")),
        violation(Target::Ttl, ViolationCategory::TtlMissing, None),
    ]);
    let mut screen = CompletedScreen::new(2);
    screen.select_next();
    let (list, highlighted) = screen.list_panel(&snapshot);
    assert_eq!(
        panel_text(&list),
        " Recent violations (2) \nLSI L · Missing key  attr `a`\nTTL · TTL missing\n"
    );
    assert_eq!(highlighted, Some(1));
    assert_eq!(list.lines[0].spans[0].style, Style::Accent);
    let (empty, none) = screen.list_panel(&finished(Vec::new()));
    assert_eq!(none, None);
    assert_eq!(empty.lines[0].spans[0].style, Style::Success);
    let (_, clamped) = screen.list_panel(&finished(vec![violation(
        Target::Ttl,
        ViolationCategory::TtlMissing,
        None,
    )]));
    assert_eq!(clamped, Some(0));
    let summary = panel_text(&screen.summary_panel(&snapshot, &vec!["a.csv".to_string()]));
    assert!(summary.starts_with(
        " Scan complete \nScanned 1200 items · 2 violations total\n\nViolations by category\n"
    ));
    assert!(summary.ends_with("\nExport files\n  a.csv\n"));
}

#[test]
fn setup_esc_quits_and_ctrl_s_saves() {
    let mut app = app();
    assert_eq!(app.handle_key(ctrl(KeyCode::Char('s'))), Some(Command::SaveConfig));
    assert_eq!(app.handle_key(key(KeyCode::Esc)), Some(Command::Quit));
}

#[test]
fn setup_enter_on_start_button_starts_scan() {
    let mut app = app();
    app.handle_key(key(KeyCode::Up));
    assert!(app.setup().unwrap().is_start_focused());
    assert_eq!(app.handle_key(key(KeyCode::Enter)), Some(Command::StartScan));
}

#[test]
fn setup_enter_off_button_advances_focus_without_command() {
    let mut app = app();
    assert_eq!(app.handle_key(key(KeyCode::Enter)), None);
    assert!(app.setup().unwrap().focus_is_text());
}

#[test]
fn setup_q_quits_where_no_text_is_edited() {
    let mut app = app();
    assert_eq!(app.handle_key(key(KeyCode::Char('q'))), None);
    assert_eq!(app.setup().unwrap().table, "usersq");
    app.handle_key(key(KeyCode::Up));
    assert!(app.setup().unwrap().is_start_focused());
    assert_eq!(app.handle_key(key(KeyCode::Char('q'))), Some(Command::Quit));
    for _ in 0..5 {
        app.handle_key(key(KeyCode::Tab));
    }
    assert!(!app.setup().unwrap().focus_is_text());
    assert_eq!(app.handle_key(key(KeyCode::Char('q'))), Some(Command::Quit));
    assert!(app.setup().unwrap().csv);
}

#[test]
fn setup_typing_edits_the_focused_field() {
    let mut app = app();
    app.handle_key(key(KeyCode::Char('X')));
    assert_eq!(app.setup().unwrap().to_scan_config().unwrap().table, "usersX");
}

#[test]
fn release_events_are_ignored() {
    let mut app = app();
    let mut release = key(KeyCode::Esc);
    release.kind = KeyEventKind::Release;
    assert_eq!(app.handle_key(release), None);
}

#[test]
fn help_overlay_opens_and_next_key_closes_it() {
    let mut app = app();
    assert_eq!(app.handle_key(key(KeyCode::Char('?'))), None);
    assert!(app.show_help);

    assert_eq!(app.handle_key(key(KeyCode::Esc)), None);
    assert!(!app.show_help);
}

#[test]
fn inflight_cancel_requires_confirmation() {
    let mut app = app();
    app.begin_scan();

    assert_eq!(app.handle_key(ctrl(KeyCode::Char('c'))), None);
    let Screen::InFlight(inflight) = &app.screen else {
        panic!("expected in-flight screen");
    };
    assert!(inflight.is_confirming_cancel());

    assert_eq!(app.handle_key(key(KeyCode::Char('y'))), Some(Command::CancelScan));
}

#[test]
fn inflight_dismiss_keeps_scanning() {
    let mut app = app();
    app.begin_scan();
    app.handle_key(key(KeyCode::Char('q')));
    assert_eq!(app.handle_key(key(KeyCode::Char('n'))), None);

    let Screen::InFlight(inflight) = &app.screen else {
        panic!("expected in-flight screen");
    };
    assert!(!inflight.is_confirming_cancel());
}

#[test]
fn completed_navigates_and_quits() {
    let mut app = app();
    app.complete(3);

    app.handle_key(key(KeyCode::Char('j')));
    app.handle_key(key(KeyCode::Down));
    let Screen::Completed(completed) = &app.screen else {
        panic!("expected completed screen");
    };
    assert_eq!(completed.selected(), 2);

    assert_eq!(app.handle_key(key(KeyCode::Char('q'))), Some(Command::Quit));
}

fn render_text(app: &App, snapshot: Option<&StateSnapshot>) -> String {
    let shown = figures();
    let (screen, help) = app.render(snapshot.map(|s| (s, &shown)), &Vec::new());
    let mut text = match screen {
        Shown::Setup { form, .. } => panel_text(&form),
        Shown::InFlight { header, body, modal } => {
            let mut text = panel_text(&header) + &panel_text(&body);
            if let Some(modal) = modal {
                text.push_str(&panel_text(&modal));
            }
            text
        }
        Shown::Completed { summary, list, .. } => panel_text(&summary) + &panel_text(&list),
        Shown::Nothing => String::new(),
    };
    if let Some(help) = help {
        text.push_str(&panel_text(&help));
    }
    text
}

#[test]
fn render_dispatches_to_the_current_screen() {
    let mut app = app();
    assert!(render_text(&app, None).contains("Scan setup"));

    app.begin_scan();
    assert!(render_text(&app, Some(&running())).contains("Scan in progress"));
    assert_eq!(render_text(&app, None), "");

    app.complete(0);
    assert!(render_text(&app, Some(&running())).contains("Scan complete"));
}

#[test]
fn render_shows_help_overlay_over_any_screen() {
    let mut app = app();
    app.handle_key(key(KeyCode::Char('?')));
    assert!(render_text(&app, None).contains("Keybindings"));
    app.begin_scan();
    assert!(render_text(&app, None).ends_with(
        " Keybindings \n  ↑/↓ · j/k   navigate\n  Tab         next field\n  Space       toggle\n  \
         Enter       start / drill in\n  Ctrl+S      save config\n  Ctrl+C      cancel scan\n  \
         q / Esc     quit or back\n  ?           close this help\n"
    ));
}

#[test]
fn space_types_in_a_field_and_toggles_elsewhere() {
    let mut app = app();
    app.handle_key(key(KeyCode::Char(' ')));
    assert_eq!(app.setup().unwrap().table, "users ");
    for _ in 0..4 {
        app.handle_key(key(KeyCode::Tab));
    }
    assert!(app.setup().unwrap().csv);
    app.handle_key(key(KeyCode::Char(' ')));
    assert!(!app.setup().unwrap().csv);
    app.handle_key(key(KeyCode::BackTab));
    app.handle_key(key(KeyCode::Char('5')));
    app.handle_key(key(KeyCode::Backspace));
    assert_eq!(app.setup().unwrap().rate_limit, "");
    app.handle_key(key(KeyCode::Other));
    assert_eq!(app.setup().unwrap().rate_limit, "");
}

#[test]
fn other_keys_leave_the_confirmation_up() {
    let mut app = app();
    app.begin_scan();
    assert_eq!(app.handle_key(key(KeyCode::Char('c'))), None);
    assert!(!render_text(&app, Some(&running())).contains("Cancel scan?"));
    app.handle_key(key(KeyCode::Esc));
    assert!(render_text(&app, Some(&running())).contains("Cancel scan?"));
    assert_eq!(app.handle_key(key(KeyCode::Char('x'))), None);
    assert!(render_text(&app, Some(&running())).contains("Cancel scan?"));
    assert_eq!(app.handle_key(key(KeyCode::Esc)), None);
    assert!(!render_text(&app, Some(&running())).contains("Cancel scan?"));
}
