use dynamodb_violation_detector::assemble::{assemble, assemble_ttl};
use dynamodb_violation_detector::aws::{
    IndexSchema, TableDescription, TableKeySchema, TtlDescription,
};
use dynamodb_violation_detector::config::{
    ExportConfig, GsiEntry, LsiEntry, ScanConfig, TtlSettings,
};
use dynamodb_violation_detector::domain::{KeySchemaElement, TypeCode};
use dynamodb_violation_detector::tui::line::{Line, Style};
use dynamodb_violation_detector::tui::setup::{build_ttl_row, scroll_offset, Focus, SetupScreen};

fn key(name: &str, type_code: TypeCode) -> KeySchemaElement {
    KeySchemaElement { name: name.to_string(), type_code }
}

fn description() -> TableDescription {
    TableDescription {
        name: "users".to_string(),
        key_schema: TableKeySchema { pk: key("id", TypeCode::S), sk: None },
        gsis: vec![IndexSchema {
            name: "GSI1".to_string(),
            pk: key("email", TypeCode::S),
            sk: Some(key("createdAt", TypeCode::N)),
        }],
        lsis: vec![IndexSchema {
            name: "LSI1".to_string(),
            pk: key("id", TypeCode::S),
            sk: Some(key("status", TypeCode::S)),
        }],
        ttl: Some(TtlDescription { attribute: "expiresAt".to_string(), enabled: true }),
        provisioned_rcu: Some(100),
        item_count: 42,
    }
}

fn config() -> ScanConfig {
    ScanConfig {
        table: "users".to_string(),
        region: Some("eu-west-1".to_string()),
        profile: None,
        segments: 8,
        rate_limit_percent: Some(60),
        export: ExportConfig { csv: true, csv_path: None, ndjson: false, ndjson_path: None },
        gsi: vec![
            GsiEntry {
                name: "GSI1".to_string(),
                hypothetical: false,
                pk: None,
                sk: None,
                check_missing: true,
            },
            GsiEntry {
                name: "GSI_hypo".to_string(),
                hypothetical: true,
                pk: Some(key("userId", TypeCode::S)),
                sk: Some(key("ts", TypeCode::N)),
                check_missing: false,
            },
        ],
        lsi: vec![LsiEntry { name: "LSI1".to_string(), check_missing: true }],
        ttl: None,
    }
}

fn focus_on(screen: &mut SetupScreen, target: Focus) {
    let index = screen
        .order
        .iter()
        .position(|f| *f == target)
        .expect("focus target in order");
    screen.focus = index;
}

#[test]
fn seeds_scalar_fields_from_config() {
    let screen = SetupScreen::new(&config(), &description());

    assert_eq!(screen.table, "users");
    assert_eq!(screen.region, "eu-west-1");
    assert_eq!(screen.segments, "8");
    assert_eq!(screen.rate_limit, "60");
    assert!(screen.csv);
    assert!(!screen.ndjson);
}

#[test]
fn unlimited_rate_and_default_region_render_empty() {
    let mut cfg = config();
    cfg.rate_limit_percent = None;
    cfg.region = None;

    let screen = SetupScreen::new(&cfg, &description());
    assert_eq!(screen.rate_limit, "");
    assert_eq!(screen.region, "");
}

#[test]
fn gsi_rows_union_discovered_and_hypothetical_with_carried_intent() {
    let screen = SetupScreen::new(&config(), &description());

    assert_eq!(screen.gsis.len(), 2);

    let existing = &screen.gsis[0];
    assert_eq!(existing.entry.name, "GSI1");
    assert!(!existing.entry.hypothetical);
    assert!(existing.entry.check_missing);
    assert_eq!(existing.key_desc, "pk email(S) · sk createdAt(N)");

    let hypo = &screen.gsis[1];
    assert_eq!(hypo.entry.name, "GSI_hypo");
    assert!(hypo.entry.hypothetical);
    assert_eq!(hypo.key_desc, "pk userId(S) · sk ts(N)");
}

#[test]
fn lsi_rows_carry_missing_intent() {
    let screen = SetupScreen::new(&config(), &description());

    assert_eq!(screen.lsis.len(), 1);
    assert!(screen.lsis[0].entry.check_missing);
}

#[test]
fn ttl_row_defaults_when_config_absent_but_attribute_discovered() {
    let screen = SetupScreen::new(&config(), &description());

    let ttl = screen.ttl.as_ref().expect("ttl row present");
    assert_eq!(ttl.attribute, "expiresAt");
    assert!(ttl.enabled);
    assert_eq!(ttl.checks, [true, true, true, true, false]);
}

#[test]
fn no_ttl_row_when_table_lacks_attribute() {
    let mut desc = description();
    desc.ttl = None;

    let screen = SetupScreen::new(&config(), &desc);
    assert!(screen.ttl.is_none());
    assert!(!screen.order.contains(&Focus::TtlEnabled));
}

#[test]
fn focus_navigation_wraps_both_directions() {
    let mut screen = SetupScreen::new(&config(), &description());
    assert_eq!(screen.order[screen.focus], Focus::Table);

    screen.focus_prev();
    assert_eq!(screen.order[screen.focus], Focus::Start);
    assert!(screen.is_start_focused());

    screen.focus_next();
    assert_eq!(screen.order[screen.focus], Focus::Table);
}

#[test]
fn toggle_flips_focused_check_missing() {
    let mut screen = SetupScreen::new(&config(), &description());
    focus_on(&mut screen, Focus::Gsi(1));

    assert!(!screen.gsis[1].entry.check_missing);
    screen.toggle();
    assert!(screen.gsis[1].entry.check_missing);
}

#[test]
fn toggle_is_noop_on_text_field() {
    let mut screen = SetupScreen::new(&config(), &description());
    focus_on(&mut screen, Focus::Table);
    let before = screen.table.clone();

    screen.toggle();
    assert_eq!(screen.table, before);
}

#[test]
fn input_and_backspace_edit_focused_text_field() {
    let mut screen = SetupScreen::new(&config(), &description());
    focus_on(&mut screen, Focus::Table);
    screen.backspace();
    screen.input_char('X');

    assert_eq!(screen.table, "userX");
}

#[test]
fn numeric_fields_reject_non_digits() {
    let mut screen = SetupScreen::new(&config(), &description());
    focus_on(&mut screen, Focus::Segments);
    screen.input_char('a');
    assert_eq!(screen.segments, "8");

    screen.input_char('0');
    assert_eq!(screen.segments, "80");
}

#[test]
fn to_scan_config_round_trips_indexes_and_ttl() {
    let screen = SetupScreen::new(&config(), &description());
    let resolved = screen.to_scan_config().expect("valid form");

    assert_eq!(resolved.table, "users");
    assert_eq!(resolved.region.as_deref(), Some("eu-west-1"));
    assert_eq!(resolved.segments, 8);
    assert_eq!(resolved.rate_limit_percent, Some(60));

    assert_eq!(resolved.gsi.len(), 2);
    assert!(resolved.gsi[1].hypothetical);
    assert_eq!(resolved.gsi[1].pk, Some(key("userId", TypeCode::S)));
    assert_eq!(resolved.lsi.len(), 1);

    let ttl = resolved.ttl.expect("ttl carried");
    assert_eq!(ttl.enabled, Some(true));
    assert_eq!(ttl.check_past_5_years, Some(false));
}

#[test]
fn to_scan_config_reflects_edits() {
    let mut screen = SetupScreen::new(&config(), &description());
    focus_on(&mut screen, Focus::Ndjson);
    screen.toggle();
    focus_on(&mut screen, Focus::NdjsonPath);
    for c in "out.ndjson".chars() {
        screen.input_char(c);
    }

    let resolved = screen.to_scan_config().unwrap();
    assert!(resolved.export.ndjson);
    assert_eq!(resolved.export.ndjson_path, Some("out.ndjson".to_string()));
}

#[test]
fn to_scan_config_rejects_empty_table() {
    let mut screen = SetupScreen::new(&config(), &description());
    screen.table.clear();

    assert!(screen.to_scan_config().is_err());
}

#[test]
fn to_scan_config_rejects_zero_segments() {
    let mut screen = SetupScreen::new(&config(), &description());
    screen.segments = "0".to_string();

    assert!(screen.to_scan_config().is_err());
}

#[test]
fn to_scan_config_rejects_out_of_range_rate() {
    let mut screen = SetupScreen::new(&config(), &description());
    screen.rate_limit = "150".to_string();

    assert!(screen.to_scan_config().is_err());
}

#[test]
fn blank_rate_limit_is_unlimited() {
    let mut screen = SetupScreen::new(&config(), &description());
    screen.rate_limit.clear();

    assert_eq!(screen.to_scan_config().unwrap().rate_limit_percent, None);
}

fn line_text(line: &Line) -> String {
    line.spans.iter().map(|span| span.text.as_str()).collect()
}

fn form_text(screen: &SetupScreen) -> String {
    let (panel, _) = screen.panel();
    let mut text = panel.title.clone();
    text.push('\n');
    for line in &panel.lines {
        text.push_str(&line_text(line));
        text.push('\n');
    }
    text
}

#[test]
fn render_shows_key_facts() {
    let screen = SetupScreen::new(&config(), &description());
    let text = form_text(&screen);

    assert!(text.contains("Scan setup"));
    assert!(text.contains("users"));
    assert!(text.contains("GSI1"));
    assert!(text.contains("[hypothetical]"));
    assert!(text.contains("expiresAt"));
    assert!(text.contains("Start scan"));
}

#[test]
fn render_scrolls_focused_control_into_view() {
    let mut screen = SetupScreen::new(&config(), &description());
    focus_on(&mut screen, Focus::Start);

    let (panel, focused_line) = screen.panel();
    let height: u16 = 10;
    let first = scroll_offset(focused_line, panel.lines.len(), height) as usize;
    let visible: String = panel.lines[first..]
        .iter()
        .take(height as usize)
        .map(line_text)
        .collect();

    assert!(visible.contains("Start scan"), "focused button must be visible");
}

#[test]
fn form_lines_are_exact() {
    let mut screen = SetupScreen::new(&config(), &description());
    focus_on(&mut screen, Focus::TtlCheck(1));
    let (lines, focused_line) = screen.build_lines();
    let texts: Vec<String> = lines.iter().map(line_text).collect();
    assert_eq!(
        texts,
        vec![
            "AWS",
            "  Table: users",
            "  Region override: eu-west-1",
            "Scan",
            "  Segments: 8",
            "  Rate limit %: 60",
            "Export",
            "  [x] CSV",
            "    path: (default)",
            "  [ ] NDJSON",
            "    path: (default)",
            "TTL  (attribute `expiresAt`)",
            "  [x] Enabled",
            "    [x] Missing attribute",
            "    [x] Wrong type (not N)",
            "    [x] Millisecond magnitude",
            "    [x] Malformed (zero/negative/non-integer)",
            "    [ ] Ignored: > 5 years past",
            "GSIs  (type + size checks always on)",
            "  [x] GSI1 [existing]  pk email(S) · sk createdAt(N)  — check missing key",
            "  [ ] GSI_hypo [hypothetical]  pk userId(S) · sk ts(N)  — check missing key",
            "LSIs",
            "  [x] LSI1  pk id(S) · sk status(S)  — check missing key",
            "",
            "  [ Start scan ]",
            "↑/↓ move · space toggle · type to edit · enter start · q quit",
        ]
    );
    assert_eq!(focused_line, 14);
    assert_eq!(lines[14].spans[0].style, Style::Focused);
    assert_eq!(lines[0].spans[0].style, Style::Section);
    assert_eq!(lines[25].spans[0].style, Style::Muted);
}

#[test]
fn the_focused_field_shows_a_cursor() {
    let mut screen = SetupScreen::new(&config(), &description());
    focus_on(&mut screen, Focus::CsvPath);
    let (lines, focused_line) = screen.build_lines();
    assert_eq!(line_text(&lines[focused_line]), "    path: (default)█");
}

#[test]
fn scrolling_fills_the_view() {
    assert_eq!(scroll_offset(0, 26, 10), 0);
    assert_eq!(scroll_offset(9, 26, 10), 0);
    assert_eq!(scroll_offset(10, 26, 10), 1);
    assert_eq!(scroll_offset(25, 26, 10), 16);
    assert_eq!(scroll_offset(25, 26, 40), 0);
    assert_eq!(scroll_offset(3, 26, 0), 3);
}

#[test]
fn every_form_error_has_its_message() {
    let fresh = || SetupScreen::new(&config(), &description());
    let mut screen = fresh();
    screen.table = " \t".to_string();
    assert_eq!(
        screen.to_scan_config().unwrap_err(),
        "Table name is required; type a table to scan."
    );
    for bad in ["", "x", "-1", "99999999999999999999999999"] {
        let mut screen = fresh();
        screen.segments = bad.to_string();
        assert_eq!(
            screen.to_scan_config().unwrap_err(),
            "Segments must be a whole number."
        );
    }
    let mut screen = fresh();
    screen.segments = " 00 ".to_string();
    assert_eq!(screen.to_scan_config().unwrap_err(), "Segments must be at least 1.");
    for bad in ["x", "256", "1.5"] {
        let mut screen = fresh();
        screen.rate_limit = bad.to_string();
        assert_eq!(
            screen.to_scan_config().unwrap_err(),
            "Rate limit must be a whole percentage."
        );
    }
    for bad in ["0", "101", "255"] {
        let mut screen = fresh();
        screen.rate_limit = bad.to_string();
        assert_eq!(
            screen.to_scan_config().unwrap_err(),
            "Rate limit must be 1..=100; leave blank for unlimited."
        );
    }
}

#[test]
fn outer_white_space_is_dropped() {
    let mut screen = SetupScreen::new(&config(), &description());
    screen.table = " users ".to_string();
    screen.segments = " +12 ".to_string();
    screen.region = "   ".to_string();
    screen.csv_path = " out.csv".to_string();
    let resolved = screen.to_scan_config().unwrap();
    assert_eq!(resolved.table, "users");
    assert_eq!(resolved.segments, 12);
    assert_eq!(resolved.region, None);
    assert_eq!(resolved.export.csv_path.as_deref(), Some("out.csv"));
    assert_eq!(resolved.profile, None);
}

#[test]
fn toggling_twice_restores_every_control() {
    let mut screen = SetupScreen::new(&config(), &description());
    for index in 0..screen.order.len() {
        screen.focus = index;
        let before = form_text(&screen);
        screen.toggle();
        let between = form_text(&screen);
        screen.toggle();
        assert_eq!(form_text(&screen), before);
        let control = screen.order[index];
        let is_toggle = matches!(
            control,
            Focus::Csv
                | Focus::Ndjson
                | Focus::TtlEnabled
                | Focus::TtlCheck(_)
                | Focus::Gsi(_)
                | Focus::Lsi(_)
        );
        assert_eq!(between != before, is_toggle, "{control:?}");
    }
}

#[test]
fn typing_and_erasing_restores_every_field() {
    let mut screen = SetupScreen::new(&config(), &description());
    for index in 0..screen.order.len() {
        screen.focus = index;
        if !screen.focus_is_text() {
            continue;
        }
        let before = form_text(&screen);
        screen.input_char('7');
        assert_ne!(form_text(&screen), before);
        screen.backspace();
        assert_eq!(form_text(&screen), before);
    }
    screen.focus = 1;
    screen.region = String::new();
    screen.backspace();
    assert_eq!(screen.region, "");
}

#[test]
fn the_form_and_the_rules_agree_on_ttl_defaults() {
    let mut cfg = config();
    cfg.ttl = Some(TtlSettings { check_malformed: Some(false), ..TtlSettings::default() });
    let desc = description();
    let from_config = assemble(&desc, &cfg).unwrap().ttl;
    let form = SetupScreen::new(&cfg, &desc).to_scan_config().unwrap();
    assert_eq!(assemble(&desc, &form).unwrap().ttl, from_config);
}

#[test]
fn a_hypothetical_row_without_a_key_says_so() {
    let mut cfg = config();
    cfg.gsi[1].pk = None;
    let screen = SetupScreen::new(&cfg, &description());
    assert_eq!(screen.gsis[1].key_desc, "no key schema");
}

#[test]
fn a_hypothetical_entry_does_not_set_an_existing_toggle() {
    let mut cfg = config();
    cfg.gsi[0].hypothetical = true;
    let screen = SetupScreen::new(&cfg, &description());
    assert!(!screen.gsis[0].entry.check_missing);
    assert_eq!(screen.gsis.len(), 3);
}

#[test]
fn the_form_changes_no_ttl_check() {
    let open = TtlSettings::default();
    let pinned = TtlSettings {
        enabled: Some(true),
        check_missing: Some(false),
        check_past_5_years: Some(true),
        ..open
    };
    let off = TtlSettings { enabled: Some(false), ..open };
    for settings in [open, pinned, off] {
        let mut config = config();
        config.ttl = Some(settings);
        let row = build_ttl_row(&config, &description()).unwrap();
        assert_eq!(
            assemble_ttl(&description(), &Some(row.to_settings())).unwrap(),
            assemble_ttl(&description(), &Some(settings)).unwrap()
        );
    }
}

#[test]
fn an_edited_form_still_names_what_the_table_has() {
    let mut screen = SetupScreen::new(&config(), &description());
    for _ in 0..60 {
        screen.focus_next();
        screen.toggle();
        screen.input_char('7');
        screen.backspace();
        let edited = screen.to_scan_config().unwrap();
        assert!(assemble(&description(), &edited).is_ok());
    }
}
