use dynamodb_violation_detector::assemble::{assemble, AssembleError};
use dynamodb_violation_detector::aws::{
    remediation, IndexSchema, ScanResponse, TableDescription, TableKeySchema, TtlDescription,
};
use dynamodb_violation_detector::config::{
    CliArgs, ConfigError, ExportConfig, GsiEntry, LsiEntry, ScanConfig, TtlSettings,
};
use dynamodb_violation_detector::domain::{
    AttributeMap, AttributeValue, Item, KeySchemaElement, TypeCode,
};
use dynamodb_violation_detector::export::{
    CsvWriter, ExportError, ExportFormat, ExportWriter, FanOutWriter, FormatWriter, NdjsonWriter,
};
use dynamodb_violation_detector::rules::{ItemViolations, ViolationCategory};
use dynamodb_violation_detector::scan::{
    segment_workers, ScannedItem, WorkerAction, WorkerEvent, UNITS_PER_RCU,
};
use dynamodb_violation_detector::shell::{
    build_group, export_targets, process_item, resolve_config_path, ErrorModal, Request,
    ScanContext, Shell,
};
use dynamodb_violation_detector::state::{Aggregator, Clock};
use dynamodb_violation_detector::tui::app::{Command, KeyCode, KeyEvent, KeyEventKind, Screen};
use dynamodb_violation_detector::tui::line::Style;
use std::cell::RefCell;
use std::rc::Rc;
use std::sync::{Arc, Mutex};

struct Still;

impl Clock for Still {
    fn now(&self) -> u64 {
        0
    }
}

/// A writer of one format whose output is read while it is owned elsewhere.
struct Shared {
    format: FormatWriter,
    output: Rc<RefCell<Vec<u8>>>,
    broken: bool,
}

impl ExportWriter for Shared {
    fn write(&mut self, group: &ItemViolations) -> Result<(), ExportError> {
        if self.broken {
            return Err(ExportError::from(std::io::Error::other("disk full")));
        }
        self.format.write(group)?;
        self.output.borrow_mut().extend(self.format.take_output());
        Ok(())
    }

    fn close(self: Box<Self>) -> Result<(), ExportError> {
        if self.broken {
            return Err(ExportError::from(std::io::Error::other("disk gone")));
        }
        Ok(())
    }
}

fn csv_writer(output: &Rc<RefCell<Vec<u8>>>) -> Shared {
    let mut format = FormatWriter::Csv(CsvWriter::new(Vec::new()).unwrap());
    output.borrow_mut().extend(format.take_output());
    Shared { format, output: output.clone(), broken: false }
}

fn ndjson_writer(output: &Rc<RefCell<Vec<u8>>>) -> Shared {
    Shared {
        format: FormatWriter::Ndjson(NdjsonWriter::new(Vec::new())),
        output: output.clone(),
        broken: false,
    }
}

fn buffer() -> Rc<RefCell<Vec<u8>>> {
    Rc::new(RefCell::new(Vec::new()))
}

fn contents(output: &Rc<RefCell<Vec<u8>>>) -> String {
    String::from_utf8(output.borrow().clone()).unwrap()
}

fn element(name: &str, type_code: TypeCode) -> KeySchemaElement {
    KeySchemaElement { name: name.to_string(), type_code }
}

fn s(value: &str) -> AttributeValue {
    AttributeValue::S(value.to_string())
}

fn item(pairs: Vec<(&str, AttributeValue)>) -> Item {
    let mut map = AttributeMap::new();
    for (name, value) in pairs {
        map.insert(name.to_string(), value);
    }
    map
}

fn description() -> TableDescription {
    TableDescription {
        name: "users".to_string(),
        key_schema: TableKeySchema { pk: element("id", TypeCode::S), sk: None },
        gsis: vec![IndexSchema {
            name: "byEmail".to_string(),
            pk: element("email", TypeCode::S),
            sk: None,
        }],
        lsis: Vec::new(),
        ttl: Some(TtlDescription { attribute: "expiresAt".to_string(), enabled: true }),
        provisioned_rcu: None,
        item_count: 3,
    }
}

fn config() -> ScanConfig {
    ScanConfig {
        table: "users".to_string(),
        region: None,
        profile: None,
        segments: 1,
        rate_limit_percent: None,
        export: ExportConfig { csv: true, csv_path: None, ndjson: true, ndjson_path: None },
        gsi: vec![GsiEntry {
            name: "byEmail".to_string(),
            hypothetical: false,
            pk: None,
            sk: None,
            check_missing: true,
        }],
        lsi: Vec::<LsiEntry>::new(),
        ttl: Some(TtlSettings { enabled: Some(true), ..TtlSettings::default() }),
    }
}

fn good() -> Item {
    item(vec![
        ("id", s("u1")),
        ("email", s("a@example.com")),
        ("expiresAt", AttributeValue::N("1700000000".to_string())),
    ])
}

fn bad() -> Item {
    item(vec![("id", s("u2")), ("expiresAt", s("not-a-number"))])
}

#[test]
fn end_to_end_scan_detects_and_exports_violations() {
    let config = config();
    let rules = assemble(&description(), &config).unwrap();
    let mut aggregator = Aggregator::with_system_clock(1, 3);
    let context = ScanContext {
        rules,
        table_key: description().key_schema,
        detected_at: 1_700_000_000,
    };

    let csv = buffer();
    let ndjson = buffer();
    let mut writer = Some(FanOutWriter::new(vec![csv_writer(&csv), ndjson_writer(&ndjson)]));

    let mut pages = vec![ScanResponse {
        items: vec![good(), bad()],
        last_evaluated_key: None,
        consumed_rcu: Some(UNITS_PER_RCU),
    }];
    for mut worker in segment_workers(&config) {
        let mut action: WorkerAction<String> = worker.start();
        loop {
            let event = match action {
                WorkerAction::Acquire(_) => WorkerEvent::Acquired,
                WorkerAction::Scan(_) => WorkerEvent::Response(Ok(pages.remove(0))),
                WorkerAction::Deliver(scanned) => {
                    let scanned = scanned.unwrap();
                    process_item(&scanned, &context, &mut aggregator, &mut writer).unwrap();
                    WorkerEvent::Delivered
                }
                WorkerAction::Stop => break,
            };
            action = worker.step(event);
        }
    }
    Box::new(writer.take().unwrap()).close().unwrap();

    let snapshot = aggregator.snapshot();
    assert_eq!(snapshot.items_scanned, 2);
    assert_eq!(snapshot.total_violations, 2);
    assert_eq!(snapshot.category_counts.get(ViolationCategory::MissingKey), Some(1));
    assert_eq!(snapshot.category_counts.get(ViolationCategory::TtlWrongType), Some(1));

    let csv = contents(&csv);
    assert!(csv.lines().next().unwrap().starts_with("table,target,category"));
    assert!(csv.contains("byEmail"));
    assert!(csv.contains("u2"));

    let ndjson = contents(&ndjson);
    assert_eq!(ndjson.lines().count(), 1, "only the violating item is written");
    assert!(ndjson.contains("\"u2\""));
}

#[test]
fn build_group_extracts_table_key() {
    let table_key = TableKeySchema {
        pk: element("id", TypeCode::S),
        sk: Some(element("ts", TypeCode::N)),
    };
    let it = item(vec![("id", s("u9")), ("ts", AttributeValue::N("42".to_string()))]);
    let group = build_group("users", &table_key, it, Vec::new(), 100);

    assert_eq!(group.pk.name, "id");
    assert_eq!(group.pk.value, s("u9"));
    assert_eq!(group.sk.unwrap().value, AttributeValue::N("42".to_string()));
    assert_eq!(group.detected_at, 100);
}

#[test]
fn build_group_guards_against_absent_keys() {
    let table_key = TableKeySchema {
        pk: element("id", TypeCode::S),
        sk: Some(element("ts", TypeCode::N)),
    };
    let group = build_group("users", &table_key, item(vec![("x", s("y"))]), Vec::new(), 0);
    assert_eq!(group.table, "users");
    assert_eq!(group.pk.value, AttributeValue::Null(true));
    assert!(group.sk.is_none());
    assert_eq!(group.item.get("x"), Some(&s("y")));
}

#[test]
fn resolve_config_path_prefers_cli_over_default() {
    let cli = CliArgs {
        config: Some("/tmp/explicit.toml".to_string()),
        ..CliArgs::default()
    };
    assert_eq!(
        resolve_config_path(&cli, true),
        Some("/tmp/explicit.toml".to_string())
    );
    assert_eq!(
        resolve_config_path(&CliArgs::default(), true),
        Some("scan.toml".to_string())
    );
    assert_eq!(resolve_config_path(&CliArgs::default(), false), None);
}

fn key(code: KeyCode) -> KeyEvent {
    KeyEvent { code, ctrl: false, kind: KeyEventKind::Press }
}

fn shell() -> Shell<Still, Shared> {
    Shell::new(config(), description())
}

#[test]
fn a_scan_runs_from_the_form_to_the_summary() {
    let mut shell = shell();
    shell.config.profile = Some("dev".to_string());
    shell.handle_key(key(KeyCode::Up));
    assert_eq!(shell.handle_key(key(KeyCode::Enter)), Some(Command::StartScan));

    let Request::Open(plan) = shell.dispatch(Command::StartScan, "99") else {
        panic!("expected a plan to open");
    };
    assert_eq!(plan.config.profile.as_deref(), Some("dev"));
    assert_eq!(plan.targets.len(), 2);
    assert_eq!(plan.targets[0].path, "violations-users-99.csv");
    assert_eq!(plan.targets[1].path, "violations-users-99.ndjson");

    let output = buffer();
    shell.start(plan, csv_writer(&output), Still, 1_700_000_000);
    assert!(shell.can_cancel());
    assert!(matches!(shell.app.screen, Screen::InFlight(_)));
    assert!(matches!(shell.dispatch(Command::CancelScan, "99"), Request::Cancel));
    shell.receive(Some(Ok(ScannedItem { segment: 0, item: good() })));
    shell.receive(Some(Ok(ScannedItem { segment: 0, item: bad() })));
    shell.sample_consumed(50);
    shell.sample_consumed(70);
    let snapshot = shell.snapshot().unwrap();
    assert_eq!(snapshot.items_scanned, 2);
    assert_eq!(snapshot.consumed_rcu, 70);

    shell.receive(None);
    assert!(!shell.can_cancel());
    assert!(matches!(shell.dispatch(Command::CancelScan, "99"), Request::Nothing));
    let Screen::Completed(completed) = &mut shell.app.screen else {
        panic!("expected completed screen");
    };
    completed.select_next();
    completed.select_next();
    assert_eq!(completed.selected(), 1);
    assert!(shell.modal.is_none());
    assert_eq!(contents(&output).lines().count(), 3);
    assert_eq!(
        shell.scan.as_ref().unwrap().export_paths,
        vec!["violations-users-99.csv", "violations-users-99.ndjson"]
    );
    shell.sample_consumed(500);
    assert_eq!(shell.snapshot().unwrap().consumed_rcu, 70);
    assert_eq!(shell.handle_key(key(KeyCode::Char('q'))), Some(Command::Quit));
    assert!(!shell.should_quit);
    assert!(matches!(shell.dispatch(Command::Quit, "99"), Request::Nothing));
    assert!(shell.should_quit);
}

#[derive(Clone)]
struct Hand(Arc<Mutex<u64>>);

impl Clock for Hand {
    fn now(&self) -> u64 {
        *self.0.lock().unwrap()
    }
}

#[test]
fn a_scan_is_sampled_from_its_start_on() {
    let clock = Hand(Arc::new(Mutex::new(100)));
    let mut shell: Shell<Hand, Shared> = Shell::new(config(), description());
    let Request::Open(plan) = shell.dispatch(Command::StartScan, "1") else {
        panic!("expected a plan to open");
    };
    shell.start(plan, csv_writer(&buffer()), clock.clone(), 0);
    shell.receive(Some(Ok(ScannedItem { segment: 0, item: good() })));
    *clock.0.lock().unwrap() = 350;
    let snapshot = shell.snapshot().unwrap();
    let rate = snapshot.rate.unwrap();
    assert_eq!((rate.items, rate.nanos), (1, 250));
    assert_eq!(snapshot.elapsed, 250);
}

#[test]
fn a_failing_export_is_reported_once() {
    let mut shell = shell();
    let settings = shell.scan_settings().unwrap();
    let plan = shell.plan(settings, "1").unwrap();
    let output = buffer();
    let mut writer = csv_writer(&output);
    writer.broken = true;
    shell.start(plan, writer, Still, 0);
    shell.consume(&ScannedItem { segment: 0, item: bad() });
    assert_eq!(
        shell.modal.as_ref().unwrap().message,
        "export I/O failure: disk full"
    );
    shell.finish_scan();
    assert_eq!(
        shell.modal.as_ref().unwrap().message,
        "export I/O failure: disk full"
    );
    assert_eq!(shell.handle_key(key(KeyCode::Esc)), None);
    assert!(shell.modal.is_none());
    assert!(!shell.should_quit);
}

#[test]
fn a_close_failure_is_reported() {
    let mut shell = shell();
    let settings = shell.scan_settings().unwrap();
    let plan = shell.plan(settings, "1").unwrap();
    let output = buffer();
    let mut writer = csv_writer(&output);
    writer.broken = true;
    shell.start(plan, writer, Still, 0);
    shell.finish_scan();
    assert_eq!(shell.modal.unwrap().message, "export I/O failure: disk gone");
}

#[test]
fn without_a_scan_there_is_nothing_to_do() {
    let mut shell = shell();
    shell.consume(&ScannedItem { segment: 0, item: bad() });
    shell.finish_scan();
    shell.sample_consumed(9);
    assert!(shell.snapshot().is_none());
    assert!(!shell.can_cancel());
    assert!(shell.app.setup().is_some());
}

#[test]
fn another_table_has_to_be_described_first() {
    let mut shell = shell();
    shell.handle_key(key(KeyCode::Char('2')));
    let Request::Describe(settings) = shell.dispatch(Command::StartScan, "5") else {
        panic!("expected a table to describe");
    };
    assert_eq!(settings.table, "users2");
    let mut other = description();
    other.name = "users2".to_string();
    let Request::Open(plan) = shell.described(settings, other, "5") else {
        panic!("expected a plan to open");
    };
    assert_eq!(plan.targets[0].path, "violations-users2-5.csv");
    assert_eq!(shell.description.name, "users2");
}

#[test]
fn a_described_table_stays_when_the_rules_cannot_be_assembled() {
    let mut shell = shell();
    shell.handle_key(key(KeyCode::Char('2')));
    let Request::Describe(settings) = shell.dispatch(Command::StartScan, "5") else {
        panic!("expected a table to describe");
    };
    let mut other = description();
    other.name = "users2".to_string();
    other.gsis.clear();
    assert!(matches!(shell.described(settings, other, "5"), Request::Nothing));
    assert_eq!(shell.description.name, "users2");
    assert_eq!(shell.modal.unwrap().title, "Cannot assemble rules");
}

#[test]
fn a_failed_request_is_shown() {
    let mut shell = shell();
    shell.fail(ErrorModal::message("Cannot open export file", "x.csv: denied"));
    shell.fail(ErrorModal::message("AWS error", "gone"));
    assert_eq!(shell.modal.as_ref().unwrap().title, "AWS error");
    shell.receive(Some(Err(ErrorModal::message("later", "late"))));
    assert_eq!(shell.modal.as_ref().unwrap().title, "AWS error");
    shell.modal = None;
    shell.receive(Some(Err(ErrorModal::message("later", "late"))));
    assert_eq!(shell.modal.unwrap().title, "later");
}

#[test]
fn settings_need_a_valid_form() {
    let mut shell = shell();
    for _ in 0..5 {
        shell.handle_key(key(KeyCode::Backspace));
    }
    let modal = shell.scan_settings().unwrap_err();
    assert_eq!(modal.title, "Invalid scan settings");
    assert_eq!(modal.message, "Table name is required; type a table to scan.");
    assert!(matches!(shell.dispatch(Command::StartScan, "1"), Request::Nothing));
    assert_eq!(shell.modal, Some(modal));
    shell.modal = None;
    shell.app.begin_scan();
    let modal = shell.scan_settings().unwrap_err();
    assert_eq!(modal.title, "Cannot start scan");
    assert_eq!(modal.message, "no setup screen is active");
    assert!(matches!(shell.dispatch(Command::SaveConfig, "1"), Request::Nothing));
    assert_eq!(shell.modal.unwrap().title, "Cannot save config");
}

#[test]
fn the_form_is_saved_with_every_setting_pinned() {
    let mut shell = shell();
    shell.config.profile = Some("p".to_string());
    let Request::Save(file) = shell.dispatch(Command::SaveConfig, "1") else {
        panic!("expected a file to save");
    };
    assert_eq!(file.table, "users");
    assert_eq!(file.profile.as_deref(), Some("p"));
    assert_eq!(file.scan.segments, Some(1));
    assert_eq!(file.export.csv, Some(true));
    assert_eq!(file.export.csv_path, None);
    assert_eq!(file.gsi.len(), 1);
}

#[test]
fn rules_that_cannot_be_assembled_stop_the_plan() {
    let mut desc = description();
    desc.lsis = vec![IndexSchema {
        name: "broken".to_string(),
        pk: element("id", TypeCode::S),
        sk: None,
    }];
    let mut shell: Shell<Still, Shared> = Shell::new(config(), desc);
    assert!(matches!(shell.dispatch(Command::StartScan, "1"), Request::Nothing));
    let modal = shell.modal.unwrap();
    assert_eq!(modal.title, "Cannot assemble rules");
    assert_eq!(
        modal.message,
        AssembleError::LsiMissingSortKey("broken".to_string()).message()
    );
}

#[test]
fn export_files_follow_their_toggles() {
    let mut export = ExportConfig {
        csv: true,
        csv_path: Some("a.csv".to_string()),
        ndjson: true,
        ndjson_path: Some("b.ndjson".to_string()),
    };
    let formats = |export: &ExportConfig| -> Vec<ExportFormat> {
        export_targets(export).iter().map(|t| t.format).collect()
    };
    assert_eq!(formats(&export), vec![ExportFormat::Csv, ExportFormat::Ndjson]);
    export.csv = false;
    assert_eq!(formats(&export), vec![ExportFormat::Ndjson]);
    export.ndjson_path = None;
    assert_eq!(formats(&export), vec![]);
}

#[test]
fn the_modal_shows_what_it_knows() {
    let modal = ErrorModal::aws(
        "ThrottlingException".to_string(),
        "slow down".to_string(),
        Some("lower the rate".to_string()),
    );
    let panel = modal.panel();
    let texts: Vec<(String, Style)> = panel
        .lines
        .iter()
        .map(|line| (line.spans[0].text.clone(), line.spans[0].style))
        .collect();
    assert_eq!(panel.title, " AWS error ");
    assert_eq!(panel.border, Style::Error);
    assert_eq!(
        texts,
        vec![
            ("ThrottlingException".to_string(), Style::Error),
            ("slow down".to_string(), Style::Plain),
            (String::new(), Style::Plain),
            ("lower the rate".to_string(), Style::Accent),
            (String::new(), Style::Plain),
            ("Press any key to dismiss".to_string(), Style::Dim),
        ]
    );
    let plain = ErrorModal::config(&ConfigError::ZeroSegments).panel();
    assert_eq!(plain.title, " Cannot save config ");
    assert_eq!(plain.lines.len(), 3);
    let error = ExportError::from(std::io::Error::other("x"));
    assert_eq!(ErrorModal::export(&error).title, "Export failure");
}

#[test]
fn known_service_failures_have_a_remedy() {
    let login = Some("Run `aws sso login` for the profile and retry.");
    assert_eq!(remediation("ExpiredTokenException"), login);
    assert_eq!(remediation("UnrecognizedClientException"), login);
    assert_eq!(remediation("DispatchFailure"), login);
    assert_eq!(
        remediation("AccessDeniedException"),
        Some("Grant dynamodb:Scan and dynamodb:DescribeTable on the table.")
    );
    assert_eq!(
        remediation("ResourceNotFoundException"),
        Some("Check the table name and the region.")
    );
    assert_eq!(remediation("ThrottlingException"), None);
    assert_eq!(remediation(""), None);
}

#[test]
fn the_first_error_stays() {
    let mut shell = shell();
    shell.report(ErrorModal::message("one", "1"));
    shell.report(ErrorModal::message("two", "2"));
    assert_eq!(shell.modal.unwrap().title, "one");
}

#[test]
fn a_run_exports_the_violating_items_in_order() {
    let context = ScanContext {
        rules: assemble(&description(), &config()).unwrap(),
        table_key: description().key_schema,
        detected_at: 1_700_000_000,
    };
    let mut aggregator = Aggregator::new(2, 5, Still);
    let csv = buffer();
    let ndjson = buffer();
    let mut writer = Some(FanOutWriter::new(vec![csv_writer(&csv), ndjson_writer(&ndjson)]));
    let start = contents(&csv);
    let late = || item(vec![("id", s("u3")), ("email", s("e"))]);
    let mut expected_csv = start.clone();
    let mut expected_ndjson = String::new();
    for item in [bad(), late()] {
        let alone = buffer();
        let mut one = Some(csv_writer(&alone));
        let scanned = ScannedItem { segment: 0, item };
        process_item(&scanned, &context, &mut Aggregator::new(1, 1, Still), &mut one).unwrap();
        expected_csv.push_str(contents(&alone).strip_prefix(start.as_str()).unwrap());
        let alone = buffer();
        let mut one = Some(ndjson_writer(&alone));
        process_item(&scanned, &context, &mut Aggregator::new(1, 1, Still), &mut one).unwrap();
        expected_ndjson.push_str(&contents(&alone));
    }
    for (segment, item) in [(0, good()), (1, bad()), (0, good()), (1, late())] {
        let scanned = ScannedItem { segment, item };
        process_item(&scanned, &context, &mut aggregator, &mut writer).unwrap();
    }
    assert_eq!(contents(&csv), expected_csv);
    assert_eq!(contents(&ndjson), expected_ndjson);
    let snapshot = aggregator.snapshot();
    assert_eq!(snapshot.items_scanned, 4);
    assert_eq!(snapshot.per_segment_items, vec![2, 2]);
    assert_eq!(snapshot.total_violations, 3);
}
