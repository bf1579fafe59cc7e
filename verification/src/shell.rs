//! The shell around a scan: from the form to a scan plan, each scanned item through
//! the rules into the export and the aggregator, and what the user is told when
//! something fails.

use vstd::prelude::*;
use vstd::string::StringExecFns;
use crate::assemble;
use crate::assemble::AssembleError;
use crate::aws::{TableDescription, TableKeySchema};
use crate::config;
use crate::config::{CliArgs, ConfigError, ConfigFile, ExportConfig, ScanConfig};
use crate::domain::{AttributeValue, Item, KeyAttribute, ValueView};
use crate::export;
use crate::export::{ExportError, ExportFormat, ExportWriter, FanOutWriter, FormatWriter};
use crate::rules;
use crate::rules::{ItemViolations, RuleSet, Violation, ViolationView};
use crate::scan;
use crate::scan::ScannedItem;
use crate::state;
use crate::state::{Aggregator, Clock, Progress, StateSnapshot};
use crate::text;
use crate::tui::app;
use crate::tui::app::{App, AppView, Command, KeyEvent, ScreenView};
use crate::tui::completed::Selection;
use crate::tui::line;
use crate::tui::line::{Line, Panel, PanelView, SpanView, Style};
use crate::tui::setup;
use crate::tui::setup::SetupScreen;

verus! {

/// Width of an error modal, in cells.
pub const MODAL_WIDTH: u16 = 60;

/// Height of an error modal, in cells.
pub const MODAL_HEIGHT: u16 = 12;

/// Which config file to read: an explicit one, else the default one when it exists,
/// else none.
pub fn resolve_config_path(cli: &CliArgs, default_exists: bool) -> (r: Option<String>)
    ensures
        match cli.config {
            Some(path) => r == Some(path),
            None => text::opt_view(r) == (if default_exists {
                Some("scan.toml"@)
            } else {
                None
            }),
        },
{
    match &cli.config {
        Some(path) => Some(path.clone()),
        None => if default_exists {
            Some("scan.toml".to_owned())
        } else {
            None
        },
    }
}

/// The resolved inputs that the rule engine needs for one scan.
#[derive(Debug)]
pub struct ScanContext {
    pub rules: RuleSet,
    pub table_key: TableKeySchema,
    pub detected_at: i64,
}

/// The value of a key attribute: a null placeholder where an item lacks it.
pub open spec fn key_value(name: Seq<char>, item: Map<Seq<char>, ValueView>) -> ValueView {
    if item.contains_key(name) {
        item[name]
    } else {
        ValueView::Null(true)
    }
}

/// The named key attribute of an item. A scanned item always carries the table's
/// primary key; a null placeholder guards the absent case.
pub fn key_attribute(name: &String, item: &Item) -> (r: KeyAttribute)
    ensures
        r.name@ == name@,
        r.value@ == key_value(name@, item@),
{
    let value = match item.get(name.as_str()) {
        Some(value) => value.clone(),
        None => AttributeValue::Null(true),
    };
    KeyAttribute { name: name.clone(), value }
}

/// `group` is an item with its violations, under the table's own primary key.
pub open spec fn is_group(
    group: ItemViolations,
    table: Seq<char>,
    table_key: TableKeySchema,
    item: Map<Seq<char>, ValueView>,
    violations: Seq<Violation>,
    detected_at: i64,
) -> bool {
    &&& group.table@ == table
    &&& group.pk.name@ == table_key.pk.name@
    &&& group.pk.value@ == key_value(table_key.pk.name@, item)
    &&& match (group.sk, table_key.sk) {
        (Some(sk), Some(element)) => item.contains_key(element.name@) && sk.name@ == element.name@
            && sk.value@ == item[element.name@],
        (None, Some(element)) => !item.contains_key(element.name@),
        (None, None) => true,
        (Some(_), None) => false,
    }
    &&& group.item@ == item
    &&& group.violations@ == violations
    &&& group.detected_at == detected_at
}

/// Groups an item's violations for export, with the table's own primary key, by which
/// the item can be fetched again.
pub fn build_group(
    table: &str,
    table_key: &TableKeySchema,
    item: Item,
    violations: Vec<Violation>,
    detected_at: i64,
) -> (r: ItemViolations)
    ensures
        is_group(r, table@, *table_key, item@, violations@, detected_at),
{
    let pk = key_attribute(&table_key.pk.name, &item);
    let sk = match &table_key.sk {
        Some(element) => match item.get(element.name.as_str()) {
            Some(value) => Some(
                KeyAttribute { name: element.name.clone(), value: value.clone() },
            ),
            None => None,
        },
        None => None,
    };
    ItemViolations { table: table.to_owned(), pk, sk, item, violations, detected_at }
}

/// The item counts toward its segment, and the violations that the rules find in it
/// are recorded.
pub open spec fn recorded(
    before: Progress,
    after: Progress,
    scanned: ScannedItem,
    context: ScanContext,
    violations: Seq<Violation>,
) -> bool {
    &&& rules::views(violations) == rules::item_violations(
        scanned.item@,
        context.rules,
        context.detected_at as int,
    )
    &&& after == state::after_violations(before.with_item(scanned.segment), violations)
}

/// One item has gone through the rules: it is recorded, and if it has violations and
/// there is a writer, it was handed to the writer as one group.
pub open spec fn item_processed<W: ExportWriter>(
    scanned: ScannedItem,
    context: ScanContext,
    before: Progress,
    after: Progress,
    old_writer: Option<W>,
    new_writer: Option<W>,
    r: Result<(), ExportError>,
) -> bool {
    exists|violations: Seq<Violation>|
        {
            &&& #[trigger] recorded(before, after, scanned, context, violations)
            &&& (violations.len() == 0 || old_writer is None) ==> r is Ok && new_writer == old_writer
            &&& (violations.len() > 0 && old_writer is Some) ==> new_writer is Some && exists|
                group: ItemViolations,
            |
                {
                    &&& #[trigger] is_group(
                        group,
                        context.rules.table@,
                        context.table_key,
                        scanned.item@,
                        violations,
                        context.detected_at,
                    )
                    &&& r is Ok ==> new_writer->0.outputs() == old_writer->0.after(group)
                    &&& new_writer->0.formats() == old_writer->0.formats()
                    &&& old_writer->0.accepts(group) ==> r is Ok
                }
        }
}

/// Evaluates one scanned item and streams its violations to the export and the
/// aggregator. An item without violations is counted and not exported.
pub fn process_item<C: Clock, W: ExportWriter>(
    scanned: &ScannedItem,
    context: &ScanContext,
    aggregator: &mut Aggregator<C>,
    writer: &mut Option<W>,
) -> (r: Result<(), ExportError>)
    ensures
        item_processed(
            *scanned,
            *context,
            old(aggregator)@,
            final(aggregator)@,
            *old(writer),
            *final(writer),
            r,
        ),
        final(aggregator).clock() == old(aggregator).clock(),
        r is Err ==> exists|sink: &mut W, group: ItemViolations, violations: Seq<Violation>|
            {
                &&& *old(writer) == Some(*sink)
                &&& *final(writer) == Some(*final(sink))
                &&& #[trigger] call_ensures(W::write, (sink, &group), r)
                &&& #[trigger] is_group(
                    group,
                    context.rules.table@,
                    context.table_key,
                    scanned.item@,
                    violations,
                    context.detected_at,
                )
                &&& recorded(
                    old(aggregator)@,
                    final(aggregator)@,
                    *scanned,
                    *context,
                    violations,
                )
            },
{
    aggregator.record_item(scanned.segment);
    let violations = rules::check_item(&scanned.item, &context.rules, context.detected_at);
    let ghost found = violations@;
    let ghost start = aggregator@;
    let mut i: usize = 0;
    assert(found.take(0) =~= Seq::empty());
    while i < violations.len()
        invariant
            i <= violations@.len(),
            found == violations@,
            aggregator@ == state::after_violations(start, found.take(i as int)),
            aggregator.clock() == old(aggregator).clock(),
        decreases violations@.len() - i,
    {
        aggregator.record_violation(&violations[i]);
        assert(found.take(i + 1).drop_last() =~= found.take(i as int));
        i += 1;
    }
    assert(found.take(i as int) =~= found);
    assert(recorded(old(aggregator)@, aggregator@, *scanned, *context, found));
    if violations.len() == 0 {
        return Ok(());
    }
    match writer {
        Some(sink) => {
            let group = build_group(
                context.rules.table.as_str(),
                &context.table_key,
                scanned.item.clone(),
                violations,
                context.detected_at,
            );
            sink.write(&group)
        },
        None => Ok(()),
    }
}

/// What the user is told when something fails: a headline, the service's error code
/// if there is one, a message and a suggested remedy. Any key dismisses it.
#[derive(Debug, Clone, PartialEq)]
pub struct ErrorModal {
    pub title: String,
    pub code: Option<String>,
    pub message: String,
    pub remediation: Option<String>,
}

/// The mathematical value of an [`ErrorModal`].
pub struct ModalView {
    pub title: Seq<char>,
    pub code: Option<Seq<char>>,
    pub message: Seq<char>,
    pub remediation: Option<Seq<char>>,
}

impl View for ErrorModal {
    type V = ModalView;

    open spec fn view(&self) -> ModalView {
        ModalView {
            title: self.title@,
            code: text::opt_view(self.code),
            message: self.message@,
            remediation: text::opt_view(self.remediation),
        }
    }
}

/// A modal of a headline and a message alone.
pub open spec fn plain_modal(title: Seq<char>, message: Seq<char>) -> ModalView {
    ModalView { title, code: None, message, remediation: None }
}

/// The modal shows that the export failed with `error`.
pub open spec fn is_export_failure(modal: ErrorModal, error: ExportError) -> bool {
    exists|cause: Seq<char>|
        {
            &&& export::gives_cause(error, cause)
            &&& modal@ == plain_modal("Export failure"@, #[trigger] export::error_text(error, cause))
        }
}

/// An empty line.
pub open spec fn empty_line() -> Seq<SpanView> {
    line::styled(Seq::empty(), Style::Plain)
}

/// The modal as a panel.
pub open spec fn modal_panel(modal: ModalView) -> PanelView {
    PanelView {
        title: " "@ + modal.title + " "@,
        border: Style::Error,
        lines: (match modal.code {
            Some(code) => seq![line::styled(code, Style::Error)],
            None => Seq::empty(),
        }) + seq![line::styled(modal.message, Style::Plain)] + (match modal.remediation {
            Some(hint) => seq![empty_line(), line::styled(hint, Style::Accent)],
            None => Seq::empty(),
        }) + seq![empty_line(), line::styled("Press any key to dismiss"@, Style::Dim)],
    }
}

fn push_empty_line(lines: &mut Vec<Line>)
    ensures
        line::line_views(final(lines)@) == line::line_views(old(lines)@).push(empty_line()),
{
    let blank = String::new();
    assert(blank@ =~= Seq::empty());
    line::push_line(lines, Line::styled(blank, Style::Plain));
}

impl ErrorModal {
    /// A modal of a headline and a message alone.
    pub fn message(title: &str, message: &str) -> (r: Self)
        ensures
            r@ == plain_modal(title@, message@),
    {
        ErrorModal {
            title: title.to_owned(),
            code: None,
            message: message.to_owned(),
            remediation: None,
        }
    }

    /// The service failed, with the given code and message.
    pub fn aws(code: String, message: String, remediation: Option<String>) -> (r: Self)
        ensures
            r@ == (ModalView {
                title: "AWS error"@,
                code: Some(code@),
                message: message@,
                remediation: text::opt_view(remediation),
            }),
    {
        ErrorModal { title: "AWS error".to_owned(), code: Some(code), message, remediation }
    }

    /// The rules could not be assembled.
    pub fn assembly(error: &AssembleError) -> (r: Self)
        ensures
            r@ == plain_modal("Cannot assemble rules"@, assemble::error_text(*error)),
    {
        ErrorModal::message("Cannot assemble rules", error.message().as_str())
    }

    /// The export failed.
    pub fn export(error: &ExportError) -> (r: Self)
        ensures
            is_export_failure(r, *error),
    {
        ErrorModal::message("Export failure", error.message().as_str())
    }

    /// The config could not be saved.
    pub fn config(error: &ConfigError) -> (r: Self)
        ensures
            r@ == plain_modal("Cannot save config"@, config::error_text(*error)),
    {
        ErrorModal::message("Cannot save config", error.message().as_str())
    }

    /// The modal as a panel.
    pub fn panel(&self) -> (r: Panel)
        ensures
            r@ == modal_panel(self@),
    {
        let mut title = " ".to_owned();
        title.append(self.title.as_str());
        title.append(" ");
        let mut lines = line::no_lines();
        if let Some(code) = &self.code {
            line::push_line(&mut lines, Line::styled(code.clone(), Style::Error));
        }
        line::push_line(&mut lines, Line::styled(self.message.clone(), Style::Plain));
        if let Some(hint) = &self.remediation {
            push_empty_line(&mut lines);
            line::push_line(&mut lines, Line::styled(hint.clone(), Style::Accent));
        }
        push_empty_line(&mut lines);
        line::push_line(
            &mut lines,
            Line::styled("Press any key to dismiss".to_owned(), Style::Dim),
        );
        assert(line::line_views(lines@) =~= modal_panel(self@).lines);
        Panel { title, border: Style::Error, lines }
    }
}

/// An export file to open.
#[derive(Debug, PartialEq)]
pub struct ExportTarget {
    pub format: ExportFormat,
    pub path: String,
}

/// The export files of a scan: those of the enabled formats that have a path, CSV
/// first.
pub open spec fn targets_of(export: ExportConfig) -> Seq<ExportTarget> {
    (if export.csv && export.csv_path is Some {
        seq![ExportTarget { format: ExportFormat::Csv, path: export.csv_path->0 }]
    } else {
        Seq::empty()
    }) + (if export.ndjson && export.ndjson_path is Some {
        seq![ExportTarget { format: ExportFormat::Ndjson, path: export.ndjson_path->0 }]
    } else {
        Seq::empty()
    })
}

/// The export files of a scan.
pub fn export_targets(export: &ExportConfig) -> (r: Vec<ExportTarget>)
    ensures
        r@ == targets_of(*export),
{
    let mut targets: Vec<ExportTarget> = Vec::new();
    if export.csv {
        if let Some(path) = &export.csv_path {
            targets.push(ExportTarget { format: ExportFormat::Csv, path: path.clone() });
        }
    }
    if export.ndjson {
        if let Some(path) = &export.ndjson_path {
            targets.push(ExportTarget { format: ExportFormat::Ndjson, path: path.clone() });
        }
    }
    assert(targets@ =~= targets_of(*export));
    targets
}

/// Everything that is settled before a scan starts: the resolved configuration, its
/// rules, and the export files to open.
#[derive(Debug)]
pub struct ScanPlan {
    pub config: ScanConfig,
    pub rules: RuleSet,
    pub targets: Vec<ExportTarget>,
}

/// A scan that runs, or whose results are being browsed.
pub struct ActiveScan<C: Clock, W: ExportWriter> {
    /// Whether items are still coming in.
    pub streaming: bool,
    /// The export, while it is open.
    pub writer: Option<W>,
    pub aggregator: Aggregator<C>,
    pub context: ScanContext,
    pub export_paths: Vec<String>,
    /// How much of the consumed read capacity the aggregator has been told of.
    pub consumed_pushed: u128,
}

/// The state of the program from the discovery of the table on.
pub struct Shell<C: Clock, W: ExportWriter> {
    pub config: ScanConfig,
    pub description: TableDescription,
    pub app: App,
    pub modal: Option<ErrorModal>,
    pub scan: Option<ActiveScan<C, W>>,
    pub should_quit: bool,
}

/// The paths of the export files.
pub open spec fn target_paths(targets: Seq<ExportTarget>) -> Seq<String> {
    targets.map_values(|target: ExportTarget| target.path)
}

fn paths_of(targets: &Vec<ExportTarget>) -> (r: Vec<String>)
    ensures
        r@ == target_paths(targets@),
{
    let mut paths: Vec<String> = Vec::new();
    let mut i: usize = 0;
    while i < targets.len()
        invariant
            i <= targets@.len(),
            paths@.len() == i,
            forall|k: int| 0 <= k < i ==> #[trigger] paths@[k] == targets@[k].path,
        decreases targets@.len() - i,
    {
        paths.push(targets[i].path.clone());
        i += 1;
    }
    assert(paths@ =~= target_paths(targets@));
    paths
}

/// `r` is what the form on the screen settles: a configuration with the profile of
/// the session, or what is wrong, under the given headline if there is no form.
pub open spec fn settled(
    r: Result<ScanConfig, ErrorModal>,
    screen: ScreenView,
    profile: Option<String>,
    headline: Seq<char>,
) -> bool {
    match (screen, r) {
        (ScreenView::Setup(form), Ok(config)) => {
            &&& setup::form_error(form) is None
            &&& setup::is_config_of(ScanConfig { profile: None, ..config }, form)
            &&& config.profile == profile
        },
        (ScreenView::Setup(form), Err(modal)) => setup::form_error(form) matches Some(message)
            && modal@ == plain_modal("Invalid scan settings"@, message),
        (_, Ok(_)) => false,
        (_, Err(modal)) => modal@ == plain_modal(headline, "no setup screen is active"@),
    }
}

/// `r` is the plan for a scan with the given settings over the described table.
pub open spec fn planned(
    r: Result<ScanPlan, ErrorModal>,
    config: ScanConfig,
    description: TableDescription,
    timestamp: Seq<char>,
) -> bool {
    match r {
        Err(modal) => assemble::assemble_error(description, config) matches Some(error) && modal@
            == plain_modal("Cannot assemble rules"@, assemble::error_text(error)),
        Ok(plan) => {
            &&& assemble::assembled(Ok(plan.rules), description, config)
            &&& config::paths_resolved(config, plan.config, timestamp)
            &&& plan.targets@ == targets_of(plan.config.export)
        },
    }
}

/// What is to be done outside after a command.
#[derive(Debug)]
pub enum Request {
    Nothing,
    /// Describe the table of these settings, and go on with what comes back.
    Describe(ScanConfig),
    /// Open the export files of the plan, and start it.
    Open(ScanPlan),
    /// Write the config file.
    Save(ConfigFile),
    /// Stop the running scan.
    Cancel,
}

/// The settings are planned over the described table: the plan is to be opened, or
/// what is wrong shows.
pub open spec fn prepared<C: Clock, W: ExportWriter>(
    before: Shell<C, W>,
    after: Shell<C, W>,
    config: ScanConfig,
    timestamp: Seq<char>,
    r: Request,
) -> bool {
    exists|plan: Result<ScanPlan, ErrorModal>|
        {
            &&& #[trigger] planned(plan, config, before.description, timestamp)
            &&& match plan {
                Ok(plan) => r == Request::Open(plan) && after == before,
                Err(modal) => r is Nothing && after == (Shell { modal: Some(modal), ..before }),
            }
        }
}

/// The command is taken up as far as it goes without the outside.
pub open spec fn dispatched<C: Clock, W: ExportWriter>(
    before: Shell<C, W>,
    after: Shell<C, W>,
    command: Command,
    timestamp: Seq<char>,
    r: Request,
) -> bool {
    let screen = before.app@.screen;
    match command {
        Command::StartScan => exists|settings: Result<ScanConfig, ErrorModal>|
            {
                &&& #[trigger] settled(
                    settings,
                    screen,
                    before.config.profile,
                    "Cannot start scan"@,
                )
                &&& match settings {
                    Ok(config) => if config.table@ != before.description.name@ {
                        r == Request::Describe(config) && after == before
                    } else {
                        prepared(before, after, config, timestamp, r)
                    },
                    Err(modal) => r is Nothing && after == (Shell {
                        modal: Some(modal),
                        ..before
                    }),
                }
            },
        Command::SaveConfig => exists|settings: Result<ScanConfig, ErrorModal>|
            {
                &&& #[trigger] settled(
                    settings,
                    screen,
                    before.config.profile,
                    "Cannot save config"@,
                )
                &&& match settings {
                    Ok(config) => r == Request::Save(config::saved_file(config)) && after
                        == before,
                    Err(modal) => r is Nothing && after == (Shell {
                        modal: Some(modal),
                        ..before
                    }),
                }
            },
        Command::CancelScan => after == before && r == (if before.scan matches Some(active)
            && active.streaming {
            Request::Cancel
        } else {
            Request::Nothing
        }),
        Command::Quit => r is Nothing && after == (Shell { should_quit: true, ..before }),
    }
}

impl<C: Clock, W: ExportWriter> Shell<C, W> {
    /// The program on the setup screen for a loaded config and the table discovered
    /// for it.
    pub fn new(config: ScanConfig, description: TableDescription) -> (r: Self)
        ensures
            r.config == config,
            r.description == description,
            r.app@ == (AppView {
                screen: ScreenView::Setup(setup::form_of(config, description)),
                show_help: false,
            }),
            r.app@.well_formed(),
            r.modal is None,
            r.scan is None,
            !r.should_quit,
    {
        let app = App::new(SetupScreen::new(&config, &description));
        Shell { config, description, app, modal: None, scan: None, should_quit: false }
    }

    /// Takes a key. The key that dismisses an error does nothing else; any other goes
    /// to the screen.
    pub fn handle_key(&mut self, key: KeyEvent) -> (r: Option<Command>)
        requires
            old(self).app@.well_formed(),
        ensures
            old(self).modal is Some ==> r is None && *final(self) == (Shell {
                modal: None,
                ..*old(self)
            }),
            old(self).modal is None ==> (final(self).app@, r) == app::on_key(old(self).app@, key)
                && *final(self) == (Shell { app: final(self).app, ..*old(self) }),
            final(self).app@.well_formed(),
    {
        if self.modal.is_some() {
            self.modal = None;
            return None;
        }
        self.app.handle_key(key)
    }

    /// Shows an error, unless one is showing already.
    pub fn report(&mut self, error: ErrorModal)
        ensures
            *final(self) == (Shell {
                modal: if old(self).modal is Some {
                    old(self).modal
                } else {
                    Some(error)
                },
                ..*old(self)
            }),
    {
        if self.modal.is_none() {
            self.modal = Some(error);
        }
    }

    fn settle(&self, headline: &str) -> (r: Result<ScanConfig, ErrorModal>)
        ensures
            settled(r, self.app@.screen, self.config.profile, headline@),
    {
        match self.app.setup() {
            Some(form) => match form.to_scan_config() {
                Ok(mut config) => {
                    config.profile = self.config.profile.clone();
                    Ok(config)
                },
                Err(message) => Err(
                    ErrorModal::message("Invalid scan settings", message.as_str()),
                ),
            },
            None => Err(ErrorModal::message(headline, "no setup screen is active")),
        }
    }

    /// The settings to scan with, from the form on the screen.
    pub fn scan_settings(&self) -> (r: Result<ScanConfig, ErrorModal>)
        ensures
            settled(r, self.app@.screen, self.config.profile, "Cannot start scan"@),
    {
        self.settle("Cannot start scan")
    }

    /// Whether the table of these settings has to be discovered first.
    pub fn needs_description(&self, config: &ScanConfig) -> (r: bool)
        ensures
            r == (config.table@ != self.description.name@),
    {
        !(config.table == self.description.name)
    }

    /// The plan for a scan with these settings: the rules against the described
    /// table, and the export files, with default names under the timestamp.
    pub fn plan(&self, config: ScanConfig, timestamp: &str) -> (r: Result<ScanPlan, ErrorModal>)
        ensures
            planned(r, config, self.description, timestamp@),
    {
        match assemble::assemble(&self.description, &config) {
            Err(error) => Err(ErrorModal::assembly(&error)),
            Ok(rules) => {
                let mut config = config;
                config::resolve_export_paths(&mut config, timestamp);
                let targets = export_targets(&config.export);
                Ok(ScanPlan { config, rules, targets })
            },
        }
    }

    /// Takes up a planned scan whose export is open, and goes on to the in-flight
    /// screen. The first sample is taken at once.
    pub fn start(
        &mut self,
        plan: ScanPlan,
        writer: W,
        clock: C,
        detected_at: i64,
    )
        ensures
            final(self).config == plan.config,
            final(self).description == old(self).description,
            final(self).app@ == (AppView {
                screen: ScreenView::InFlight(false),
                ..old(self).app@
            }),
            final(self).modal == old(self).modal,
            final(self).should_quit == old(self).should_quit,
            final(self).scan matches Some(active) && {
                &&& active.streaming
                &&& active.writer == Some(writer)
                &&& active.aggregator.clock() == clock
                &&& exists|started: u64, now: u64|
                    {
                        &&& state::clock_reads(clock, started)
                        &&& state::clock_reads(clock, now)
                        &&& active.aggregator@ == #[trigger] Progress::fresh(
                            scan::segment_count(plan.config),
                            old(self).description.item_count,
                            started,
                        ).sampled(now)
                    }
                &&& active.context.rules == plan.rules
                &&& active.context.table_key == old(self).description.key_schema
                &&& active.context.detected_at == detected_at
                &&& active.export_paths@ == target_paths(plan.targets@)
                &&& active.consumed_pushed == 0
            },
    {
        let mut aggregator = Aggregator::new(
            scan::total_segments(&plan.config),
            self.description.item_count,
            clock,
        );
        let _ = aggregator.snapshot();
        let active = ActiveScan {
            streaming: true,
            writer: Some(writer),
            aggregator,
            context: ScanContext {
                rules: plan.rules,
                table_key: self.description.key_schema.clone(),
                detected_at,
            },
            export_paths: paths_of(&plan.targets),
            consumed_pushed: 0,
        };
        self.config = plan.config;
        self.scan = Some(active);
        self.app.begin_scan();
    }

    /// Whether a cancel has a running scan to stop.
    pub fn can_cancel(&self) -> (r: bool)
        ensures
            r == (self.scan matches Some(active) && active.streaming),
    {
        match &self.scan {
            Some(active) => active.streaming,
            None => false,
        }
    }

    fn prepare(&mut self, config: ScanConfig, timestamp: &str) -> (r: Request)
        ensures
            prepared(*old(self), *final(self), config, timestamp@, r),
    {
        let plan = self.plan(config, timestamp);
        let ghost made = plan;
        assert(planned(made, config, self.description, timestamp@));
        match plan {
            Ok(plan) => Request::Open(plan),
            Err(modal) => {
                self.modal = Some(modal);
                Request::Nothing
            },
        }
    }

    /// Takes a command up as far as it goes without the outside, and says what is to
    /// be done there. A scan first needs the description of its table if that is not
    /// the one at hand.
    pub fn dispatch(&mut self, command: Command, timestamp: &str) -> (r: Request)
        ensures
            dispatched(*old(self), *final(self), command, timestamp@, r),
    {
        match command {
            Command::StartScan => {
                let settings = self.scan_settings();
                let ghost found = settings;
                assert(settled(
                    found,
                    self.app@.screen,
                    self.config.profile,
                    "Cannot start scan"@,
                ));
                match settings {
                    Ok(config) => if self.needs_description(&config) {
                        Request::Describe(config)
                    } else {
                        self.prepare(config, timestamp)
                    },
                    Err(modal) => {
                        self.modal = Some(modal);
                        Request::Nothing
                    },
                }
            },
            Command::SaveConfig => {
                let settings = self.settle("Cannot save config");
                let ghost found = settings;
                assert(settled(
                    found,
                    self.app@.screen,
                    self.config.profile,
                    "Cannot save config"@,
                ));
                match settings {
                    Ok(config) => Request::Save(config::to_file(config)),
                    Err(modal) => {
                        self.modal = Some(modal);
                        Request::Nothing
                    },
                }
            },
            Command::CancelScan => if self.can_cancel() {
                Request::Cancel
            } else {
                Request::Nothing
            },
            Command::Quit => {
                self.should_quit = true;
                Request::Nothing
            },
        }
    }

    /// Goes on with the start of a scan once its table has been described. The new
    /// description stays, whatever becomes of the scan.
    pub fn described(
        &mut self,
        config: ScanConfig,
        description: TableDescription,
        timestamp: &str,
    ) -> (r: Request)
        ensures
            prepared(
                (Shell { description, ..*old(self) }),
                *final(self),
                config,
                timestamp@,
                r,
            ),
    {
        self.description = description;
        self.prepare(config, timestamp)
    }

    /// Shows that what was asked for failed, in place of any error that is showing.
    pub fn fail(&mut self, error: ErrorModal)
        ensures
            *final(self) == (Shell { modal: Some(error), ..*old(self) }),
    {
        self.modal = Some(error);
    }
}

/// After an operation on the export with the result `r`: an error that was showing
/// stays, and else a failure is shown.
pub open spec fn reported(
    before: Option<ErrorModal>,
    after: Option<ErrorModal>,
    r: Result<(), ExportError>,
) -> bool {
    match (before, r) {
        (None, Err(error)) => after matches Some(modal) && is_export_failure(modal, error),
        _ => after == before,
    }
}

/// One scanned item went through the rules, the aggregator and the export of the
/// scan; nothing else changed but for the error that a failed export shows.
pub open spec fn consumed<C: Clock, W: ExportWriter>(
    shell: Shell<C, W>,
    next: Shell<C, W>,
    item: ScannedItem,
) -> bool {
    &&& next.config == shell.config
    &&& next.description == shell.description
    &&& next.app == shell.app
    &&& next.should_quit == shell.should_quit
    &&& match shell.scan {
        None => next.scan is None && next.modal == shell.modal,
        Some(before) => next.scan matches Some(after) && {
            &&& after.streaming == before.streaming
            &&& after.context == before.context
            &&& after.export_paths == before.export_paths
            &&& after.consumed_pushed == before.consumed_pushed
            &&& after.aggregator.clock() == before.aggregator.clock()
            &&& exists|r: Result<(), ExportError>|
                {
                    &&& #[trigger] item_processed(
                        item,
                        before.context,
                        before.aggregator@,
                        after.aggregator@,
                        before.writer,
                        after.writer,
                        r,
                    )
                    &&& reported(shell.modal, next.modal, r)
                }
        },
    }
}

/// The export is closed and the completed screen is up; without a scan nothing
/// changed.
pub open spec fn finished<C: Clock, W: ExportWriter>(
    shell: Shell<C, W>,
    next: Shell<C, W>,
) -> bool {
    &&& next.config == shell.config
    &&& next.description == shell.description
    &&& next.should_quit == shell.should_quit
    &&& match shell.scan {
        None => next == shell,
        Some(before) => next.scan matches Some(after) && {
            &&& !after.streaming
            &&& after.writer is None
            &&& after.aggregator.clock() == before.aggregator.clock()
            &&& exists|now: u64|
                {
                    &&& state::clock_reads(before.aggregator.clock(), now)
                    &&& after.aggregator@ == #[trigger] before.aggregator@.sampled(now)
                }
            &&& after.context == before.context
            &&& after.export_paths == before.export_paths
            &&& after.consumed_pushed == before.consumed_pushed
            &&& next.app@ == (AppView {
                screen: ScreenView::Completed(
                    Selection { selected: 0, count: before.aggregator@.window.len() },
                ),
                ..shell.app@
            })
            &&& match before.writer {
                Some(writer) => exists|outcome: Result<(), ExportError>|
                    {
                        &&& #[trigger] export::close_gives(writer, outcome)
                        &&& writer.closes() ==> outcome is Ok
                        &&& reported(shell.modal, next.modal, outcome)
                    },
                None => next.modal == shell.modal,
            }
        },
    }
}

impl<C: Clock, W: ExportWriter> Shell<C, W> {
    /// Folds one scanned item into the aggregator and the export of the scan.
    pub fn consume(&mut self, item: &ScannedItem)
        ensures
            consumed(*old(self), *final(self), *item),
    {
        let mut failure: Option<ErrorModal> = None;
        let ghost mut outcome: Result<(), ExportError> = Ok(());
        if let Some(active) = &mut self.scan {
            let processed = process_item(
                item,
                &active.context,
                &mut active.aggregator,
                &mut active.writer,
            );
            proof {
                outcome = processed;
            }
            match processed {
                Ok(()) => {},
                Err(error) => failure = Some(ErrorModal::export(&error)),
            }
        }
        if let Some(error) = failure {
            self.report(error);
        }
        proof {
            if old(self).scan is Some {
                let before = old(self).scan->0;
                let after = self.scan->0;
                assert(item_processed(
                    *item,
                    before.context,
                    before.aggregator@,
                    after.aggregator@,
                    before.writer,
                    after.writer,
                    outcome,
                ));
            }
        }
    }

    /// Takes what the scan hands over next: an item, the failure of a segment, or the
    /// end of every segment.
    pub fn receive(&mut self, next: Option<Result<ScannedItem, ErrorModal>>)
        ensures
            match next {
                Some(Ok(item)) => consumed(*old(self), *final(self), item),
                Some(Err(error)) => *final(self) == (Shell {
                    modal: if old(self).modal is Some {
                        old(self).modal
                    } else {
                        Some(error)
                    },
                    ..*old(self)
                }),
                None => finished(*old(self), *final(self)),
            },
    {
        match next {
            Some(Ok(item)) => self.consume(&item),
            Some(Err(error)) => self.report(error),
            None => self.finish_scan(),
        }
    }

    /// Closes the export and goes on to the completed screen, once every segment has
    /// ended.
    pub fn finish_scan(&mut self)
        ensures
            finished(*old(self), *final(self)),
    {
        let mut failure: Option<ErrorModal> = None;
        let mut recent: Option<usize> = None;
        let ghost mut outcome: Result<(), ExportError> = Ok(());
        if let Some(active) = &mut self.scan {
            active.streaming = false;
            if let Some(writer) = active.writer.take() {
                let closed = Box::new(writer).close();
                proof {
                    outcome = closed;
                }
                assert(export::close_gives(writer, outcome));
                match closed {
                    Ok(()) => {},
                    Err(error) => failure = Some(ErrorModal::export(&error)),
                }
            }
            recent = Some(active.aggregator.snapshot().recent_violations.len());
        }
        if let Some(error) = failure {
            self.report(error);
        }
        if let Some(count) = recent {
            self.app.complete(count);
        }
        assert(reported(old(self).modal, self.modal, outcome));
    }

    /// Tells the aggregator of the read capacity that was consumed since the last
    /// time, given the total of a running scan.
    pub fn sample_consumed(&mut self, total: u128)
        ensures
            final(self).config == old(self).config,
            final(self).description == old(self).description,
            final(self).app == old(self).app,
            final(self).modal == old(self).modal,
            final(self).should_quit == old(self).should_quit,
            match old(self).scan {
                None => final(self).scan is None,
                Some(before) => final(self).scan matches Some(after) && {
                    &&& after.streaming == before.streaming
                    &&& after.writer == before.writer
                    &&& after.context == before.context
                    &&& after.export_paths == before.export_paths
                    &&& after.aggregator.clock() == before.aggregator.clock()
                    &&& if before.streaming && total > before.consumed_pushed {
                        &&& after.aggregator@ == before.aggregator@.with_consumed(
                            (total - before.consumed_pushed) as u128,
                        )
                        &&& after.consumed_pushed == total
                    } else {
                        &&& after.aggregator@ == before.aggregator@
                        &&& after.consumed_pushed == before.consumed_pushed
                    }
                },
            },
    {
        if let Some(active) = &mut self.scan {
            if active.streaming && total > active.consumed_pushed {
                let delta: u128 = total - active.consumed_pushed;
                active.aggregator.record_consumed(0, delta);
                active.consumed_pushed = total;
            }
        }
    }

    /// A snapshot of the scan for the current frame, if there is one.
    pub fn snapshot(&mut self) -> (r: Option<StateSnapshot>)
        ensures
            final(self).config == old(self).config,
            final(self).description == old(self).description,
            final(self).app == old(self).app,
            final(self).modal == old(self).modal,
            final(self).should_quit == old(self).should_quit,
            match old(self).scan {
                None => r is None && final(self).scan is None,
                Some(before) => final(self).scan matches Some(after) && {
                    &&& after.streaming == before.streaming
                    &&& after.writer == before.writer
                    &&& after.context == before.context
                    &&& after.export_paths == before.export_paths
                    &&& after.consumed_pushed == before.consumed_pushed
                    &&& after.aggregator.clock() == before.aggregator.clock()
                    &&& exists|now: u64|
                        {
                            &&& state::clock_reads(before.aggregator.clock(), now)
                            &&& after.aggregator@ == #[trigger] before.aggregator@.sampled(now)
                            &&& r matches Some(snapshot) && state::shows(
                                snapshot,
                                after.aggregator@,
                                now,
                            )
                        }
                },
            },
    {
        match &mut self.scan {
            Some(active) => Some(active.aggregator.snapshot()),
            None => None,
        }
    }
}

/// One item of a run: it is recorded with the violations found in it, and if there
/// are any, it goes to the export as the group.
pub open spec fn run_step(
    context: ScanContext,
    scanned: ScannedItem,
    found: Seq<Violation>,
    group: ItemViolations,
    before: (Progress, FanOutWriter<FormatWriter>),
    after: (Progress, FanOutWriter<FormatWriter>),
) -> bool {
    &&& recorded(before.0, after.0, scanned, context, found)
    &&& found.len() == 0 ==> after.1 == before.1
    &&& found.len() > 0 ==> {
        &&& is_group(
            group,
            context.rules.table@,
            context.table_key,
            scanned.item@,
            found,
            context.detected_at,
        )
        &&& after.1.outputs() == before.1.after(group)
        &&& after.1.formats() == before.1.formats()
    }
}

/// Processing an item with an export in memory succeeds, and is one step of a run.
pub proof fn law_processing_is_a_step(
    context: ScanContext,
    scanned: ScannedItem,
    before: (Progress, FanOutWriter<FormatWriter>),
    after: (Progress, FanOutWriter<FormatWriter>),
    r: Result<(), ExportError>,
)
    requires
        item_processed(
            scanned,
            context,
            before.0,
            after.0,
            Some(before.1),
            Some(after.1),
            r,
        ),
    ensures
        r is Ok,
        exists|found: Seq<Violation>, group: ItemViolations|
            run_step(context, scanned, found, group, before, after),
{
    let found = choose|violations: Seq<Violation>|
        {
            &&& #[trigger] recorded(before.0, after.0, scanned, context, violations)
            &&& violations.len() == 0 ==> r is Ok && after.1 == before.1
            &&& violations.len() > 0 ==> exists|group: ItemViolations|
                {
                    &&& #[trigger] is_group(
                        group,
                        context.rules.table@,
                        context.table_key,
                        scanned.item@,
                        violations,
                        context.detected_at,
                    )
                    &&& r is Ok ==> after.1.outputs() == before.1.after(group)
                    &&& after.1.formats() == before.1.formats()
                    &&& before.1.accepts(group) ==> r is Ok
                }
        };
    if found.len() == 0 {
        let group: ItemViolations = arbitrary();
        assert(run_step(context, scanned, found, group, before, after));
    } else {
        let group = choose|group: ItemViolations|
            {
                &&& #[trigger] is_group(
                    group,
                    context.rules.table@,
                    context.table_key,
                    scanned.item@,
                    found,
                    context.detected_at,
                )
                &&& r is Ok ==> after.1.outputs() == before.1.after(group)
                &&& after.1.formats() == before.1.formats()
                &&& before.1.accepts(group) ==> r is Ok
            };
        export::law_fan_out_appends_to_every_output(before.1, group);
        assert(run_step(context, scanned, found, group, before, after));
    }
}

/// The groups of the items in which something was found.
pub open spec fn exported(found: Seq<Seq<Violation>>, groups: Seq<ItemViolations>) -> Seq<
    ItemViolations,
>
    decreases groups.len(),
{
    if groups.len() == 0 {
        Seq::empty()
    } else if found.last().len() == 0 {
        exported(found.drop_last(), groups.drop_last())
    } else {
        exported(found.drop_last(), groups.drop_last()).push(groups.last())
    }
}

proof fn lemma_violations_add_up(progress: Progress, violations: Seq<Violation>)
    ensures
        ({
            let after = state::after_violations(progress, violations);
            &&& after.items == progress.items
            &&& after.violations == (progress.violations + violations.len())
                % 0x1_0000_0000_0000_0000
        }),
    decreases violations.len(),
{
    if violations.len() > 0 {
        lemma_violations_add_up(progress, violations.drop_last());
    }
}

/// The violations that the rules find in the items, in order.
pub open spec fn rule_findings(context: ScanContext, scanned: Seq<ScannedItem>) -> Seq<
    ViolationView,
> {
    scanned.flat_map(
        |one: ScannedItem|
            rules::item_violations(one.item@, context.rules, context.detected_at as int),
    )
}

proof fn lemma_one_more_finding(
    context: ScanContext,
    scanned: Seq<ScannedItem>,
    found: Seq<Seq<Violation>>,
    one: ScannedItem,
    violations: Seq<Violation>,
)
    requires
        rules::views(found.flatten()) == rule_findings(context, scanned),
        rules::views(violations) == rules::item_violations(
            one.item@,
            context.rules,
            context.detected_at as int,
        ),
    ensures
        found.push(violations).flatten().len() == found.flatten().len() + violations.len(),
        rules::views(found.push(violations).flatten()) == rule_findings(
            context,
            scanned.push(one),
        ),
{
    let of_item = |one: ScannedItem|
        rules::item_violations(one.item@, context.rules, context.detected_at as int);
    found.lemma_flatten_push(violations);
    scanned.lemma_flat_map_push(of_item, one);
    assert(rules::views(found.flatten() + violations) =~= rules::views(found.flatten())
        + rules::views(violations));
}

/// What a run amounts to: the items and violations that are counted, the violations
/// that were found, and what the outputs hold.
spec fn accounted(
    context: ScanContext,
    scanned: Seq<ScannedItem>,
    found: Seq<Seq<Violation>>,
    groups: Seq<ItemViolations>,
    first: (Progress, FanOutWriter<FormatWriter>),
    last: (Progress, FanOutWriter<FormatWriter>),
) -> bool {
    &&& last.0.items == (first.0.items + scanned.len()) % 0x1_0000_0000_0000_0000
    &&& last.0.violations == (first.0.violations + found.flatten().len())
        % 0x1_0000_0000_0000_0000
    &&& rules::views(found.flatten()) == rule_findings(context, scanned)
    &&& last.1.formats() == first.1.formats()
    &&& last.1.outputs() == export::filled(first.1, exported(found, groups))
}

proof fn lemma_no_items(
    context: ScanContext,
    first: (Progress, FanOutWriter<FormatWriter>),
)
    ensures
        accounted(context, Seq::empty(), Seq::empty(), Seq::empty(), first, first),
{
    let none = Seq::<Seq<Violation>>::empty();
    let groups = exported(none, Seq::empty());
    assert(rules::views(none.flatten()) =~= rule_findings(context, Seq::empty()));
    assert(groups =~= Seq::empty());
    assert(export::filled(first.1, groups) =~= first.1.outputs());
}

proof fn lemma_counts_after_step(
    context: ScanContext,
    one: ScannedItem,
    violations: Seq<Violation>,
    before: Progress,
    after: Progress,
)
    requires
        recorded(before, after, one, context, violations),
    ensures
        after.items == (before.items + 1) % 0x1_0000_0000_0000_0000,
        after.violations == (before.violations + violations.len()) % 0x1_0000_0000_0000_0000,
{
    lemma_violations_add_up(before.with_item(one.segment), violations);
}

proof fn lemma_outputs_after_step(
    first: FanOutWriter<FormatWriter>,
    mid: FanOutWriter<FormatWriter>,
    last: FanOutWriter<FormatWriter>,
    found: Seq<Seq<Violation>>,
    groups: Seq<ItemViolations>,
    violations: Seq<Violation>,
    group: ItemViolations,
)
    requires
        mid.formats() == first.formats(),
        mid.outputs() == export::filled(first, exported(found, groups)),
        violations.len() == 0 ==> last == mid,
        violations.len() > 0 ==> last.outputs() == mid.after(group),
    ensures
        last.outputs() == export::filled(first, exported(found.push(violations), groups.push(group))),
{
    assert(found.push(violations).drop_last() =~= found);
    assert(groups.push(group).drop_last() =~= groups);
    if violations.len() > 0 {
        export::lemma_filled_by_one_more(first, mid, exported(found, groups), group);
    }
}

#[verifier::spinoff_prover]
#[verifier::rlimit(40)]
proof fn lemma_one_more_item(
    context: ScanContext,
    scanned: Seq<ScannedItem>,
    found: Seq<Seq<Violation>>,
    groups: Seq<ItemViolations>,
    one: ScannedItem,
    violations: Seq<Violation>,
    group: ItemViolations,
    first: (Progress, FanOutWriter<FormatWriter>),
    mid: (Progress, FanOutWriter<FormatWriter>),
    last: (Progress, FanOutWriter<FormatWriter>),
)
    requires
        accounted(context, scanned, found, groups, first, mid),
        run_step(context, one, violations, group, mid, last),
    ensures
        accounted(
            context,
            scanned.push(one),
            found.push(violations),
            groups.push(group),
            first,
            last,
        ),
{
    lemma_counts_after_step(context, one, violations, mid.0, last.0);
    lemma_one_more_finding(context, scanned, found, one, violations);
    lemma_outputs_after_step(first.1, mid.1, last.1, found, groups, violations, group);
}

proof fn lemma_run_is_accounted(
    context: ScanContext,
    scanned: Seq<ScannedItem>,
    found: Seq<Seq<Violation>>,
    groups: Seq<ItemViolations>,
    states: Seq<(Progress, FanOutWriter<FormatWriter>)>,
    n: int,
)
    requires
        found.len() == scanned.len(),
        groups.len() == scanned.len(),
        states.len() == scanned.len() + 1,
        0 <= n <= scanned.len(),
        forall|i: int|
            0 <= i < scanned.len() ==> run_step(
                context,
                #[trigger] scanned[i],
                found[i],
                groups[i],
                states[i],
                states[i + 1],
            ),
    ensures
        accounted(
            context,
            scanned.take(n),
            found.take(n),
            groups.take(n),
            states[0],
            states[n],
        ),
    decreases n,
{
    if n == 0 {
        lemma_no_items(context, states[0]);
        assert(scanned.take(0) =~= Seq::empty());
        assert(found.take(0) =~= Seq::empty());
        assert(groups.take(0) =~= Seq::empty());
    } else {
        let k = n - 1;
        lemma_run_is_accounted(context, scanned, found, groups, states, k);
        assert(run_step(context, scanned[k], found[k], groups[k], states[k], states[k + 1]));
        lemma_one_more_item(
            context,
            scanned.take(k),
            found.take(k),
            groups.take(k),
            scanned[k],
            found[k],
            groups[k],
            states[0],
            states[k],
            states[n],
        );
        assert(scanned.take(n) =~= scanned.take(k).push(scanned[k]));
        assert(found.take(n) =~= found.take(k).push(found[k]));
        assert(groups.take(n) =~= groups.take(k).push(groups[k]));
    }
}

/// Nothing is lost or made up over a run: every item is counted, the violations that
/// are counted are those that the rules find in the items, in order, and each output
/// gets the groups of exactly the items that have any, in order and once.
pub proof fn law_every_violation_is_counted_and_exported(
    context: ScanContext,
    scanned: Seq<ScannedItem>,
    found: Seq<Seq<Violation>>,
    groups: Seq<ItemViolations>,
    states: Seq<(Progress, FanOutWriter<FormatWriter>)>,
)
    requires
        found.len() == scanned.len(),
        groups.len() == scanned.len(),
        states.len() == scanned.len() + 1,
        forall|i: int|
            0 <= i < scanned.len() ==> run_step(
                context,
                #[trigger] scanned[i],
                found[i],
                groups[i],
                states[i],
                states[i + 1],
            ),
    ensures
        states.last().0.items == (states[0].0.items + scanned.len()) % 0x1_0000_0000_0000_0000,
        states.last().0.violations == (states[0].0.violations + found.flatten().len())
            % 0x1_0000_0000_0000_0000,
        rules::views(found.flatten()) == rule_findings(context, scanned),
        states.last().1.formats() == states[0].1.formats(),
        states.last().1.outputs() == Seq::new(
            states[0].1.outputs().len(),
            |k: int|
                states[0].1.outputs()[k] + export::all_bytes(
                    states[0].1.formats()[k],
                    exported(found, groups),
                ),
        ),
{
    let n = scanned.len() as int;
    lemma_run_is_accounted(context, scanned, found, groups, states, n);
    assert(scanned.take(n) =~= scanned);
    assert(found.take(n) =~= found);
    assert(groups.take(n) =~= groups);
    assert(states[n] == states.last());
}

/// An error that is showing is not replaced by a later one.
pub proof fn law_first_error_stays(
    before: Option<ErrorModal>,
    after: Option<ErrorModal>,
    r: Result<(), ExportError>,
)
    requires
        reported(before, after, r),
        before is Some,
    ensures
        after == before,
{
}

/// A group is filed under the item's own primary key: the values that the item has
/// under the key names of the table, a null where it lacks the partition key, and no
/// sort key unless the table and the item have one. The item and its violations are
/// in it unchanged.
pub proof fn law_group_has_the_keys_of_its_item(
    group: ItemViolations,
    table: Seq<char>,
    table_key: TableKeySchema,
    item: Map<Seq<char>, ValueView>,
    violations: Seq<Violation>,
    detected_at: i64,
)
    requires
        is_group(group, table, table_key, item, violations, detected_at),
    ensures
        group.table@ == table,
        group.pk.name@ == table_key.pk.name@,
        item.contains_key(table_key.pk.name@) ==> group.pk.value@ == item[table_key.pk.name@],
        !item.contains_key(table_key.pk.name@) ==> group.pk.value@ is Null,
        group.sk is Some <==> table_key.sk is Some && item.contains_key(table_key.sk->0.name@),
        group.sk is Some ==> group.sk->0.name@ == table_key.sk->0.name@ && group.sk->0.value@
            == item[table_key.sk->0.name@],
        group.item@ == item,
        group.violations@ == violations,
        group.detected_at == detected_at,
{
}

/// Items with different primary keys are told apart in the export: their CSV rows
/// differ in the columns of the partition key.
pub proof fn law_items_are_told_apart_in_the_export(
    group: ItemViolations,
    other: ItemViolations,
    table: Seq<char>,
    table_key: TableKeySchema,
    item: Map<Seq<char>, ValueView>,
    other_item: Map<Seq<char>, ValueView>,
    violations: Seq<Violation>,
    other_violations: Seq<Violation>,
    detected_at: i64,
    violation: ViolationView,
    other_violation: ViolationView,
)
    requires
        is_group(group, table, table_key, item, violations, detected_at),
        is_group(other, table, table_key, other_item, other_violations, detected_at),
        item.contains_key(table_key.pk.name@),
        other_item.contains_key(table_key.pk.name@),
        item[table_key.pk.name@] is S || item[table_key.pk.name@] is N
            || item[table_key.pk.name@] is B,
        other_item[table_key.pk.name@] is S || other_item[table_key.pk.name@] is N
            || other_item[table_key.pk.name@] is B,
        item[table_key.pk.name@] != other_item[table_key.pk.name@],
    ensures
        export::csv_row(group, violation)[3] != export::csv_row(other, other_violation)[3]
            || export::csv_row(group, violation)[5] != export::csv_row(other, other_violation)[5],
{
    export::law_csv_row_identifies_the_item(group, other, violation, other_violation);
}

/// An export file is opened for a format exactly if the format is on and has a path,
/// under that path, at most one for each format, and the CSV file comes first.
pub proof fn law_every_enabled_export_is_opened(export: ExportConfig)
    ensures
        forall|target: ExportTarget| #[trigger]
            targets_of(export).contains(target) <==> match target.format {
                ExportFormat::Csv => export.csv && export.csv_path == Some(target.path),
                ExportFormat::Ndjson => export.ndjson && export.ndjson_path == Some(target.path),
            },
        forall|i: int, j: int|
            0 <= i < j < targets_of(export).len() ==> (#[trigger] targets_of(export)[i]).format
                is Csv && (#[trigger] targets_of(export)[j]).format is Ndjson,
{
    let targets = targets_of(export);
    assert forall|target: ExportTarget| #[trigger] targets.contains(target) == match target.format {
        ExportFormat::Csv => export.csv && export.csv_path == Some(target.path),
        ExportFormat::Ndjson => export.ndjson && export.ndjson_path == Some(target.path),
    } by {
        if export.csv && export.csv_path is Some {
            assert(targets[0] == (ExportTarget {
                format: ExportFormat::Csv,
                path: export.csv_path->0,
            }));
        }
        if export.ndjson && export.ndjson_path is Some {
            assert(targets.last() == (ExportTarget {
                format: ExportFormat::Ndjson,
                path: export.ndjson_path->0,
            }));
        }
        if targets.contains(target) {
            let i = choose|i: int| 0 <= i < targets.len() && targets[i] == target;
            assert(targets[i] == target);
        }
    }
}

/// A plan keeps the settings it was made for, and opens a file for every format that
/// is on: the paths that were unset are filled in first.
pub proof fn law_plan_keeps_the_settings(
    plan: ScanPlan,
    config: ScanConfig,
    description: TableDescription,
    timestamp: Seq<char>,
)
    requires
        planned(Ok(plan), config, description, timestamp),
    ensures
        plan.config.table == config.table,
        plan.config.region == config.region,
        plan.config.profile == config.profile,
        plan.config.segments == config.segments,
        plan.config.rate_limit_percent == config.rate_limit_percent,
        plan.config.gsi == config.gsi,
        plan.config.lsi == config.lsi,
        plan.config.ttl == config.ttl,
        plan.rules.table@ == description.name@,
        config.export.csv ==> exists|i: int|
            {
                &&& 0 <= i < plan.targets@.len()
                &&& (#[trigger] plan.targets@[i]).format is Csv
                &&& config.export.csv_path is Some ==> plan.targets@[i].path
                    == config.export.csv_path->0
                &&& config.export.csv_path is None ==> plan.targets@[i].path@ == "violations-"@
                    + config.table@ + "-"@ + timestamp + ".csv"@
            },
        config.export.ndjson ==> exists|i: int|
            {
                &&& 0 <= i < plan.targets@.len()
                &&& (#[trigger] plan.targets@[i]).format is Ndjson
                &&& config.export.ndjson_path is Some ==> plan.targets@[i].path
                    == config.export.ndjson_path->0
                &&& config.export.ndjson_path is None ==> plan.targets@[i].path@ == "violations-"@
                    + config.table@ + "-"@ + timestamp + ".ndjson"@
            },
        plan.targets@.len() == (if config.export.csv {
            1nat
        } else {
            0
        }) + (if config.export.ndjson {
            1nat
        } else {
            0
        }),
{
    let targets = plan.targets@;
    assert(config.export.csv ==> targets[0].format is Csv);
    assert(config.export.ndjson ==> targets[targets.len() - 1].format is Ndjson);
}

/// Settings come from a valid form only, with the profile of the session, and can be
/// run. Otherwise the user is told what is wrong with the form, or that there is none.
pub proof fn law_settings_come_from_a_valid_form(
    r: Result<ScanConfig, ErrorModal>,
    screen: ScreenView,
    profile: Option<String>,
    headline: Seq<char>,
)
    requires
        settled(r, screen, profile, headline),
    ensures
        r is Ok <==> screen is Setup && setup::form_error(screen->Setup_0) is None,
        r is Ok ==> r->Ok_0.profile == profile && r->Ok_0.segments >= 1 && config::has_text(
            r->Ok_0.table@,
        ) && (r->Ok_0.rate_limit_percent is Some ==> 1 <= r->Ok_0.rate_limit_percent->0 <= 100),
        r is Err && screen is Setup ==> r->Err_0.title@ == "Invalid scan settings"@ && Some(
            r->Err_0.message@,
        ) == setup::form_error(screen->Setup_0),
        r is Err && !(screen is Setup) ==> r->Err_0.title@ == headline,
        r is Err ==> r->Err_0.code is None && r->Err_0.remediation is None,
{
    if r is Ok {
        let config = ScanConfig { profile: None, ..r->Ok_0 };
        setup::law_form_config_is_runnable(screen->Setup_0, config);
        config::lemma_blank(config.table@);
    }
}

/// A cancel or a quit changes nothing of the scan: a cancel is passed on exactly if
/// items are still coming in, and a quit only ends the program.
pub proof fn law_cancel_and_quit_leave_the_scan_alone<C: Clock, W: ExportWriter>(
    before: Shell<C, W>,
    after: Shell<C, W>,
    command: Command,
    timestamp: Seq<char>,
    r: Request,
)
    requires
        dispatched(before, after, command, timestamp, r),
        command is CancelScan || command is Quit,
    ensures
        after.scan == before.scan,
        after.config == before.config,
        after.description == before.description,
        after.app == before.app,
        after.modal == before.modal,
        command is Quit ==> after.should_quit && r is Nothing,
        command is CancelScan ==> after.should_quit == before.should_quit,
        command is CancelScan && before.scan is Some && before.scan->0.streaming ==> r is Cancel,
        command is CancelScan && !(before.scan is Some && before.scan->0.streaming) ==> r is Nothing,
{
}

/// A scan is opened over the described table only; for another table a description is
/// asked for first. What cannot be settled or planned is shown, and nothing is asked
/// for. In no case does the scan, the screen or the config change.
pub proof fn law_scan_is_opened_over_the_described_table<C: Clock, W: ExportWriter>(
    before: Shell<C, W>,
    after: Shell<C, W>,
    timestamp: Seq<char>,
    r: Request,
)
    requires
        dispatched(before, after, Command::StartScan, timestamp, r),
    ensures
        r is Open ==> r->Open_0.config.table@ == before.description.name@ && r->Open_0.config.profile
            == before.config.profile && r->Open_0.config.segments >= 1,
        r is Describe ==> r->Describe_0.table@ != before.description.name@
            && r->Describe_0.profile == before.config.profile,
        r is Open || r is Describe || r is Nothing,
        r is Open || r is Describe ==> after.modal == before.modal && before.app@.screen is Setup
            && setup::form_error(before.app@.screen->Setup_0) is None,
        r is Nothing ==> after.modal is Some,
        after.scan == before.scan,
        after.config == before.config,
        after.description == before.description,
        after.app == before.app,
        after.should_quit == before.should_quit,
{
    let screen = before.app@.screen;
    let settings = choose|settings: Result<ScanConfig, ErrorModal>|
        {
            &&& #[trigger] settled(settings, screen, before.config.profile, "Cannot start scan"@)
            &&& match settings {
                Ok(config) => if config.table@ != before.description.name@ {
                    r == Request::Describe(config) && after == before
                } else {
                    prepared(before, after, config, timestamp, r)
                },
                Err(modal) => r is Nothing && after == (Shell { modal: Some(modal), ..before }),
            }
        };
    law_settings_come_from_a_valid_form(
        settings,
        screen,
        before.config.profile,
        "Cannot start scan"@,
    );
}

/// The config that is saved pins the settings of a valid form, with the profile of the
/// session; an invalid form is shown as such and not saved.
pub proof fn law_saved_config_is_that_of_the_form<C: Clock, W: ExportWriter>(
    before: Shell<C, W>,
    after: Shell<C, W>,
    timestamp: Seq<char>,
    r: Request,
)
    requires
        dispatched(before, after, Command::SaveConfig, timestamp, r),
    ensures
        r is Save <==> before.app@.screen is Setup && setup::form_error(
            before.app@.screen->Setup_0,
        ) is None,
        r is Save ==> after == before && r->Save_0.profile == before.config.profile
            && r->Save_0.scan.segments is Some && r->Save_0.export.csv is Some
            && r->Save_0.export.ndjson is Some && config::has_text(r->Save_0.table@),
        !(r is Save) ==> r is Nothing && after.modal is Some && after.scan == before.scan,
{
    let screen = before.app@.screen;
    let settings = choose|settings: Result<ScanConfig, ErrorModal>|
        {
            &&& #[trigger] settled(settings, screen, before.config.profile, "Cannot save config"@)
            &&& match settings {
                Ok(config) => r == Request::Save(config::saved_file(config)) && after == before,
                Err(modal) => r is Nothing && after == (Shell { modal: Some(modal), ..before }),
            }
        };
    law_settings_come_from_a_valid_form(
        settings,
        screen,
        before.config.profile,
        "Cannot save config"@,
    );
}

/// Whatever becomes of the export, an item is counted once, toward its own segment,
/// and so is every violation that the rules find in it.
pub proof fn law_counting_does_not_depend_on_the_export<W: ExportWriter>(
    scanned: ScannedItem,
    context: ScanContext,
    before: Progress,
    after: Progress,
    old_writer: Option<W>,
    new_writer: Option<W>,
    r: Result<(), ExportError>,
)
    requires
        item_processed(scanned, context, before, after, old_writer, new_writer, r),
    ensures
        after.items == (before.items + 1) % 0x1_0000_0000_0000_0000,
        after.violations == (before.violations + rules::item_violations(
            scanned.item@,
            context.rules,
            context.detected_at as int,
        ).len()) % 0x1_0000_0000_0000_0000,
        rules::item_violations(scanned.item@, context.rules, context.detected_at as int).len() == 0
            ==> r is Ok && new_writer == old_writer,
        old_writer is None ==> r is Ok && new_writer is None,
{
    let violations = choose|violations: Seq<Violation>|
        {
            &&& #[trigger] recorded(before, after, scanned, context, violations)
            &&& (violations.len() == 0 || old_writer is None) ==> r is Ok && new_writer
                == old_writer
            &&& (violations.len() > 0 && old_writer is Some) ==> new_writer is Some
        };
    assert(recorded(before, after, scanned, context, violations));
    lemma_counts_after_step(context, scanned, violations, before, after);
}

/// The end of a scan closes the export and shows the results from the first one on.
/// Nothing that was counted changes.
pub proof fn law_finished_scan_keeps_its_results<C: Clock, W: ExportWriter>(
    shell: Shell<C, W>,
    next: Shell<C, W>,
)
    requires
        finished(shell, next),
        shell.scan is Some,
    ensures
        next.scan is Some,
        !next.scan->0.streaming,
        next.scan->0.writer is None,
        next.scan->0.aggregator@.items == shell.scan->0.aggregator@.items,
        next.scan->0.aggregator@.violations == shell.scan->0.aggregator@.violations,
        next.scan->0.aggregator@.window == shell.scan->0.aggregator@.window,
        next.scan->0.export_paths == shell.scan->0.export_paths,
        next.app@.screen is Completed,
        next.app@.screen->Completed_0.selected == 0,
        next.app@.screen->Completed_0.count == shell.scan->0.aggregator@.window.len(),
        shell.modal is Some ==> next.modal == shell.modal,
{
}

/// The panel of an error shows all that the error says: the code first if there is
/// one, the message, the remedy if there is one, and last how to go on.
pub proof fn law_error_panel_shows_the_error(modal: ModalView)
    ensures
        modal_panel(modal).title == " "@ + modal.title + " "@,
        modal_panel(modal).border is Error,
        modal.code is Some ==> modal_panel(modal).lines[0].len() == 1 && modal_panel(
            modal,
        ).lines[0][0].text == modal.code->0 && modal_panel(modal).lines[1].len() == 1
            && modal_panel(modal).lines[1][0].text == modal.message,
        modal.code is None ==> modal_panel(modal).lines[0].len() == 1 && modal_panel(
            modal,
        ).lines[0][0].text == modal.message,
        modal.remediation is Some ==> modal_panel(modal).lines.len() >= 5 && modal_panel(
            modal,
        ).lines[modal_panel(modal).lines.len() - 3].len() == 1 && modal_panel(
            modal,
        ).lines[modal_panel(modal).lines.len() - 3][0].text == modal.remediation->0,
        modal_panel(modal).lines.last().len() == 1,
        modal_panel(modal).lines.last()[0].text == "Press any key to dismiss"@,
        modal_panel(modal).lines.len() == 3 + (if modal.code is Some {
            1int
        } else {
            0
        }) + (if modal.remediation is Some {
            2int
        } else {
            0
        }),
{
}

} // verus!
