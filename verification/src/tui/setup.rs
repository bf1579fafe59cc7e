//! Setup screen.
//!
//! Shows the discovered table schema alongside the loaded config as an editable
//! form: table name, region override, scan settings, export toggles and paths, TTL
//! sub-checks, and a per-index toggle for missing keys for every GSI and LSI.
//! Hypothetical GSIs appear tagged alongside the discovered indexes.
//!
//! The screen holds the form and exposes primitive mutations: navigate, toggle,
//! edit. [`SetupScreen::to_scan_config`] projects the form back onto a
//! [`ScanConfig`].

use vstd::prelude::*;
use vstd::string::StringExecFns;
use crate::assemble;
use crate::aws;
use crate::aws::{IndexSchema, TableDescription};
use crate::config;
use crate::config::{ExportConfig, GsiEntry, LsiEntry, ScanConfig, TtlSettings};
use crate::domain::{KeySchemaElement, TypeCode};
use crate::text;
use crate::tui::line;
use crate::tui::line::{Line, Panel, PanelView, SpanView, Style};

verus! {

/// A single focusable form control.
#[derive(Debug, Clone, Copy, PartialEq, Eq, Structural)]
pub enum Focus {
    Table,
    Region,
    Segments,
    RateLimit,
    Csv,
    CsvPath,
    Ndjson,
    NdjsonPath,
    TtlEnabled,
    TtlCheck(usize),
    Gsi(usize),
    Lsi(usize),
    Start,
}

/// The TTL audit form block, present only when the table has a TTL attribute. The
/// checks are in display order.
#[derive(Debug, Clone)]
pub struct TtlRow {
    pub attribute: String,
    pub enabled: bool,
    pub checks: [bool; 5],
}

/// The mathematical value of a [`TtlRow`].
pub struct TtlRowView {
    pub attribute: Seq<char>,
    pub enabled: bool,
    pub checks: Seq<bool>,
}

impl View for TtlRow {
    type V = TtlRowView;

    open spec fn view(&self) -> TtlRowView {
        TtlRowView { attribute: self.attribute@, enabled: self.enabled, checks: self.checks@ }
    }
}

/// A GSI row: the entry that goes back to the config and the key schema, discovered
/// from the table or declared for a hypothetical index.
#[derive(Debug, Clone)]
pub struct GsiRow {
    pub entry: GsiEntry,
    pub key_desc: String,
}

/// The mathematical value of a [`GsiRow`].
pub struct GsiRowView {
    pub entry: GsiEntry,
    pub key_desc: Seq<char>,
}

impl View for GsiRow {
    type V = GsiRowView;

    open spec fn view(&self) -> GsiRowView {
        GsiRowView { entry: self.entry, key_desc: self.key_desc@ }
    }
}

/// An LSI row. Only the missing-key toggle can be edited.
#[derive(Debug, Clone)]
pub struct LsiRow {
    pub entry: LsiEntry,
    pub key_desc: String,
}

/// The mathematical value of an [`LsiRow`].
pub struct LsiRowView {
    pub entry: LsiEntry,
    pub key_desc: Seq<char>,
}

impl View for LsiRow {
    type V = LsiRowView;

    open spec fn view(&self) -> LsiRowView {
        LsiRowView { entry: self.entry, key_desc: self.key_desc@ }
    }
}

/// The mathematical values of GSI rows.
pub open spec fn gsi_views(rows: Seq<GsiRow>) -> Seq<GsiRowView> {
    rows.map_values(|row: GsiRow| row@)
}

/// The mathematical values of LSI rows.
pub open spec fn lsi_views(rows: Seq<LsiRow>) -> Seq<LsiRowView> {
    rows.map_values(|row: LsiRow| row@)
}

/// The editable state of the setup screen.
#[derive(Debug)]
pub struct SetupScreen {
    pub table: String,
    pub region: String,
    pub segments: String,
    pub rate_limit: String,
    pub csv: bool,
    pub csv_path: String,
    pub ndjson: bool,
    pub ndjson_path: String,
    pub ttl: Option<TtlRow>,
    pub gsis: Vec<GsiRow>,
    pub lsis: Vec<LsiRow>,
    /// The controls in navigation order.
    pub order: Vec<Focus>,
    /// The position of the focused control in the navigation order.
    pub focus: usize,
}

/// The mathematical value of a [`SetupScreen`].
#[verifier::ext_equal]
pub struct Form {
    pub table: Seq<char>,
    pub region: Seq<char>,
    pub segments: Seq<char>,
    pub rate_limit: Seq<char>,
    pub csv: bool,
    pub csv_path: Seq<char>,
    pub ndjson: bool,
    pub ndjson_path: Seq<char>,
    pub ttl: Option<TtlRowView>,
    pub gsis: Seq<GsiRowView>,
    pub lsis: Seq<LsiRowView>,
    pub order: Seq<Focus>,
    pub focus: int,
}

impl View for SetupScreen {
    type V = Form;

    open spec fn view(&self) -> Form {
        Form {
            table: self.table@,
            region: self.region@,
            segments: self.segments@,
            rate_limit: self.rate_limit@,
            csv: self.csv,
            csv_path: self.csv_path@,
            ndjson: self.ndjson,
            ndjson_path: self.ndjson_path@,
            ttl: match self.ttl {
                Some(row) => Some(row@),
                None => None,
            },
            gsis: gsi_views(self.gsis@),
            lsis: lsi_views(self.lsis@),
            order: self.order@,
            focus: self.focus as int,
        }
    }
}

/// The controls of a form in navigation order.
pub open spec fn form_order(ttl: bool, gsi_count: nat, lsi_count: nat) -> Seq<Focus> {
    seq![
        Focus::Table,
        Focus::Region,
        Focus::Segments,
        Focus::RateLimit,
        Focus::Csv,
        Focus::CsvPath,
        Focus::Ndjson,
        Focus::NdjsonPath,
    ] + (if ttl {
        seq![
            Focus::TtlEnabled,
            Focus::TtlCheck(0),
            Focus::TtlCheck(1),
            Focus::TtlCheck(2),
            Focus::TtlCheck(3),
            Focus::TtlCheck(4),
        ]
    } else {
        Seq::empty()
    }) + Seq::new(gsi_count, |i: int| Focus::Gsi(i as usize)) + Seq::new(
        lsi_count,
        |i: int| Focus::Lsi(i as usize),
    ) + seq![Focus::Start]
}

impl Form {
    /// The navigation order is that of the controls, and one of them is focused.
    pub open spec fn well_formed(self) -> bool {
        &&& self.order == form_order(self.ttl is Some, self.gsis.len(), self.lsis.len())
        &&& self.gsis.len() <= usize::MAX
        &&& self.lsis.len() <= usize::MAX
        &&& 0 <= self.focus < self.order.len()
        &&& self.ttl matches Some(row) ==> row.checks.len() == 5
    }

    /// The focused control.
    pub open spec fn focused(self) -> Focus {
        self.order[self.focus]
    }

    /// The form after the focused toggle was flipped; other controls stay as they
    /// are.
    pub open spec fn toggled(self) -> Form {
        match self.focused() {
            Focus::Csv => Form { csv: !self.csv, ..self },
            Focus::Ndjson => Form { ndjson: !self.ndjson, ..self },
            Focus::TtlEnabled => match self.ttl {
                Some(row) => Form {
                    ttl: Some(TtlRowView { enabled: !row.enabled, ..row }),
                    ..self
                },
                None => self,
            },
            Focus::TtlCheck(i) => match self.ttl {
                Some(row) => Form {
                    ttl: Some(
                        TtlRowView {
                            checks: row.checks.update(i as int, !row.checks[i as int]),
                            ..row
                        },
                    ),
                    ..self
                },
                None => self,
            },
            Focus::Gsi(i) => {
                let row = self.gsis[i as int];
                let entry = GsiEntry { check_missing: !row.entry.check_missing, ..row.entry };
                Form { gsis: self.gsis.update(i as int, GsiRowView { entry, ..row }), ..self }
            },
            Focus::Lsi(i) => {
                let row = self.lsis[i as int];
                let entry = LsiEntry { check_missing: !row.entry.check_missing, ..row.entry };
                Form { lsis: self.lsis.update(i as int, LsiRowView { entry, ..row }), ..self }
            },
            _ => self,
        }
    }

    /// The text of a text field; other controls have none.
    pub open spec fn field(self, control: Focus) -> Option<Seq<char>> {
        match control {
            Focus::Table => Some(self.table),
            Focus::Region => Some(self.region),
            Focus::Segments => Some(self.segments),
            Focus::RateLimit => Some(self.rate_limit),
            Focus::CsvPath => Some(self.csv_path),
            Focus::NdjsonPath => Some(self.ndjson_path),
            _ => None,
        }
    }

    /// The form with another text in a text field.
    pub open spec fn with_field(self, control: Focus, text: Seq<char>) -> Form {
        match control {
            Focus::Table => Form { table: text, ..self },
            Focus::Region => Form { region: text, ..self },
            Focus::Segments => Form { segments: text, ..self },
            Focus::RateLimit => Form { rate_limit: text, ..self },
            Focus::CsvPath => Form { csv_path: text, ..self },
            Focus::NdjsonPath => Form { ndjson_path: text, ..self },
            _ => self,
        }
    }

    /// Whether the focused control takes the character: text fields do, and numeric
    /// ones digits only.
    pub open spec fn takes(self, c: char) -> bool {
        match self.focused() {
            Focus::Table | Focus::Region | Focus::CsvPath | Focus::NdjsonPath => true,
            Focus::Segments | Focus::RateLimit => text::is_digit(c),
            _ => false,
        }
    }

    /// The form after a character was typed.
    pub open spec fn typed(self, c: char) -> Form {
        match self.field(self.focused()) {
            Some(s) => if self.takes(c) {
                self.with_field(self.focused(), s.push(c))
            } else {
                self
            },
            None => self,
        }
    }

    /// The form after the last character of the focused text field was deleted.
    pub open spec fn erased(self) -> Form {
        match self.field(self.focused()) {
            Some(s) => if s.len() > 0 {
                self.with_field(self.focused(), s.drop_last())
            } else {
                self
            },
            None => self,
        }
    }
}

/// The type code as it is shown.
pub open spec fn code_letter(code: TypeCode) -> Seq<char> {
    match code {
        TypeCode::S => "S"@,
        TypeCode::N => "N"@,
        TypeCode::B => "B"@,
    }
}

/// A key schema as it is shown.
pub open spec fn key_text(pk: KeySchemaElement, sk: Option<KeySchemaElement>) -> Seq<char> {
    let of_pk = "pk "@ + pk.name@ + "("@ + code_letter(pk.type_code) + ")"@;
    match sk {
        Some(sk) => of_pk + " · sk "@ + sk.name@ + "("@ + code_letter(sk.type_code) + ")"@,
        None => of_pk,
    }
}

fn code_label(code: TypeCode) -> (r: &'static str)
    ensures
        r@ == code_letter(code),
{
    match code {
        TypeCode::S => "S",
        TypeCode::N => "N",
        TypeCode::B => "B",
    }
}

fn fmt_key(pk: &KeySchemaElement, sk: &Option<KeySchemaElement>) -> (r: String)
    ensures
        r@ == key_text(*pk, *sk),
{
    let mut out = "pk ".to_owned();
    out.append(pk.name.as_str());
    out.append("(");
    out.append(code_label(pk.type_code));
    out.append(")");
    if let Some(sk) = sk {
        out.append(" · sk ");
        out.append(sk.name.as_str());
        out.append("(");
        out.append(code_label(sk.type_code));
        out.append(")");
    }
    out
}

/// The missing-key toggle that the config carries for an existing GSI: that of its
/// first entry from `from` on, off if it has none.
pub open spec fn gsi_intent(entries: Seq<GsiEntry>, from: int, name: Seq<char>) -> bool
    decreases entries.len() - from,
{
    if from >= entries.len() || from < 0 {
        false
    } else if !entries[from].hypothetical && entries[from].name@ == name {
        entries[from].check_missing
    } else {
        gsi_intent(entries, from + 1, name)
    }
}

/// The missing-key toggle that the config carries for an LSI.
pub open spec fn lsi_intent(entries: Seq<LsiEntry>, from: int, name: Seq<char>) -> bool
    decreases entries.len() - from,
{
    if from >= entries.len() || from < 0 {
        false
    } else if entries[from].name@ == name {
        entries[from].check_missing
    } else {
        lsi_intent(entries, from + 1, name)
    }
}

/// The row of a discovered GSI.
pub open spec fn discovered_gsi(entries: Seq<GsiEntry>, schema: IndexSchema) -> GsiRowView {
    GsiRowView {
        entry: GsiEntry {
            name: schema.name,
            hypothetical: false,
            pk: None,
            sk: None,
            check_missing: gsi_intent(entries, 0, schema.name@),
        },
        key_desc: key_text(schema.pk, schema.sk),
    }
}

/// The row of a hypothetical GSI.
pub open spec fn hypothetical_gsi(entry: GsiEntry) -> GsiRowView {
    GsiRowView {
        entry,
        key_desc: match entry.pk {
            Some(pk) => key_text(pk, entry.sk),
            None => "no key schema"@,
        },
    }
}

/// The rows of the hypothetical GSIs among the entries, in order.
pub open spec fn hypothetical_gsis(entries: Seq<GsiEntry>) -> Seq<GsiRowView>
    decreases entries.len(),
{
    if entries.len() == 0 {
        Seq::empty()
    } else if entries.last().hypothetical {
        hypothetical_gsis(entries.drop_last()).push(hypothetical_gsi(entries.last()))
    } else {
        hypothetical_gsis(entries.drop_last())
    }
}

/// The GSI rows: the discovered GSIs, then the hypothetical ones.
pub open spec fn gsi_rows(entries: Seq<GsiEntry>, gsis: Seq<IndexSchema>) -> Seq<GsiRowView> {
    gsis.map_values(|schema: IndexSchema| discovered_gsi(entries, schema)) + hypothetical_gsis(
        entries,
    )
}

/// The LSI rows: the discovered LSIs.
pub open spec fn lsi_rows(entries: Seq<LsiEntry>, lsis: Seq<IndexSchema>) -> Seq<LsiRowView> {
    lsis.map_values(
        |schema: IndexSchema|
            LsiRowView {
                entry: LsiEntry {
                    name: schema.name,
                    check_missing: lsi_intent(entries, 0, schema.name@),
                },
                key_desc: key_text(schema.pk, schema.sk),
            },
    )
}

/// The TTL block for a discovered attribute, with the toggles of the config and the
/// defaults for those that it leaves open.
pub open spec fn ttl_row(attribute: Seq<char>, settings: Option<TtlSettings>) -> TtlRowView {
    match settings {
        Some(s) => TtlRowView {
            attribute,
            enabled: assemble::toggle(s.enabled, true),
            checks: seq![
                assemble::toggle(s.check_missing, true),
                assemble::toggle(s.check_wrong_type, true),
                assemble::toggle(s.check_ms_magnitude, true),
                assemble::toggle(s.check_malformed, true),
                assemble::toggle(s.check_past_5_years, false),
            ],
        },
        None => TtlRowView {
            attribute,
            enabled: true,
            checks: seq![true, true, true, true, false],
        },
    }
}

/// The form for a config and a discovered table.
pub open spec fn form_of(config: ScanConfig, description: TableDescription) -> Form {
    let gsis = gsi_rows(config.gsi@, description.gsis@);
    let lsis = lsi_rows(config.lsi@, description.lsis@);
    Form {
        table: config.table@,
        region: or_empty(config.region),
        segments: text::decimal(config.segments as nat),
        rate_limit: match config.rate_limit_percent {
            Some(percent) => text::decimal(percent as nat),
            None => Seq::empty(),
        },
        csv: config.export.csv,
        csv_path: or_empty(config.export.csv_path),
        ndjson: config.export.ndjson,
        ndjson_path: or_empty(config.export.ndjson_path),
        ttl: match description.ttl {
            Some(ttl) => Some(ttl_row(ttl.attribute@, config.ttl)),
            None => None,
        },
        gsis,
        lsis,
        order: form_order(description.ttl is Some, gsis.len(), lsis.len()),
        focus: 0,
    }
}

/// The text, or nothing.
pub open spec fn or_empty(s: Option<String>) -> Seq<char> {
    match s {
        Some(t) => t@,
        None => Seq::empty(),
    }
}

fn string_or_empty(s: &Option<String>) -> (r: String)
    ensures
        r@ == or_empty(*s),
{
    match s {
        Some(t) => t.clone(),
        None => {
            let r = String::new();
            assert(r@ =~= Seq::empty());
            r
        },
    }
}

fn carried_gsi_intent(entries: &Vec<GsiEntry>, name: &String) -> (r: bool)
    ensures
        r == gsi_intent(entries@, 0, name@),
{
    let mut i: usize = 0;
    while i < entries.len()
        invariant
            i <= entries@.len(),
            gsi_intent(entries@, 0, name@) == gsi_intent(entries@, i as int, name@),
        decreases entries@.len() - i,
    {
        if !entries[i].hypothetical && entries[i].name == *name {
            return entries[i].check_missing;
        }
        i += 1;
    }
    false
}

fn carried_lsi_intent(entries: &Vec<LsiEntry>, name: &String) -> (r: bool)
    ensures
        r == lsi_intent(entries@, 0, name@),
{
    let mut i: usize = 0;
    while i < entries.len()
        invariant
            i <= entries@.len(),
            lsi_intent(entries@, 0, name@) == lsi_intent(entries@, i as int, name@),
        decreases entries@.len() - i,
    {
        if entries[i].name == *name {
            return entries[i].check_missing;
        }
        i += 1;
    }
    false
}

fn build_gsi_rows(config: &ScanConfig, description: &TableDescription) -> (r: Vec<GsiRow>)
    ensures
        gsi_views(r@) == gsi_rows(config.gsi@, description.gsis@),
{
    let ghost discovered = description.gsis@.map_values(
        |schema: IndexSchema| discovered_gsi(config.gsi@, schema),
    );
    let mut rows: Vec<GsiRow> = Vec::new();
    let mut i: usize = 0;
    while i < description.gsis.len()
        invariant
            i <= description.gsis@.len(),
            discovered == description.gsis@.map_values(
                |schema: IndexSchema| discovered_gsi(config.gsi@, schema),
            ),
            gsi_views(rows@) =~= discovered.take(i as int),
        decreases description.gsis@.len() - i,
    {
        let schema = &description.gsis[i];
        let row = GsiRow {
            entry: GsiEntry {
                name: schema.name.clone(),
                hypothetical: false,
                pk: None,
                sk: None,
                check_missing: carried_gsi_intent(&config.gsi, &schema.name),
            },
            key_desc: fmt_key(&schema.pk, &schema.sk),
        };
        let ghost before = rows@;
        rows.push(row);
        assert(gsi_views(rows@) =~= gsi_views(before).push(discovered[i as int]));
        i += 1;
    }
    let mut j: usize = 0;
    while j < config.gsi.len()
        invariant
            j <= config.gsi@.len(),
            gsi_views(rows@) =~= discovered + hypothetical_gsis(
                config.gsi@.take(j as int),
            ),
        decreases config.gsi@.len() - j,
    {
        let entry = &config.gsi[j];
        assert(config.gsi@.take(j + 1).drop_last() =~= config.gsi@.take(j as int));
        if entry.hypothetical {
            let key_desc = match &entry.pk {
                Some(pk) => fmt_key(pk, &entry.sk),
                None => "no key schema".to_owned(),
            };
            let row = GsiRow { entry: entry.clone(), key_desc };
            let ghost before = rows@;
            rows.push(row);
            assert(gsi_views(rows@) =~= gsi_views(before).push(hypothetical_gsi(*entry)));
        }
        j += 1;
    }
    assert(config.gsi@.take(j as int) =~= config.gsi@);
    rows
}

fn build_lsi_rows(config: &ScanConfig, description: &TableDescription) -> (r: Vec<LsiRow>)
    ensures
        lsi_views(r@) == lsi_rows(config.lsi@, description.lsis@),
{
    let ghost all = lsi_rows(config.lsi@, description.lsis@);
    let mut rows: Vec<LsiRow> = Vec::new();
    let mut i: usize = 0;
    while i < description.lsis.len()
        invariant
            i <= description.lsis@.len(),
            all == lsi_rows(config.lsi@, description.lsis@),
            lsi_views(rows@) =~= all.take(i as int),
        decreases description.lsis@.len() - i,
    {
        let schema = &description.lsis[i];
        let row = LsiRow {
            entry: LsiEntry {
                name: schema.name.clone(),
                check_missing: carried_lsi_intent(&config.lsi, &schema.name),
            },
            key_desc: fmt_key(&schema.pk, &schema.sk),
        };
        let ghost before = rows@;
        rows.push(row);
        assert(lsi_views(rows@) =~= lsi_views(before).push(all[i as int]));
        i += 1;
    }
    rows
}

/// The TTL row of the form, if the table has a TTL attribute.
pub fn build_ttl_row(config: &ScanConfig, description: &TableDescription) -> (r: Option<TtlRow>)
    ensures
        match (r, description.ttl) {
            (Some(row), Some(ttl)) => row@ == ttl_row(ttl.attribute@, config.ttl),
            (None, None) => true,
            _ => false,
        },
{
    match &description.ttl {
        None => None,
        Some(ttl) => {
            let settings = match &config.ttl {
                Some(s) => *s,
                None => TtlSettings::default(),
            };
            let row = TtlRow {
                attribute: ttl.attribute.clone(),
                enabled: settings.enabled.unwrap_or(true),
                checks: [
                    settings.check_missing.unwrap_or(true),
                    settings.check_wrong_type.unwrap_or(true),
                    settings.check_ms_magnitude.unwrap_or(true),
                    settings.check_malformed.unwrap_or(true),
                    settings.check_past_5_years.unwrap_or(false),
                ],
            };
            assert(row.checks@ =~= ttl_row(ttl.attribute@, config.ttl).checks);
            Some(row)
        },
    }
}

fn build_order(ttl: bool, gsi_count: usize, lsi_count: usize) -> (r: Vec<Focus>)
    ensures
        r@ == form_order(ttl, gsi_count as nat, lsi_count as nat),
{
    let mut order: Vec<Focus> = Vec::new();
    order.push(Focus::Table);
    order.push(Focus::Region);
    order.push(Focus::Segments);
    order.push(Focus::RateLimit);
    order.push(Focus::Csv);
    order.push(Focus::CsvPath);
    order.push(Focus::Ndjson);
    order.push(Focus::NdjsonPath);
    if ttl {
        order.push(Focus::TtlEnabled);
        order.push(Focus::TtlCheck(0));
        order.push(Focus::TtlCheck(1));
        order.push(Focus::TtlCheck(2));
        order.push(Focus::TtlCheck(3));
        order.push(Focus::TtlCheck(4));
    }
    let ghost fixed = order@;
    let mut i: usize = 0;
    while i < gsi_count
        invariant
            i <= gsi_count,
            order@ =~= fixed + Seq::new(i as nat, |k: int| Focus::Gsi(k as usize)),
        decreases gsi_count - i,
    {
        order.push(Focus::Gsi(i));
        i += 1;
    }
    let ghost with_gsis = order@;
    let mut j: usize = 0;
    while j < lsi_count
        invariant
            j <= lsi_count,
            order@ =~= with_gsis + Seq::new(j as nat, |k: int| Focus::Lsi(k as usize)),
        decreases lsi_count - j,
    {
        order.push(Focus::Lsi(j));
        j += 1;
    }
    order.push(Focus::Start);
    assert(order@ =~= form_order(ttl, gsi_count as nat, lsi_count as nat));
    order
}

impl SetupScreen {
    /// The form for a loaded config and the table schema discovered for it.
    ///
    /// Discovered GSIs and LSIs seed the rows; the missing-key toggle that the config
    /// carries for a matching name is taken over. Hypothetical GSIs of the config
    /// come after them with their declared key schema.
    pub fn new(config: &ScanConfig, description: &TableDescription) -> (r: Self)
        ensures
            r@ == form_of(*config, *description),
            r@.well_formed(),
    {
        let gsis = build_gsi_rows(config, description);
        let lsis = build_lsi_rows(config, description);
        let ttl = build_ttl_row(config, description);
        let order = build_order(ttl.is_some(), gsis.len(), lsis.len());
        let rate_limit = match config.rate_limit_percent {
            Some(percent) => text::decimal_text(percent as u128),
            None => string_or_empty(&None),
        };
        let r = SetupScreen {
            table: config.table.clone(),
            region: string_or_empty(&config.region),
            segments: text::decimal_text(config.segments as u128),
            rate_limit,
            csv: config.export.csv,
            csv_path: string_or_empty(&config.export.csv_path),
            ndjson: config.export.ndjson,
            ndjson_path: string_or_empty(&config.export.ndjson_path),
            ttl,
            gsis,
            lsis,
            order,
            focus: 0,
        };
        assert(r@.gsis.len() == r.gsis@.len());
        assert(r@.lsis.len() == r.lsis@.len());
        assert(r@ =~= form_of(*config, *description));
        r
    }

    /// Moves focus to the next control, wrapping at the end.
    pub fn focus_next(&mut self)
        requires
            old(self)@.well_formed(),
        ensures
            final(self)@ == (Form {
                focus: (old(self)@.focus + 1) % old(self)@.order.len() as int,
                ..old(self)@
            }),
            final(self)@.well_formed(),
    {
        let last: usize = self.order.len() - 1;
        self.focus = if self.focus == last {
            0
        } else {
            self.focus + 1
        };
        proof {
            let len = old(self)@.order.len() as int;
            let next = old(self)@.focus + 1;
            assert(next < len ==> next % len == next) by (nonlinear_arith)
                requires
                    0 <= next,
            ;
            assert(next == len ==> next % len == 0) by (nonlinear_arith)
                requires
                    0 < len,
            ;
        }
    }

    /// Moves focus to the previous control, wrapping at the start.
    pub fn focus_prev(&mut self)
        requires
            old(self)@.well_formed(),
        ensures
            final(self)@ == (Form {
                focus: (old(self)@.focus - 1) % old(self)@.order.len() as int,
                ..old(self)@
            }),
            final(self)@.well_formed(),
    {
        self.focus = if self.focus == 0 {
            self.order.len() - 1
        } else {
            self.focus - 1
        };
        proof {
            let len = old(self)@.order.len() as int;
            let prev = old(self)@.focus - 1;
            assert(0 <= prev < len ==> prev % len == prev) by (nonlinear_arith);
            assert(prev == -1 ==> prev % len == len - 1) by (nonlinear_arith)
                requires
                    0 < len,
            ;
        }
    }

    /// The focused control.
    pub fn focused(&self) -> (r: Focus)
        requires
            self@.well_formed(),
        ensures
            r == self@.focused(),
    {
        self.order[self.focus]
    }

    /// True when the *Start scan* button is focused.
    pub fn is_start_focused(&self) -> (r: bool)
        requires
            self@.well_formed(),
        ensures
            r == (self@.focused() == Focus::Start),
    {
        self.order[self.focus] == Focus::Start
    }

    /// True when the focused control is a text field.
    pub fn focus_is_text(&self) -> (r: bool)
        requires
            self@.well_formed(),
        ensures
            r == (self@.field(self@.focused()) is Some),
    {
        match self.order[self.focus] {
            Focus::Table => true,
            Focus::Region => true,
            Focus::Segments => true,
            Focus::RateLimit => true,
            Focus::CsvPath => true,
            Focus::NdjsonPath => true,
            _ => false,
        }
    }

    /// Flips the focused toggle. Text fields and the Start button stay as they are.
    pub fn toggle(&mut self)
        requires
            old(self)@.well_formed(),
        ensures
            final(self)@ == old(self)@.toggled(),
            final(self)@.well_formed(),
    {
        let ghost before = self@;
        proof {
            lemma_order_is_valid(before);
        }
        match self.order[self.focus] {
            Focus::Csv => {
                self.csv = !self.csv;
            },
            Focus::Ndjson => {
                self.ndjson = !self.ndjson;
            },
            Focus::TtlEnabled => {
                if let Some(ttl) = &mut self.ttl {
                    ttl.enabled = !ttl.enabled;
                }
            },
            Focus::TtlCheck(i) => {
                if let Some(ttl) = &mut self.ttl {
                    ttl.checks[i] = !ttl.checks[i];
                }
            },
            Focus::Gsi(i) => {
                let flipped = !self.gsis[i].entry.check_missing;
                self.gsis[i].entry.check_missing = flipped;
            },
            Focus::Lsi(i) => {
                let flipped = !self.lsis[i].entry.check_missing;
                self.lsis[i].entry.check_missing = flipped;
            },
            _ => {},
        }
        assert(self@.gsis =~= before.toggled().gsis);
        assert(self@.lsis =~= before.toggled().lsis);
        assert(self@ =~= before.toggled());
    }
}

/// Every control in the navigation order exists.
proof fn lemma_order_is_valid(form: Form)
    requires
        form.well_formed(),
    ensures
        match form.focused() {
            Focus::TtlEnabled => form.ttl is Some,
            Focus::TtlCheck(i) => form.ttl is Some && i < 5,
            Focus::Gsi(i) => i < form.gsis.len(),
            Focus::Lsi(i) => i < form.lsis.len(),
            _ => true,
        },
{
}

impl SetupScreen {
    /// Appends a character to the focused text field. Numeric fields take digits
    /// only; toggles and the Start button ignore input.
    pub fn input_char(&mut self, c: char)
        requires
            old(self)@.well_formed(),
        ensures
            final(self)@ == old(self)@.typed(c),
            final(self)@.well_formed(),
    {
        let digit = '0' <= c && c <= '9';
        match self.order[self.focus] {
            Focus::Table => self.table.push(c),
            Focus::Region => self.region.push(c),
            Focus::CsvPath => self.csv_path.push(c),
            Focus::NdjsonPath => self.ndjson_path.push(c),
            Focus::Segments => {
                if digit {
                    self.segments.push(c);
                }
            },
            Focus::RateLimit => {
                if digit {
                    self.rate_limit.push(c);
                }
            },
            _ => {},
        }
        assert(self@ =~= old(self)@.typed(c));
    }

    /// Deletes the last character of the focused text field.
    pub fn backspace(&mut self)
        requires
            old(self)@.well_formed(),
        ensures
            final(self)@ == old(self)@.erased(),
            final(self)@.well_formed(),
    {
        match self.order[self.focus] {
            Focus::Table => {
                let _ = self.table.pop();
            },
            Focus::Region => {
                let _ = self.region.pop();
            },
            Focus::Segments => {
                let _ = self.segments.pop();
            },
            Focus::RateLimit => {
                let _ = self.rate_limit.pop();
            },
            Focus::CsvPath => {
                let _ = self.csv_path.pop();
            },
            Focus::NdjsonPath => {
                let _ = self.ndjson_path.pop();
            },
            _ => {},
        }
        assert(self@ =~= old(self)@.erased());
    }
}

/// The text without outer white space, if anything is left of it.
pub open spec fn trimmed_option(s: Seq<char>) -> Option<Seq<char>> {
    if text::trimmed(s).len() == 0 {
        None
    } else {
        Some(text::trimmed(s))
    }
}

/// The toggles of a TTL block as settings.
pub open spec fn ttl_settings(row: TtlRowView) -> TtlSettings {
    TtlSettings {
        enabled: Some(row.enabled),
        check_missing: Some(row.checks[0]),
        check_wrong_type: Some(row.checks[1]),
        check_ms_magnitude: Some(row.checks[2]),
        check_malformed: Some(row.checks[3]),
        check_past_5_years: Some(row.checks[4]),
    }
}

/// The number of segments that the form names, if it names one.
pub open spec fn form_segments(form: Form) -> Option<nat> {
    match text::unsigned(text::trimmed(form.segments)) {
        Some(n) => if n <= usize::MAX {
            Some(n)
        } else {
            None
        },
        None => None,
    }
}

/// The percentage that the form names, if it names one.
pub open spec fn form_rate(form: Form) -> Option<nat> {
    match text::unsigned(text::trimmed(form.rate_limit)) {
        Some(n) => if n <= u8::MAX {
            Some(n)
        } else {
            None
        },
        None => None,
    }
}

/// The form leaves the rate unlimited.
pub open spec fn is_unlimited(form: Form) -> bool {
    text::trimmed(form.rate_limit).len() == 0
}

/// What is wrong with the form, in words for the user.
pub open spec fn form_error(form: Form) -> Option<Seq<char>> {
    if text::trimmed(form.table).len() == 0 {
        Some("Table name is required; type a table to scan."@)
    } else if form_segments(form) is None {
        Some("Segments must be a whole number."@)
    } else if form_segments(form) == Some(0nat) {
        Some("Segments must be at least 1."@)
    } else if is_unlimited(form) {
        None
    } else if form_rate(form) is None {
        Some("Rate limit must be a whole percentage."@)
    } else if form_rate(form)->0 < 1 || form_rate(form)->0 > config::MAX_RATE_LIMIT_PERCENT {
        Some(
            "Rate limit must be 1..="@ + text::decimal(config::MAX_RATE_LIMIT_PERCENT as nat)
                + "; leave blank for unlimited."@,
        )
    } else {
        None
    }
}

/// `config` is what the form stands for.
pub open spec fn is_config_of(config: ScanConfig, form: Form) -> bool {
    &&& config.table@ == text::trimmed(form.table)
    &&& text::opt_view(config.region) == trimmed_option(form.region)
    &&& config.profile is None
    &&& form_segments(form) == Some(config.segments as nat)
    &&& match config.rate_limit_percent {
        Some(percent) => !is_unlimited(form) && form_rate(form) == Some(percent as nat),
        None => is_unlimited(form),
    }
    &&& config.export.csv == form.csv
    &&& text::opt_view(config.export.csv_path) == trimmed_option(form.csv_path)
    &&& config.export.ndjson == form.ndjson
    &&& text::opt_view(config.export.ndjson_path) == trimmed_option(form.ndjson_path)
    &&& config.gsi@ == form.gsis.map_values(|row: GsiRowView| row.entry)
    &&& config.lsi@ == form.lsis.map_values(|row: LsiRowView| row.entry)
    &&& config.ttl == (match form.ttl {
        Some(row) => Some(ttl_settings(row)),
        None => None,
    })
}

fn trimmed_opt(value: &str) -> (r: Option<String>)
    ensures
        text::opt_view(r) == trimmed_option(value@),
{
    let trimmed = value.trim();
    if trimmed.is_empty() {
        None
    } else {
        Some(trimmed.to_owned())
    }
}

impl TtlRow {
    /// The toggles as settings.
    pub fn to_settings(&self) -> (r: TtlSettings)
        ensures
            r == ttl_settings(self@),
    {
        TtlSettings {
            enabled: Some(self.enabled),
            check_missing: Some(self.checks[0]),
            check_wrong_type: Some(self.checks[1]),
            check_ms_magnitude: Some(self.checks[2]),
            check_malformed: Some(self.checks[3]),
            check_past_5_years: Some(self.checks[4]),
        }
    }
}

impl SetupScreen {
    /// Projects the form back onto a [`ScanConfig`].
    ///
    /// Holds the form to the constraints of the config loader; returns an actionable
    /// message on failure.
    pub fn to_scan_config(&self) -> (r: Result<ScanConfig, String>)
        ensures
            match r {
                Err(message) => form_error(self@) == Some(message@),
                Ok(config) => form_error(self@) is None && is_config_of(config, self@),
            },
    {
        let table = self.table.as_str().trim();
        if table.is_empty() {
            return Err("Table name is required; type a table to scan.".to_owned());
        }
        let segments: usize = match text::parse_unsigned(
            self.segments.as_str().trim(),
            usize::MAX as u64,
        ) {
            Some(n) => n as usize,
            None => return Err("Segments must be a whole number.".to_owned()),
        };
        if segments == 0 {
            return Err("Segments must be at least 1.".to_owned());
        }
        let raw = self.rate_limit.as_str().trim();
        let rate_limit_percent: Option<u8> = if raw.is_empty() {
            None
        } else {
            let percent: u8 = match text::parse_unsigned(raw, u8::MAX as u64) {
                Some(n) => n as u8,
                None => return Err("Rate limit must be a whole percentage.".to_owned()),
            };
            if percent < 1 || percent > config::MAX_RATE_LIMIT_PERCENT {
                let mut message = "Rate limit must be 1..=".to_owned();
                text::push_decimal(&mut message, config::MAX_RATE_LIMIT_PERCENT as u128);
                message.append("; leave blank for unlimited.");
                return Err(message);
            }
            Some(percent)
        };
        Ok(
            ScanConfig {
                table: table.to_owned(),
                region: trimmed_opt(self.region.as_str()),
                profile: None,
                segments,
                rate_limit_percent,
                export: ExportConfig {
                    csv: self.csv,
                    csv_path: trimmed_opt(self.csv_path.as_str()),
                    ndjson: self.ndjson,
                    ndjson_path: trimmed_opt(self.ndjson_path.as_str()),
                },
                gsi: gsi_entries(&self.gsis),
                lsi: lsi_entries(&self.lsis),
                ttl: match &self.ttl {
                    Some(row) => Some(row.to_settings()),
                    None => None,
                },
            },
        )
    }
}

fn gsi_entries(rows: &Vec<GsiRow>) -> (r: Vec<GsiEntry>)
    ensures
        r@ == gsi_views(rows@).map_values(|row: GsiRowView| row.entry),
{
    let mut entries: Vec<GsiEntry> = Vec::new();
    let mut i: usize = 0;
    while i < rows.len()
        invariant
            i <= rows@.len(),
            entries@.len() == i,
            forall|k: int| 0 <= k < i ==> #[trigger] entries@[k] == rows@[k].entry,
        decreases rows@.len() - i,
    {
        entries.push(rows[i].entry.clone());
        i += 1;
    }
    assert(entries@ =~= gsi_views(rows@).map_values(|row: GsiRowView| row.entry));
    entries
}

fn lsi_entries(rows: &Vec<LsiRow>) -> (r: Vec<LsiEntry>)
    ensures
        r@ == lsi_views(rows@).map_values(|row: LsiRowView| row.entry),
{
    let mut entries: Vec<LsiEntry> = Vec::new();
    let mut i: usize = 0;
    while i < rows.len()
        invariant
            i <= rows@.len(),
            entries@.len() == i,
            forall|k: int| 0 <= k < i ==> #[trigger] entries@[k] == rows@[k].entry,
        decreases rows@.len() - i,
    {
        entries.push(rows[i].entry.clone());
        i += 1;
    }
    assert(entries@ =~= lsi_views(rows@).map_values(|row: LsiRowView| row.entry));
    entries
}

/// One line of the form and the control on it, if there is one.
pub struct RowView {
    pub focus: Option<Focus>,
    pub line: Seq<SpanView>,
}

/// A section title.
pub open spec fn header_row(title: Seq<char>) -> RowView {
    RowView { focus: None, line: line::styled(title, Style::Section) }
}

/// A line without a control.
pub open spec fn plain_row(text: Seq<char>, style: Style) -> RowView {
    RowView { focus: None, line: line::styled(text, style) }
}

/// A line with a control, marked if the control is focused.
pub open spec fn control_row(focused: Focus, control: Focus, text: Seq<char>) -> RowView {
    RowView {
        focus: Some(control),
        line: line::styled(
            text,
            if focused == control {
                Style::Focused
            } else {
                Style::Plain
            },
        ),
    }
}

/// A text field: its value, or a placeholder while it is empty, and a cursor while it
/// is focused.
pub open spec fn field_row(
    focused: Focus,
    control: Focus,
    label: Seq<char>,
    value: Seq<char>,
    placeholder: Seq<char>,
) -> RowView {
    control_row(
        focused,
        control,
        "  "@ + label + ": "@ + (if value.len() == 0 {
            placeholder
        } else {
            value
        }) + (if focused == control {
            "█"@
        } else {
            Seq::empty()
        }),
    )
}

/// A toggle, indented by so many steps.
pub open spec fn toggle_row(
    focused: Focus,
    control: Focus,
    label: Seq<char>,
    on: bool,
    indent: nat,
) -> RowView {
    control_row(
        focused,
        control,
        text::repeated(' ', 2 * (indent + 1)) + (if on {
            "[x]"@
        } else {
            "[ ]"@
        }) + " "@ + label,
    )
}

/// The label of a TTL check, by its position.
pub open spec fn ttl_check_label(i: int) -> Seq<char> {
    if i == 0 {
        "Missing attribute"@
    } else if i == 1 {
        "Wrong type (not N)"@
    } else if i == 2 {
        "Millisecond magnitude"@
    } else if i == 3 {
        "Malformed (zero/negative/non-integer)"@
    } else {
        "Ignored: > 5 years past"@
    }
}

/// How a GSI is tagged.
pub open spec fn tag_text(hypothetical: bool) -> Seq<char> {
    if hypothetical {
        "[hypothetical]"@
    } else {
        "[existing]"@
    }
}

/// The label of a GSI row.
pub open spec fn gsi_label(row: GsiRowView) -> Seq<char> {
    row.entry.name@ + " "@ + tag_text(row.entry.hypothetical) + "  "@ + row.key_desc
        + "  — check missing key"@
}

/// The label of an LSI row.
pub open spec fn lsi_label(row: LsiRowView) -> Seq<char> {
    row.entry.name@ + "  "@ + row.key_desc + "  — check missing key"@
}

/// The lines of the fixed sections.
pub open spec fn fixed_rows(form: Form) -> Seq<RowView> {
    let focused = form.focused();
    seq![
        header_row("AWS"@),
        field_row(focused, Focus::Table, "Table"@, form.table, Seq::empty()),
        field_row(
            focused,
            Focus::Region,
            "Region override"@,
            form.region,
            "(profile default)"@,
        ),
        header_row("Scan"@),
        field_row(focused, Focus::Segments, "Segments"@, form.segments, Seq::empty()),
        field_row(focused, Focus::RateLimit, "Rate limit %"@, form.rate_limit, "unlimited"@),
        header_row("Export"@),
        toggle_row(focused, Focus::Csv, "CSV"@, form.csv, 0),
        field_row(focused, Focus::CsvPath, "  path"@, form.csv_path, "(default)"@),
        toggle_row(focused, Focus::Ndjson, "NDJSON"@, form.ndjson, 0),
        field_row(focused, Focus::NdjsonPath, "  path"@, form.ndjson_path, "(default)"@),
    ]
}

/// The lines of the TTL block.
pub open spec fn ttl_rows(form: Form) -> Seq<RowView> {
    let focused = form.focused();
    match form.ttl {
        Some(row) => seq![
            header_row("TTL  (attribute `"@ + row.attribute + "`)"@),
            toggle_row(focused, Focus::TtlEnabled, "Enabled"@, row.enabled, 0),
        ] + Seq::new(
            5,
            |i: int|
                toggle_row(
                    focused,
                    Focus::TtlCheck(i as usize),
                    ttl_check_label(i),
                    row.checks[i],
                    1,
                ),
        ),
        None => Seq::empty(),
    }
}

/// The lines of the GSIs.
pub open spec fn gsi_section(form: Form) -> Seq<RowView> {
    if form.gsis.len() == 0 {
        Seq::empty()
    } else {
        seq![header_row("GSIs  (type + size checks always on)"@)] + Seq::new(
            form.gsis.len(),
            |i: int|
                toggle_row(
                    form.focused(),
                    Focus::Gsi(i as usize),
                    gsi_label(form.gsis[i]),
                    form.gsis[i].entry.check_missing,
                    0,
                ),
        )
    }
}

/// The lines of the LSIs.
pub open spec fn lsi_section(form: Form) -> Seq<RowView> {
    if form.lsis.len() == 0 {
        Seq::empty()
    } else {
        seq![header_row("LSIs"@)] + Seq::new(
            form.lsis.len(),
            |i: int|
                toggle_row(
                    form.focused(),
                    Focus::Lsi(i as usize),
                    lsi_label(form.lsis[i]),
                    form.lsis[i].entry.check_missing,
                    0,
                ),
        )
    }
}

/// The lines under the sections.
pub open spec fn closing_rows(form: Form) -> Seq<RowView> {
    seq![
        plain_row(Seq::empty(), Style::Plain),
        control_row(form.focused(), Focus::Start, "  [ "@ + "Start scan"@ + " ]"@),
        plain_row(
            "↑/↓ move · space toggle · type to edit · enter start · q quit"@,
            Style::Muted,
        ),
    ]
}

/// All lines of the form.
pub open spec fn form_rows(form: Form) -> Seq<RowView> {
    fixed_rows(form) + ttl_rows(form) + gsi_section(form) + lsi_section(form) + closing_rows(form)
}

/// The line that the focused control is on.
pub open spec fn focused_row(rows: Seq<RowView>, focused: Focus) -> nat
    decreases rows.len(),
{
    if rows.len() == 0 {
        0
    } else if rows.last().focus == Some(focused) {
        (rows.len() - 1) as nat
    } else {
        focused_row(rows.drop_last(), focused)
    }
}

/// The lines as they are shown.
pub open spec fn shown(rows: Seq<RowView>) -> Seq<Seq<SpanView>> {
    rows.map_values(|row: RowView| row.line)
}

/// Collects lines and keeps track of which one holds the focused control.
struct LineBuilder {
    lines: Vec<Line>,
    focused: Focus,
    focused_line: usize,
    rows: Ghost<Seq<RowView>>,
}

impl LineBuilder {
    spec fn well_formed(self) -> bool {
        &&& line::line_views(self.lines@) == shown(self.rows@)
        &&& self.focused_line == focused_row(self.rows@, self.focused)
    }

    fn new(focused: Focus) -> (r: Self)
        ensures
            r.well_formed(),
            r.focused == focused,
            r.rows@ == Seq::<RowView>::empty(),
    {
        let r = LineBuilder {
            lines: Vec::new(),
            focused,
            focused_line: 0,
            rows: Ghost(Seq::empty()),
        };
        assert(line::line_views(r.lines@) =~= shown(r.rows@));
        r
    }

    fn plain(&mut self, content: String, style: Style)
        requires
            old(self).well_formed(),
        ensures
            final(self).well_formed(),
            final(self).focused == old(self).focused,
            final(self).rows@ == old(self).rows@.push(plain_row(content@, style)),
    {
        let ghost row = plain_row(content@, style);
        self.lines.push(Line::styled(content, style));
        proof {
            self.rows@ = self.rows@.push(row);
            assert(self.rows@.drop_last() =~= old(self).rows@);
        }
        assert(line::line_views(self.lines@) =~= line::line_views(old(self).lines@).push(
            row.line,
        ));
        assert(shown(self.rows@) =~= shown(old(self).rows@).push(row.line));
    }

    fn header(&mut self, title: &str)
        requires
            old(self).well_formed(),
        ensures
            final(self).well_formed(),
            final(self).focused == old(self).focused,
            final(self).rows@ == old(self).rows@.push(header_row(title@)),
    {
        self.plain(title.to_owned(), Style::Section);
    }

    fn blank(&mut self)
        requires
            old(self).well_formed(),
        ensures
            final(self).well_formed(),
            final(self).focused == old(self).focused,
            final(self).rows@ == old(self).rows@.push(plain_row(Seq::empty(), Style::Plain)),
    {
        let content = String::new();
        assert(content@ =~= Seq::empty());
        self.plain(content, Style::Plain);
    }

    fn hint(&mut self, text: &str)
        requires
            old(self).well_formed(),
        ensures
            final(self).well_formed(),
            final(self).focused == old(self).focused,
            final(self).rows@ == old(self).rows@.push(plain_row(text@, Style::Muted)),
    {
        self.plain(text.to_owned(), Style::Muted);
    }

    fn text_field(&mut self, control: Focus, label: &str, value: &str, placeholder: &str)
        requires
            old(self).well_formed(),
        ensures
            final(self).well_formed(),
            final(self).focused == old(self).focused,
            final(self).rows@ == old(self).rows@.push(
                field_row(old(self).focused, control, label@, value@, placeholder@),
            ),
    {
        let mut content = "  ".to_owned();
        content.append(label);
        content.append(": ");
        if value.is_empty() {
            content.append(placeholder);
        } else {
            content.append(value);
        }
        if self.focused == control {
            content.append("█");
        }
        assert(content@ =~= "  "@ + label@ + ": "@ + (if value@.len() == 0 {
            placeholder@
        } else {
            value@
        }) + (if self.focused == control {
            "█"@
        } else {
            Seq::empty()
        }));
        self.push_focusable(control, content);
    }

    fn toggle(&mut self, control: Focus, label: &str, on: bool, indent: usize)
        requires
            old(self).well_formed(),
            indent <= 1,
        ensures
            final(self).well_formed(),
            final(self).focused == old(self).focused,
            final(self).rows@ == old(self).rows@.push(
                toggle_row(old(self).focused, control, label@, on, indent as nat),
            ),
    {
        let mut content = String::new();
        text::push_repeated(&mut content, ' ', 2 * (indent + 1));
        assert(content@ =~= text::repeated(' ', 2 * (indent as nat + 1)));
        if on {
            content.append("[x]");
        } else {
            content.append("[ ]");
        }
        content.append(" ");
        content.append(label);
        self.push_focusable(control, content);
    }

    fn button(&mut self, control: Focus, label: &str)
        requires
            old(self).well_formed(),
        ensures
            final(self).well_formed(),
            final(self).focused == old(self).focused,
            final(self).rows@ == old(self).rows@.push(
                control_row(old(self).focused, control, "  [ "@ + label@ + " ]"@),
            ),
    {
        let mut content = "  [ ".to_owned();
        content.append(label);
        content.append(" ]");
        self.push_focusable(control, content);
    }

    fn push_focusable(&mut self, control: Focus, content: String)
        requires
            old(self).well_formed(),
        ensures
            final(self).well_formed(),
            final(self).focused == old(self).focused,
            final(self).rows@ == old(self).rows@.push(
                control_row(old(self).focused, control, content@),
            ),
    {
        let ghost row = control_row(self.focused, control, content@);
        assert(line::line_views(self.lines@).len() == shown(self.rows@).len());
        let style = if self.focused == control {
            self.focused_line = self.lines.len();
            Style::Focused
        } else {
            Style::Plain
        };
        self.lines.push(Line::styled(content, style));
        proof {
            self.rows@ = self.rows@.push(row);
            assert(self.rows@.drop_last() =~= old(self).rows@);
        }
        assert(line::line_views(self.lines@) =~= line::line_views(old(self).lines@).push(
            row.line,
        ));
        assert(shown(self.rows@) =~= shown(old(self).rows@).push(row.line));
    }
}

fn ttl_check_name(i: usize) -> (r: &'static str)
    ensures
        r@ == ttl_check_label(i as int),
{
    if i == 0 {
        "Missing attribute"
    } else if i == 1 {
        "Wrong type (not N)"
    } else if i == 2 {
        "Millisecond magnitude"
    } else if i == 3 {
        "Malformed (zero/negative/non-integer)"
    } else {
        "Ignored: > 5 years past"
    }
}

fn tag(hypothetical: bool) -> (r: &'static str)
    ensures
        r@ == tag_text(hypothetical),
{
    if hypothetical {
        "[hypothetical]"
    } else {
        "[existing]"
    }
}

fn gsi_row_label(row: &GsiRow) -> (r: String)
    ensures
        r@ == gsi_label(row@),
{
    let mut label = row.entry.name.clone();
    label.append(" ");
    label.append(tag(row.entry.hypothetical));
    label.append("  ");
    label.append(row.key_desc.as_str());
    label.append("  — check missing key");
    label
}

fn lsi_row_label(row: &LsiRow) -> (r: String)
    ensures
        r@ == lsi_label(row@),
{
    let mut label = row.entry.name.clone();
    label.append("  ");
    label.append(row.key_desc.as_str());
    label.append("  — check missing key");
    label
}

impl SetupScreen {
    /// The lines of the form, and the one that the focused control is on.
    pub fn build_lines(&self) -> (r: (Vec<Line>, usize))
        requires
            self@.well_formed(),
        ensures
            line::line_views(r.0@) == shown(form_rows(self@)),
            r.1 == focused_row(form_rows(self@), self@.focused()),
    {
        let ghost form = self@;
        let mut b = LineBuilder::new(self.order[self.focus]);
        self.build_fixed(&mut b);
        self.build_ttl(&mut b);
        self.build_indexes(&mut b);
        b.blank();
        b.button(Focus::Start, "Start scan");
        b.hint("↑/↓ move · space toggle · type to edit · enter start · q quit");
        assert(b.rows@ =~= form_rows(form));
        (b.lines, b.focused_line)
    }

    fn build_fixed(&self, b: &mut LineBuilder)
        requires
            self@.well_formed(),
            old(b).well_formed(),
            old(b).focused == self@.focused(),
        ensures
            final(b).well_formed(),
            final(b).focused == old(b).focused,
            final(b).rows@ == old(b).rows@ + fixed_rows(self@),
    {
        proof {
            reveal_strlit("");
            assert(""@ =~= Seq::empty());
        }
        b.header("AWS");
        b.text_field(Focus::Table, "Table", self.table.as_str(), "");
        b.text_field(
            Focus::Region,
            "Region override",
            self.region.as_str(),
            "(profile default)",
        );
        b.header("Scan");
        b.text_field(Focus::Segments, "Segments", self.segments.as_str(), "");
        b.text_field(Focus::RateLimit, "Rate limit %", self.rate_limit.as_str(), "unlimited");
        b.header("Export");
        b.toggle(Focus::Csv, "CSV", self.csv, 0);
        b.text_field(Focus::CsvPath, "  path", self.csv_path.as_str(), "(default)");
        b.toggle(Focus::Ndjson, "NDJSON", self.ndjson, 0);
        b.text_field(Focus::NdjsonPath, "  path", self.ndjson_path.as_str(), "(default)");
        assert(b.rows@ =~= old(b).rows@ + fixed_rows(self@));
    }

    fn build_ttl(&self, b: &mut LineBuilder)
        requires
            self@.well_formed(),
            old(b).well_formed(),
            old(b).focused == self@.focused(),
        ensures
            final(b).well_formed(),
            final(b).focused == old(b).focused,
            final(b).rows@ == old(b).rows@ + ttl_rows(self@),
    {
        let ghost before = b.rows@;
        let ghost rows = ttl_rows(self@);
        if let Some(ttl) = &self.ttl {
            let mut title = "TTL  (attribute `".to_owned();
            title.append(ttl.attribute.as_str());
            title.append("`)");
            b.header(title.as_str());
            b.toggle(Focus::TtlEnabled, "Enabled", ttl.enabled, 0);
            assert(b.rows@ =~= before + rows.take(2));
            let mut i: usize = 0;
            while i < 5
                invariant
                    i <= 5,
                    self.ttl == Some(*ttl),
                    rows == ttl_rows(self@),
                    b.well_formed(),
                    b.focused == self@.focused(),
                    b.rows@ =~= before + rows.take(i as int + 2),
                decreases 5 - i,
            {
                b.toggle(Focus::TtlCheck(i), ttl_check_name(i), ttl.checks[i], 1);
                assert(rows.take(i as int + 3) =~= rows.take(i as int + 2).push(
                    rows[i as int + 2],
                ));
                i += 1;
            }
        }
        assert(b.rows@ =~= before + rows);
    }

    fn build_indexes(&self, b: &mut LineBuilder)
        requires
            self@.well_formed(),
            old(b).well_formed(),
            old(b).focused == self@.focused(),
        ensures
            final(b).well_formed(),
            final(b).focused == old(b).focused,
            final(b).rows@ == old(b).rows@ + gsi_section(self@) + lsi_section(self@),
    {
        let ghost form = self@;
        let ghost before = b.rows@;
        let ghost gsi_lines = gsi_section(form);
        if self.gsis.len() > 0 {
            b.header("GSIs  (type + size checks always on)");
            assert(b.rows@ =~= before + gsi_lines.take(1));
            let mut i: usize = 0;
            while i < self.gsis.len()
                invariant
                    i <= self.gsis@.len(),
                    self.gsis@.len() > 0,
                    form == self@,
                    gsi_lines == gsi_section(form),
                    b.well_formed(),
                    b.focused == form.focused(),
                    b.rows@ =~= before + gsi_lines.take(i as int + 1),
                decreases self.gsis@.len() - i,
            {
                let row = &self.gsis[i];
                assert(form.gsis[i as int] == row@);
                let label = gsi_row_label(row);
                b.toggle(Focus::Gsi(i), label.as_str(), row.entry.check_missing, 0);
                assert(gsi_lines.take(i as int + 2) =~= gsi_lines.take(i as int + 1).push(
                    gsi_lines[i as int + 1],
                ));
                i += 1;
            }
        }
        assert(b.rows@ =~= before + gsi_lines);
        let ghost mid = b.rows@;
        let ghost lsi_lines = lsi_section(form);
        if self.lsis.len() > 0 {
            b.header("LSIs");
            assert(b.rows@ =~= mid + lsi_lines.take(1));
            let mut j: usize = 0;
            while j < self.lsis.len()
                invariant
                    j <= self.lsis@.len(),
                    self.lsis@.len() > 0,
                    form == self@,
                    lsi_lines == lsi_section(form),
                    b.well_formed(),
                    b.focused == form.focused(),
                    b.rows@ =~= mid + lsi_lines.take(j as int + 1),
                decreases self.lsis@.len() - j,
            {
                let row = &self.lsis[j];
                assert(form.lsis[j as int] == row@);
                let label = lsi_row_label(row);
                b.toggle(Focus::Lsi(j), label.as_str(), row.entry.check_missing, 0);
                assert(lsi_lines.take(j as int + 2) =~= lsi_lines.take(j as int + 1).push(
                    lsi_lines[j as int + 1],
                ));
                j += 1;
            }
        }
        assert(b.rows@ =~= mid + lsi_lines);
    }
}

/// The first line to show so that the focused one is visible and no room is left
/// unused.
pub open spec fn first_line(focused_line: nat, line_count: nat, height: nat) -> nat {
    let above = if focused_line + 1 > height && height > 0 {
        (focused_line + 1 - height) as nat
    } else if height == 0 {
        focused_line
    } else {
        0
    };
    let most = if line_count > height {
        (line_count - height) as nat
    } else {
        0
    };
    if above <= most {
        above
    } else {
        most
    }
}

/// The number of lines to scroll by, a number of 16 bits.
pub fn scroll_offset(focused_line: usize, line_count: usize, height: u16) -> (r: u16)
    ensures
        r == first_line(focused_line as nat, line_count as nat, height as nat) % 0x1_0000,
{
    let height: usize = height as usize;
    let above: usize = focused_line.saturating_sub(height.saturating_sub(1));
    let most: usize = line_count.saturating_sub(height);
    let offset: usize = if above <= most {
        above
    } else {
        most
    };
    assert(offset == first_line(focused_line as nat, line_count as nat, height as nat));
    let wide: u64 = offset as u64;
    assert(wide as u16 == wide % 0x1_0000) by (bit_vector);
    #[verifier::truncate]
    (wide as u16)
}

/// The focused line is always in view: whatever the height, it is among the lines
/// shown from the first one on.
pub proof fn law_focused_line_is_in_view(focused_line: nat, line_count: nat, height: nat)
    requires
        focused_line < line_count,
        height > 0,
    ensures
        first_line(focused_line, line_count, height) <= focused_line,
        focused_line < first_line(focused_line, line_count, height) + height,
{
}

/// Moving on and back, or back and on, returns to the same control.
pub proof fn law_focus_moves_undo_each_other(focus: int, count: int)
    requires
        0 <= focus < count,
    ensures
        ((focus + 1) % count - 1) % count == focus,
        ((focus - 1) % count + 1) % count == focus,
{
    if focus + 1 == count {
        assert((focus + 1) % count == 0) by (nonlinear_arith)
            requires
                focus + 1 == count,
                count > 0,
        ;
        assert((0 - 1) % count == count - 1) by (nonlinear_arith)
            requires
                count > 0,
        ;
    } else {
        assert((focus + 1) % count == focus + 1) by (nonlinear_arith)
            requires
                0 <= focus + 1 < count,
        ;
        assert(focus % count == focus) by (nonlinear_arith)
            requires
                0 <= focus < count,
        ;
    }
    if focus == 0 {
        assert((focus - 1) % count == count - 1) by (nonlinear_arith)
            requires
                focus == 0,
                count > 0,
        ;
        assert((count - 1 + 1) % count == 0) by (nonlinear_arith)
            requires
                count > 0,
        ;
    } else {
        assert((focus - 1) % count == focus - 1) by (nonlinear_arith)
            requires
                0 <= focus - 1 < count,
        ;
        assert(focus % count == focus) by (nonlinear_arith)
            requires
                0 <= focus < count,
        ;
    }
}

/// Flipping a control twice restores the form.
pub proof fn law_toggling_twice_restores(form: Form)
    requires
        form.well_formed(),
    ensures
        form.toggled().well_formed(),
        form.toggled().toggled() == form,
{
    lemma_order_is_valid(form);
    let once = form.toggled();
    match form.focused() {
        Focus::TtlCheck(i) => {
            let checks = form.ttl->0.checks;
            assert(checks.update(i as int, !checks[i as int]).update(i as int, checks[i as int])
                =~= checks);
        },
        Focus::Gsi(i) => {
            assert(once.gsis.update(i as int, form.gsis[i as int]) =~= form.gsis);
        },
        Focus::Lsi(i) => {
            assert(once.lsis.update(i as int, form.lsis[i as int]) =~= form.lsis);
        },
        _ => {},
    }
}

/// A character that the focused control takes is deleted again by a backspace.
pub proof fn law_backspace_undoes_typing(form: Form, c: char)
    requires
        form.well_formed(),
        form.takes(c),
    ensures
        form.typed(c).erased() == form,
{
    let control = form.focused();
    let s = form.field(control)->0;
    assert(s.push(c).drop_last() =~= s);
}

/// A numeric field never takes anything but digits.
pub proof fn law_numeric_fields_hold_digits(form: Form, c: char)
    requires
        form.well_formed(),
        !text::is_digit(c),
    ensures
        form.typed(c).segments == form.segments,
        form.typed(c).rate_limit == form.rate_limit,
{
}

/// A configuration that comes out of the form can be run, like one that comes out of
/// the config loader.
pub proof fn law_form_config_is_runnable(form: Form, config: ScanConfig)
    requires
        form_error(form) is None,
        is_config_of(config, form),
    ensures
        config::runnable(config),
{
    text::law_trimming_is_idempotent(form.table);
}

/// What the form was filled with comes out of it again: for a configuration that can
/// be run the form has no error, and gives back the table, the number of segments,
/// the rate and the exports, with outer white space gone from what was text.
pub proof fn law_form_gives_back_the_config(
    config: ScanConfig,
    description: TableDescription,
    back: ScanConfig,
)
    requires
        config::runnable(config),
        is_config_of(back, form_of(config, description)),
    ensures
        form_error(form_of(config, description)) is None,
        back.table@ == text::trimmed(config.table@),
        back.segments == config.segments,
        back.rate_limit_percent == config.rate_limit_percent,
        back.export.csv == config.export.csv,
        back.export.ndjson == config.export.ndjson,
        text::opt_view(back.region) == trimmed_option(or_empty(config.region)),
        text::opt_view(back.export.csv_path) == trimmed_option(or_empty(config.export.csv_path)),
        text::opt_view(back.export.ndjson_path) == trimmed_option(
            or_empty(config.export.ndjson_path),
        ),
{
    text::law_numerals_read_back(config.segments as nat);
    if let Some(percent) = config.rate_limit_percent {
        text::law_numerals_read_back(percent as nat);
        assert(text::decimal(percent as nat).len() > 0);
    } else {
        assert(text::trimmed(Seq::empty()) =~= Seq::empty());
    }
}

/// The TTL toggles that the config leaves open default alike in the form and in the
/// rules: a form filled from TTL settings leads to the same TTL rule as the settings.
pub proof fn law_ttl_defaults_agree(description: TableDescription, settings: TtlSettings)
    requires
        description.ttl is Some,
    ensures
        assemble::ttl_rule(
            description.ttl,
            Some(ttl_settings(ttl_row(description.ttl->0.attribute@, Some(settings)))),
        ) == assemble::ttl_rule(description.ttl, Some(settings)),
{
}

/// The forms offer the same targets: the entries differ in their toggles only.
pub open spec fn same_targets(a: Form, b: Form) -> bool {
    &&& b.gsis.len() == a.gsis.len()
    &&& forall|i: int|
        0 <= i < a.gsis.len() ==> (#[trigger] b.gsis[i]).entry == (GsiEntry {
            check_missing: b.gsis[i].entry.check_missing,
            ..a.gsis[i].entry
        })
    &&& b.lsis.len() == a.lsis.len()
    &&& forall|i: int|
        0 <= i < a.lsis.len() ==> (#[trigger] b.lsis[i]).entry == (LsiEntry {
            check_missing: b.lsis[i].entry.check_missing,
            ..a.lsis[i].entry
        })
    &&& b.ttl is Some == a.ttl is Some
}

/// Editing a form leaves its targets as they are.
pub proof fn law_edits_keep_the_targets(form: Form, c: char)
    requires
        form.well_formed(),
    ensures
        same_targets(form, form.typed(c)),
        same_targets(form, form.erased()),
        same_targets(form, form.toggled()),
        form.typed(c).well_formed(),
        form.erased().well_formed(),
        form.toggled().well_formed(),
{
    lemma_order_is_valid(form);
}

/// A form filled from the table's own description never names an index or a TTL
/// attribute that the table lacks, however it is edited: all that can stop the
/// assembly of its rules is a hypothetical GSI without a key or an LSI without a sort
/// key.
pub proof fn law_form_targets_exist(
    config: ScanConfig,
    description: TableDescription,
    form: Form,
    back: ScanConfig,
    i: int,
)
    requires
        same_targets(form_of(config, description), form),
        is_config_of(back, form),
    ensures
        0 <= i < back.gsi@.len() ==> !(assemble::gsi_rule(
            description.gsis@,
            back.gsi@[i],
        ) matches Err(e) && e is UnknownGsi),
        0 <= i < back.lsi@.len() ==> !(assemble::lsi_rule(
            description.lsis@,
            back.lsi@[i],
        ) matches Err(e) && e is UnknownLsi),
        assemble::ttl_rule(description.ttl, back.ttl) is Ok,
{
    let start = form_of(config, description);
    if 0 <= i < back.gsi@.len() {
        lemma_hypothetical_gsis(config.gsi@);
        let count = description.gsis@.len();
        if i < count {
            assert(start.gsis[i] == discovered_gsi(config.gsi@, description.gsis@[i]));
            aws::lemma_index_named(description.gsis@, description.gsis@[i].name@);
        } else {
            assert(start.gsis[i] == hypothetical_gsis(config.gsi@)[i - count]);
        }
        assert(back.gsi@[i] == form.gsis[i].entry);
    }
    if 0 <= i < back.lsi@.len() {
        assert(back.lsi@[i] == form.lsis[i].entry);
        aws::lemma_index_named(description.lsis@, description.lsis@[i].name@);
    }
}

proof fn lemma_hypothetical_gsis(entries: Seq<GsiEntry>)
    ensures
        forall|i: int|
            0 <= i < hypothetical_gsis(entries).len() ==> (
            #[trigger] hypothetical_gsis(entries)[i]).entry.hypothetical,
    decreases entries.len(),
{
    if entries.len() > 0 {
        lemma_hypothetical_gsis(entries.drop_last());
    }
}

proof fn lemma_focused_row(rows: Seq<RowView>, focused: Focus, i: int)
    requires
        0 <= i < rows.len(),
        rows[i].focus == Some(focused),
    ensures
        focused_row(rows, focused) < rows.len(),
        rows[focused_row(rows, focused) as int].focus == Some(focused),
    decreases rows.len(),
{
    if rows.last().focus != Some(focused) {
        assert(rows.drop_last()[i] == rows[i]);
        lemma_focused_row(rows.drop_last(), focused, i);
    }
}

/// The focused control is always on one of the lines, and that is the line to scroll
/// to.
pub proof fn law_focused_control_is_shown(form: Form)
    requires
        form.well_formed(),
    ensures
        ({
            let rows = form_rows(form);
            let at = focused_row(rows, form.focused());
            &&& at < rows.len()
            &&& rows[at as int].focus == Some(form.focused())
        }),
{
    lemma_order_is_valid(form);
    let rows = form_rows(form);
    let t = ttl_rows(form).len() as int;
    let g = gsi_section(form).len() as int;
    let l = lsi_section(form).len() as int;
    let i: int = match form.focused() {
        Focus::Table => 1,
        Focus::Region => 2,
        Focus::Segments => 4,
        Focus::RateLimit => 5,
        Focus::Csv => 7,
        Focus::CsvPath => 8,
        Focus::Ndjson => 9,
        Focus::NdjsonPath => 10,
        Focus::TtlEnabled => 12,
        Focus::TtlCheck(k) => 13 + k,
        Focus::Gsi(k) => 12 + t + k,
        Focus::Lsi(k) => 12 + t + g + k,
        Focus::Start => 12 + t + g + l,
    };
    assert(fixed_rows(form).len() == 11);
    match form.focused() {
        Focus::TtlEnabled => {
            assert(rows[i] == ttl_rows(form)[1]);
        },
        Focus::TtlCheck(k) => {
            assert(rows[i] == ttl_rows(form)[k + 2]);
        },
        Focus::Gsi(k) => {
            assert(rows[i] == gsi_section(form)[k + 1]);
        },
        Focus::Lsi(k) => {
            assert(rows[i] == lsi_section(form)[k + 1]);
        },
        Focus::Start => {
            assert(rows[i] == closing_rows(form)[1]);
        },
        _ => {
            assert(rows[i] == fixed_rows(form)[i]);
        },
    }
    lemma_focused_row(rows, form.focused(), i);
}

impl SetupScreen {
    /// The form as a panel, and the line that the focused control is on.
    pub fn panel(&self) -> (r: (Panel, usize))
        requires
            self@.well_formed(),
        ensures
            r.0@ == form_panel(self@),
            r.1 == focused_row(form_rows(self@), self@.focused()),
    {
        let (lines, focused_line) = self.build_lines();
        (Panel { title: " Scan setup ".to_owned(), border: Style::Plain, lines }, focused_line)
    }
}

/// The form as a panel.
pub open spec fn form_panel(form: Form) -> PanelView {
    PanelView { title: " Scan setup "@, border: Style::Plain, lines: shown(form_rows(form)) }
}

/// The form has a row for every GSI of the table, in order, under its name and with
/// the toggle that the config has for it: that of its first entry for an existing
/// index of the name, and off if it has none.
pub proof fn law_form_offers_every_gsi(config: ScanConfig, description: TableDescription, i: int)
    requires
        0 <= i < description.gsis@.len(),
    ensures
        i < form_of(config, description).gsis.len(),
        form_of(config, description).gsis[i].entry.name == description.gsis@[i].name,
        !form_of(config, description).gsis[i].entry.hypothetical,
        form_of(config, description).gsis[i].entry.pk is None,
        form_of(config, description).gsis[i].entry.sk is None,
        forall|k: int|
            0 <= k < config.gsi@.len() && !(#[trigger] config.gsi@[k]).hypothetical
                && config.gsi@[k].name@ == description.gsis@[i].name@ && (forall|j: int|
                0 <= j < k ==> (#[trigger] config.gsi@[j]).hypothetical || config.gsi@[j].name@
                    != description.gsis@[i].name@) ==> form_of(
                config,
                description,
            ).gsis[i].entry.check_missing == config.gsi@[k].check_missing,
        (forall|k: int|
            0 <= k < config.gsi@.len() ==> (#[trigger] config.gsi@[k]).hypothetical
                || config.gsi@[k].name@ != description.gsis@[i].name@) ==> !form_of(
            config,
            description,
        ).gsis[i].entry.check_missing,
{
    let entries = config.gsi@;
    let name = description.gsis@[i].name@;
    let row = form_of(config, description).gsis[i];
    assert(row == discovered_gsi(entries, description.gsis@[i]));
    assert forall|k: int|
        0 <= k < entries.len() && !(#[trigger] entries[k]).hypothetical && entries[k].name@ == name
            && (forall|j: int|
            0 <= j < k ==> (#[trigger] entries[j]).hypothetical || entries[j].name@
                != name) implies row.entry.check_missing == entries[k].check_missing by {
        lemma_gsi_intent(entries, 0, k, name);
    }
    if forall|k: int|
        0 <= k < entries.len() ==> (#[trigger] entries[k]).hypothetical || entries[k].name@
            != name {
        lemma_gsi_intent(entries, 0, entries.len() as int, name);
    }
}

proof fn lemma_gsi_intent(entries: Seq<GsiEntry>, from: int, k: int, name: Seq<char>)
    requires
        0 <= from <= k <= entries.len(),
        forall|j: int|
            from <= j < k ==> (#[trigger] entries[j]).hypothetical || entries[j].name@ != name,
    ensures
        k < entries.len() && !entries[k].hypothetical && entries[k].name@ == name ==> gsi_intent(
            entries,
            from,
            name,
        ) == entries[k].check_missing,
        k == entries.len() ==> !gsi_intent(entries, from, name),
    decreases k - from,
{
    if from < k {
        assert(entries[from].hypothetical || entries[from].name@ != name);
        lemma_gsi_intent(entries, from + 1, k, name);
    }
}

/// After the GSIs of the table the form has exactly the hypothetical ones of the
/// config, each as the config has it.
#[verifier::rlimit(30)]
pub proof fn law_form_offers_every_hypothetical_gsi(
    config: ScanConfig,
    description: TableDescription,
)
    ensures
        forall|k: int|
            0 <= k < config.gsi@.len() && (#[trigger] config.gsi@[k]).hypothetical ==> exists|
                i: int,
            |
                description.gsis@.len() <= i < form_of(config, description).gsis.len() && (
                #[trigger] form_of(config, description).gsis[i]).entry == config.gsi@[k],
        forall|i: int|
            description.gsis@.len() <= i < form_of(config, description).gsis.len() ==> (
            #[trigger] form_of(config, description).gsis[i]).entry.hypothetical
                && config.gsi@.contains(form_of(config, description).gsis[i].entry),
{
    let entries = config.gsi@;
    let rows = hypothetical_gsis(entries);
    let count = description.gsis@.len() as int;
    let gsis = form_of(config, description).gsis;
    lemma_hypothetical_rows(entries);
    assert forall|k: int| 0 <= k < entries.len() && (#[trigger] entries[k]).hypothetical implies exists|
        i: int,
    |
        count <= i < gsis.len() && (#[trigger] gsis[i]).entry == entries[k] by {
        let j = choose|j: int| 0 <= j < rows.len() && (#[trigger] rows[j]).entry == entries[k];
        assert(gsis[count + j] == rows[j]);
    }
    assert forall|i: int| count <= i < gsis.len() implies (#[trigger] gsis[i]).entry.hypothetical
        && entries.contains(gsis[i].entry) by {
        assert(gsis[i] == rows[i - count]);
    }
}

proof fn lemma_hypothetical_rows(entries: Seq<GsiEntry>)
    ensures
        forall|k: int|
            0 <= k < entries.len() && (#[trigger] entries[k]).hypothetical ==> exists|j: int|
                0 <= j < hypothetical_gsis(entries).len() && (
                #[trigger] hypothetical_gsis(entries)[j]).entry == entries[k],
        forall|j: int|
            0 <= j < hypothetical_gsis(entries).len() ==> (
            #[trigger] hypothetical_gsis(entries)[j]).entry.hypothetical && entries.contains(
                hypothetical_gsis(entries)[j].entry,
            ),
    decreases entries.len(),
{
    if entries.len() > 0 {
        let rest = entries.drop_last();
        let before = hypothetical_gsis(rest);
        let rows = hypothetical_gsis(entries);
        lemma_hypothetical_rows(rest);
        assert forall|k: int|
            0 <= k < entries.len() && (#[trigger] entries[k]).hypothetical implies exists|j: int|
            0 <= j < rows.len() && (#[trigger] rows[j]).entry == entries[k] by {
            if k < rest.len() {
                assert(rest[k] == entries[k]);
                let j = choose|j: int|
                    0 <= j < before.len() && (#[trigger] before[j]).entry == rest[k];
                assert(rows[j] == before[j]);
            } else {
                assert(rows.last().entry == entries[k]);
                assert(rows[rows.len() - 1].entry == entries[k]);
            }
        }
        assert forall|j: int| 0 <= j < rows.len() implies (#[trigger] rows[j]).entry.hypothetical
            && entries.contains(rows[j].entry) by {
            if j < before.len() {
                assert(rows[j] == before[j]);
                let k = choose|k: int| 0 <= k < rest.len() && rest[k] == before[j].entry;
                assert(entries[k] == rows[j].entry);
            } else {
                assert(entries[entries.len() - 1] == rows[j].entry);
            }
        }
    }
}

/// The form has a row for every LSI of the table, in order, under its name and with
/// the toggle of its first entry in the config, off if it has none.
pub proof fn law_form_offers_every_lsi(config: ScanConfig, description: TableDescription, i: int)
    requires
        0 <= i < description.lsis@.len(),
    ensures
        form_of(config, description).lsis.len() == description.lsis@.len(),
        form_of(config, description).lsis[i].entry.name == description.lsis@[i].name,
        forall|k: int|
            0 <= k < config.lsi@.len() && (#[trigger] config.lsi@[k]).name@
                == description.lsis@[i].name@ && (forall|j: int|
                0 <= j < k ==> (#[trigger] config.lsi@[j]).name@ != description.lsis@[i].name@)
                ==> form_of(config, description).lsis[i].entry.check_missing
                == config.lsi@[k].check_missing,
        (forall|k: int|
            0 <= k < config.lsi@.len() ==> (#[trigger] config.lsi@[k]).name@
                != description.lsis@[i].name@) ==> !form_of(
            config,
            description,
        ).lsis[i].entry.check_missing,
{
    let entries = config.lsi@;
    let name = description.lsis@[i].name@;
    let row = form_of(config, description).lsis[i];
    assert(row.entry.check_missing == lsi_intent(entries, 0, name));
    assert forall|k: int|
        0 <= k < entries.len() && (#[trigger] entries[k]).name@ == name && (forall|j: int|
            0 <= j < k ==> (#[trigger] entries[j]).name@
                != name) implies row.entry.check_missing == entries[k].check_missing by {
        lemma_lsi_intent(entries, 0, k, name);
    }
    if forall|k: int| 0 <= k < entries.len() ==> (#[trigger] entries[k]).name@ != name {
        lemma_lsi_intent(entries, 0, entries.len() as int, name);
    }
}

proof fn lemma_lsi_intent(entries: Seq<LsiEntry>, from: int, k: int, name: Seq<char>)
    requires
        0 <= from <= k <= entries.len(),
        forall|j: int| from <= j < k ==> (#[trigger] entries[j]).name@ != name,
    ensures
        k < entries.len() && entries[k].name@ == name ==> lsi_intent(entries, from, name)
            == entries[k].check_missing,
        k == entries.len() ==> !lsi_intent(entries, from, name),
    decreases k - from,
{
    if from < k {
        assert(entries[from].name@ != name);
        lemma_lsi_intent(entries, from + 1, k, name);
    }
}

/// The form has a TTL block exactly if the table has a TTL attribute, for that
/// attribute, with the toggles of the config. What the config leaves open is on, but
/// for the check of times more than five years past, which is off.
pub proof fn law_form_has_the_ttl_settings(config: ScanConfig, description: TableDescription)
    ensures
        form_of(config, description).ttl is Some <==> description.ttl is Some,
        description.ttl is Some ==> {
            let row = form_of(config, description).ttl->0;
            &&& row.attribute == description.ttl->0.attribute@
            &&& row.checks.len() == 5
            &&& config.ttl is None ==> row.enabled && row.checks[0] && row.checks[1]
                && row.checks[2] && row.checks[3] && !row.checks[4]
            &&& config.ttl is Some ==> {
                let settings = config.ttl->0;
                &&& row.enabled == (settings.enabled != Some(false))
                &&& row.checks[0] == (settings.check_missing != Some(false))
                &&& row.checks[1] == (settings.check_wrong_type != Some(false))
                &&& row.checks[2] == (settings.check_ms_magnitude != Some(false))
                &&& row.checks[3] == (settings.check_malformed != Some(false))
                &&& row.checks[4] == (settings.check_past_5_years == Some(true))
            }
        },
{
}

/// The fields of a form show the config: the table, the region and the paths as they
/// are, empty where unset, the numbers as numerals, and the exports as they are set.
/// The focus is on the first control.
pub proof fn law_form_shows_the_config(config: ScanConfig, description: TableDescription)
    ensures
        form_of(config, description).table == config.table@,
        config.region is Some ==> form_of(config, description).region == config.region->0@,
        config.region is None ==> form_of(config, description).region.len() == 0,
        text::unsigned(form_of(config, description).segments) == Some(config.segments as nat),
        config.rate_limit_percent is Some ==> text::unsigned(
            form_of(config, description).rate_limit,
        ) == Some(config.rate_limit_percent->0 as nat),
        config.rate_limit_percent is None ==> form_of(config, description).rate_limit.len() == 0,
        form_of(config, description).csv == config.export.csv,
        form_of(config, description).ndjson == config.export.ndjson,
        config.export.csv_path is Some ==> form_of(config, description).csv_path
            == config.export.csv_path->0@,
        config.export.csv_path is None ==> form_of(config, description).csv_path.len() == 0,
        config.export.ndjson_path is Some ==> form_of(config, description).ndjson_path
            == config.export.ndjson_path->0@,
        config.export.ndjson_path is None ==> form_of(config, description).ndjson_path.len() == 0,
        form_of(config, description).focused() == Focus::Table,
{
    text::law_numerals_read_back(config.segments as nat);
    if config.rate_limit_percent is Some {
        text::law_numerals_read_back(config.rate_limit_percent->0 as nat);
    }
}

/// The rows of a form come out as entries of the config, one for one and in order, and
/// the TTL block as its settings, each toggle on its own.
pub proof fn law_rows_come_out_as_entries(back: ScanConfig, form: Form, i: int)
    requires
        is_config_of(back, form),
        form.well_formed(),
    ensures
        back.gsi@.len() == form.gsis.len(),
        0 <= i < form.gsis.len() ==> back.gsi@[i] == form.gsis[i].entry,
        back.lsi@.len() == form.lsis.len(),
        0 <= i < form.lsis.len() ==> back.lsi@[i] == form.lsis[i].entry,
        back.ttl is Some <==> form.ttl is Some,
        form.ttl is Some ==> {
            &&& back.ttl->0.enabled == Some(form.ttl->0.enabled)
            &&& back.ttl->0.check_missing == Some(form.ttl->0.checks[0])
            &&& back.ttl->0.check_wrong_type == Some(form.ttl->0.checks[1])
            &&& back.ttl->0.check_ms_magnitude == Some(form.ttl->0.checks[2])
            &&& back.ttl->0.check_malformed == Some(form.ttl->0.checks[3])
            &&& back.ttl->0.check_past_5_years == Some(form.ttl->0.checks[4])
        },
{
}

/// A form is in order exactly if it names a table, a number of segments that is at
/// least one, and no rate limit or one from 1 to 100.
pub proof fn law_form_is_in_order_iff_its_fields_are(form: Form)
    ensures
        form_error(form) is None <==> {
            &&& config::has_text(form.table)
            &&& text::unsigned(text::trimmed(form.segments)) is Some
            &&& 1 <= text::unsigned(text::trimmed(form.segments))->0 <= usize::MAX
            &&& config::has_text(form.rate_limit) ==> {
                &&& text::unsigned(text::trimmed(form.rate_limit)) is Some
                &&& 1 <= text::unsigned(text::trimmed(form.rate_limit))->0 <= 100
            }
        },
{
    config::lemma_blank(form.table);
    config::lemma_blank(form.rate_limit);
}

/// Each complaint about a form has its cause in the field that it names.
pub proof fn law_form_errors_have_cause(form: Form)
    requires
        form_error(form) is Some,
    ensures
        ({
            ||| form_error(form)->0 == "Table name is required; type a table to scan."@
                && !config::has_text(form.table)
            ||| form_error(form)->0 == "Segments must be a whole number."@ && !(text::unsigned(
                text::trimmed(form.segments),
            ) is Some && text::unsigned(text::trimmed(form.segments))->0 <= usize::MAX)
            ||| form_error(form)->0 == "Segments must be at least 1."@ && text::unsigned(
                text::trimmed(form.segments),
            ) == Some(0nat)
            ||| form_error(form)->0 == "Rate limit must be a whole percentage."@
                && config::has_text(form.rate_limit) && !(text::unsigned(
                text::trimmed(form.rate_limit),
            ) is Some && text::unsigned(text::trimmed(form.rate_limit))->0 <= 255)
            ||| form_error(form)->0 == "Rate limit must be 1..="@ + text::decimal(100)
                + "; leave blank for unlimited."@ && (text::unsigned(
                text::trimmed(form.rate_limit),
            ) == Some(0nat) || text::unsigned(text::trimmed(form.rate_limit)) is Some
                && text::unsigned(text::trimmed(form.rate_limit))->0 > 100)
        }),
{
    config::lemma_blank(form.table);
    config::lemma_blank(form.rate_limit);
}

/// A toggle flips the focused control and nothing else: no text changes, and no other
/// toggle.
pub proof fn law_toggle_flips_the_focused_control_only(form: Form, i: int)
    requires
        form.well_formed(),
    ensures
        form.toggled().table == form.table,
        form.toggled().region == form.region,
        form.toggled().segments == form.segments,
        form.toggled().rate_limit == form.rate_limit,
        form.toggled().csv_path == form.csv_path,
        form.toggled().ndjson_path == form.ndjson_path,
        form.toggled().focus == form.focus,
        form.toggled().csv == (form.csv != (form.focused() == Focus::Csv)),
        form.toggled().ndjson == (form.ndjson != (form.focused() == Focus::Ndjson)),
        form.ttl is Some ==> form.toggled().ttl is Some && form.toggled().ttl->0.attribute
            == form.ttl->0.attribute && form.toggled().ttl->0.enabled == (form.ttl->0.enabled != (
        form.focused() == Focus::TtlEnabled)) && form.toggled().ttl->0.checks.len() == 5,
        form.ttl is Some && 0 <= i < 5 ==> form.toggled().ttl->0.checks[i] == (
        form.ttl->0.checks[i] != (form.focused() == Focus::TtlCheck(i as usize))),
        form.toggled().gsis.len() == form.gsis.len(),
        0 <= i < form.gsis.len() ==> form.toggled().gsis[i].key_desc == form.gsis[i].key_desc
            && form.toggled().gsis[i].entry.name == form.gsis[i].entry.name
            && form.toggled().gsis[i].entry.hypothetical == form.gsis[i].entry.hypothetical
            && form.toggled().gsis[i].entry.pk == form.gsis[i].entry.pk
            && form.toggled().gsis[i].entry.sk == form.gsis[i].entry.sk
            && form.toggled().gsis[i].entry.check_missing == (form.gsis[i].entry.check_missing != (
        form.focused() == Focus::Gsi(i as usize))),
        form.toggled().lsis.len() == form.lsis.len(),
        0 <= i < form.lsis.len() ==> form.toggled().lsis[i].key_desc == form.lsis[i].key_desc
            && form.toggled().lsis[i].entry.name == form.lsis[i].entry.name
            && form.toggled().lsis[i].entry.check_missing == (form.lsis[i].entry.check_missing != (
        form.focused() == Focus::Lsi(i as usize))),
{
    lemma_order_is_valid(form);
}

/// A character goes to the end of the focused text field and nowhere else, and a
/// numeric field takes it only if it is a digit.
pub proof fn law_typing_goes_to_the_focused_field_only(form: Form, c: char)
    requires
        form.well_formed(),
    ensures
        form.typed(c).table == (if form.focused() == Focus::Table {
            form.table.push(c)
        } else {
            form.table
        }),
        form.typed(c).region == (if form.focused() == Focus::Region {
            form.region.push(c)
        } else {
            form.region
        }),
        form.typed(c).segments == (if form.focused() == Focus::Segments && '0' <= c <= '9' {
            form.segments.push(c)
        } else {
            form.segments
        }),
        form.typed(c).rate_limit == (if form.focused() == Focus::RateLimit && '0' <= c <= '9' {
            form.rate_limit.push(c)
        } else {
            form.rate_limit
        }),
        form.typed(c).csv_path == (if form.focused() == Focus::CsvPath {
            form.csv_path.push(c)
        } else {
            form.csv_path
        }),
        form.typed(c).ndjson_path == (if form.focused() == Focus::NdjsonPath {
            form.ndjson_path.push(c)
        } else {
            form.ndjson_path
        }),
        form.typed(c).csv == form.csv,
        form.typed(c).ndjson == form.ndjson,
        form.typed(c).ttl == form.ttl,
        form.typed(c).gsis == form.gsis,
        form.typed(c).lsis == form.lsis,
        form.typed(c).order == form.order,
        form.typed(c).focus == form.focus,
{
}

/// A backspace takes the last character of the focused text field, if it has one, and
/// changes nothing else.
pub proof fn law_backspace_takes_the_last_character_only(form: Form)
    requires
        form.well_formed(),
    ensures
        form.erased().table == (if form.focused() == Focus::Table && form.table.len() > 0 {
            form.table.take(form.table.len() - 1)
        } else {
            form.table
        }),
        form.erased().region == (if form.focused() == Focus::Region && form.region.len() > 0 {
            form.region.take(form.region.len() - 1)
        } else {
            form.region
        }),
        form.erased().segments == (if form.focused() == Focus::Segments && form.segments.len() > 0 {
            form.segments.take(form.segments.len() - 1)
        } else {
            form.segments
        }),
        form.erased().rate_limit == (if form.focused() == Focus::RateLimit
            && form.rate_limit.len() > 0 {
            form.rate_limit.take(form.rate_limit.len() - 1)
        } else {
            form.rate_limit
        }),
        form.erased().csv_path == (if form.focused() == Focus::CsvPath && form.csv_path.len() > 0 {
            form.csv_path.take(form.csv_path.len() - 1)
        } else {
            form.csv_path
        }),
        form.erased().ndjson_path == (if form.focused() == Focus::NdjsonPath
            && form.ndjson_path.len() > 0 {
            form.ndjson_path.take(form.ndjson_path.len() - 1)
        } else {
            form.ndjson_path
        }),
        form.erased().csv == form.csv,
        form.erased().ndjson == form.ndjson,
        form.erased().ttl == form.ttl,
        form.erased().gsis == form.gsis,
        form.erased().lsis == form.lsis,
        form.erased().order == form.order,
        form.erased().focus == form.focus,
{
}

/// Every control of a form can be reached: the order holds the fixed controls, the TTL
/// toggles if there is a TTL block, a toggle for every index and at the end the start
/// button, and no control twice.
pub proof fn law_every_control_can_be_reached(form: Form, control: Focus)
    requires
        form.well_formed(),
    ensures
        form.order.contains(control) <==> match control {
            Focus::TtlEnabled => form.ttl is Some,
            Focus::TtlCheck(i) => form.ttl is Some && i < 5,
            Focus::Gsi(i) => i < form.gsis.len(),
            Focus::Lsi(i) => i < form.lsis.len(),
            _ => true,
        },
        forall|i: int, j: int|
            0 <= i < j < form.order.len() ==> #[trigger] form.order[i] != #[trigger] form.order[j],
        form.order[0] == Focus::Table,
        form.order.last() == Focus::Start,
{
    let t: int = if form.ttl is Some {
        6
    } else {
        0
    };
    let g = form.gsis.len() as int;
    let l = form.lsis.len() as int;
    assert(form.order.len() == 9 + t + g + l);
    let at: int = match control {
        Focus::Table => 0,
        Focus::Region => 1,
        Focus::Segments => 2,
        Focus::RateLimit => 3,
        Focus::Csv => 4,
        Focus::CsvPath => 5,
        Focus::Ndjson => 6,
        Focus::NdjsonPath => 7,
        Focus::TtlEnabled => 8,
        Focus::TtlCheck(i) => 9 + i,
        Focus::Gsi(i) => 8 + t + i,
        Focus::Lsi(i) => 8 + t + g + i,
        Focus::Start => 8 + t + g + l,
    };
    if match control {
        Focus::TtlEnabled => form.ttl is Some,
        Focus::TtlCheck(i) => form.ttl is Some && i < 5,
        Focus::Gsi(i) => i < form.gsis.len(),
        Focus::Lsi(i) => i < form.lsis.len(),
        _ => true,
    } {
        assert(form.order[at] == control);
    }
    if form.order.contains(control) {
        let k = choose|k: int| 0 <= k < form.order.len() && form.order[k] == control;
        lemma_order_is_valid(Form { focus: k, ..form });
    }
}

/// The view is scrolled no further than it has to be: the focused line is then the
/// last one shown, and no room is left unused below.
pub proof fn law_view_is_scrolled_only_as_needed(focused_line: nat, line_count: nat, height: nat)
    requires
        focused_line < line_count,
        height > 0,
    ensures
        focused_line < height ==> first_line(focused_line, line_count, height) == 0,
        focused_line >= height ==> first_line(focused_line, line_count, height) + height
            == focused_line + 1,
        first_line(focused_line, line_count, height) > 0 ==> first_line(
            focused_line,
            line_count,
            height,
        ) + height <= line_count,
{
}

/// A key schema is shown with the names and type letters of its parts.
pub proof fn law_key_schema_shows_its_parts(pk: KeySchemaElement, sk: Option<KeySchemaElement>)
    ensures
        text::holds(key_text(pk, sk), "pk "@ + pk.name@ + "("@ + code_letter(pk.type_code) + ")"@),
        sk is Some ==> text::holds(
            key_text(pk, sk),
            " · sk "@ + sk->0.name@ + "("@ + code_letter(sk->0.type_code) + ")"@,
        ),
        code_letter(TypeCode::S) == "S"@,
        code_letter(TypeCode::N) == "N"@,
        code_letter(TypeCode::B) == "B"@,
{
    let first = "pk "@ + pk.name@ + "("@ + code_letter(pk.type_code) + ")"@;
    let none = Seq::<char>::empty();
    match sk {
        Some(sk) => {
            let second = " · sk "@ + sk.name@ + "("@ + code_letter(sk.type_code) + ")"@;
            text::lemma_holds(none, first, second);
            assert(key_text(pk, Some(sk)) =~= none + first + second);
            text::lemma_holds(first, second, none);
            assert(key_text(pk, Some(sk)) =~= first + second + none);
        },
        None => {
            text::lemma_holds(none, first, none);
            assert(key_text(pk, None) =~= none + first + none);
        },
    }
}

/// A text field shows its text, or its placeholder while it is empty, and a toggle
/// shows a cross exactly while it is on. The focused control, and no other, is marked.
#[verifier::rlimit(30)]
pub proof fn law_controls_show_their_state(
    focused: Focus,
    control: Focus,
    label: Seq<char>,
    value: Seq<char>,
    placeholder: Seq<char>,
    on: bool,
    indent: nat,
)
    ensures
        field_row(focused, control, label, value, placeholder).focus == Some(control),
        toggle_row(focused, control, label, on, indent).focus == Some(control),
        field_row(focused, control, label, value, placeholder).line[0].style == (if focused
            == control {
            Style::Focused
        } else {
            Style::Plain
        }),
        toggle_row(focused, control, label, on, indent).line[0].style == (if focused == control {
            Style::Focused
        } else {
            Style::Plain
        }),
        text::holds(
            field_row(focused, control, label, value, placeholder).line[0].text,
            label + ": "@ + (if value.len() > 0 {
                value
            } else {
                placeholder
            }),
        ),
        text::holds(
            toggle_row(focused, control, label, on, indent).line[0].text,
            (if on {
                "[x]"@
            } else {
                "[ ]"@
            }) + " "@ + label,
        ),
{
    let what = if value.len() == 0 {
        placeholder
    } else {
        value
    };
    let cursor = if focused == control {
        "█"@
    } else {
        Seq::empty()
    };
    lemma_field_text(label, what, cursor);
    let mark = if on {
        "[x]"@
    } else {
        "[ ]"@
    };
    lemma_toggle_text(text::repeated(' ', 2 * (indent + 1)), mark, label);
}

proof fn lemma_field_text(label: Seq<char>, what: Seq<char>, cursor: Seq<char>)
    ensures
        text::holds("  "@ + label + ": "@ + what + cursor, label + ": "@ + what),
{
    text::lemma_joined("  "@, label, ": "@);
    text::lemma_joined("  "@, label + ": "@, what);
    text::lemma_holds("  "@, label + ": "@ + what, cursor);
}

proof fn lemma_toggle_text(indent: Seq<char>, mark: Seq<char>, label: Seq<char>)
    ensures
        text::holds(indent + mark + " "@ + label, mark + " "@ + label),
{
    let none = Seq::<char>::empty();
    let part = mark + " "@ + label;
    text::lemma_joined(indent, mark, " "@);
    text::lemma_joined(indent, mark + " "@, label);
    assert(indent + part + none =~= indent + part);
    text::lemma_holds(indent, part, none);
}

/// Every fixed control of the form is on a line that shows its own value.
pub proof fn law_every_setting_is_on_a_line(form: Form)
    requires
        form.well_formed(),
    ensures
        form_rows(form)[1] == field_row(
            form.focused(),
            Focus::Table,
            "Table"@,
            form.table,
            Seq::empty(),
        ),
        form_rows(form)[2] == field_row(
            form.focused(),
            Focus::Region,
            "Region override"@,
            form.region,
            "(profile default)"@,
        ),
        form_rows(form)[4] == field_row(
            form.focused(),
            Focus::Segments,
            "Segments"@,
            form.segments,
            Seq::empty(),
        ),
        form_rows(form)[5] == field_row(
            form.focused(),
            Focus::RateLimit,
            "Rate limit %"@,
            form.rate_limit,
            "unlimited"@,
        ),
        form_rows(form)[7] == toggle_row(form.focused(), Focus::Csv, "CSV"@, form.csv, 0),
        form_rows(form)[8] == field_row(
            form.focused(),
            Focus::CsvPath,
            "  path"@,
            form.csv_path,
            "(default)"@,
        ),
        form_rows(form)[9] == toggle_row(form.focused(), Focus::Ndjson, "NDJSON"@, form.ndjson, 0),
        form_rows(form)[10] == field_row(
            form.focused(),
            Focus::NdjsonPath,
            "  path"@,
            form.ndjson_path,
            "(default)"@,
        ),
{
    assert(fixed_rows(form).len() == 11);
    assert(forall|k: int| 0 <= k < 11 ==> form_rows(form)[k] == #[trigger] fixed_rows(form)[k]);
}

/// Every TTL toggle is on a line that shows its own value, in the order of the checks.
#[verifier::rlimit(30)]
pub proof fn law_every_ttl_check_is_on_a_line(form: Form, i: int)
    requires
        form.well_formed(),
    ensures
        form.ttl is Some ==> form_rows(form)[12] == toggle_row(
            form.focused(),
            Focus::TtlEnabled,
            "Enabled"@,
            form.ttl->0.enabled,
            0,
        ),
        form.ttl is Some && 0 <= i < 5 ==> form_rows(form)[13 + i] == toggle_row(
            form.focused(),
            Focus::TtlCheck(i as usize),
            ttl_check_label(i),
            form.ttl->0.checks[i],
            1,
        ),
{
    let rows = form_rows(form);
    let start = fixed_rows(form);
    let block = ttl_rows(form);
    assert(start.len() == 11);
    if form.ttl is Some {
        assert(block.len() == 7);
        assert(rows[12] == block[1]);
        if 0 <= i < 5 {
            assert(rows[13 + i] == block[2 + i]);
        }
    }
}

/// Every index is on a line that shows its own toggle, the GSIs before the LSIs and
/// each in order.
#[verifier::rlimit(30)]
pub proof fn law_every_index_is_on_a_line(form: Form, i: int)
    requires
        form.well_formed(),
    ensures
        0 <= i < form.gsis.len() ==> form_rows(form)[12 + (if form.ttl is Some {
            7int
        } else {
            0
        }) + i] == toggle_row(
            form.focused(),
            Focus::Gsi(i as usize),
            gsi_label(form.gsis[i]),
            form.gsis[i].entry.check_missing,
            0,
        ),
        0 <= i < form.lsis.len() ==> form_rows(form)[12 + (if form.ttl is Some {
            7int
        } else {
            0
        }) + (if form.gsis.len() > 0 {
            form.gsis.len() + 1
        } else {
            0
        }) + i] == toggle_row(
            form.focused(),
            Focus::Lsi(i as usize),
            lsi_label(form.lsis[i]),
            form.lsis[i].entry.check_missing,
            0,
        ),
{
    let rows = form_rows(form);
    let t = ttl_rows(form).len() as int;
    let g = gsi_section(form).len() as int;
    assert(fixed_rows(form).len() == 11);
    if 0 <= i < form.gsis.len() {
        assert(rows[11 + t + (1 + i)] == gsi_section(form)[1 + i]);
    }
    if 0 <= i < form.lsis.len() {
        assert(rows[11 + t + g + (1 + i)] == lsi_section(form)[1 + i]);
    }
}

/// The row of an index shows its name and its key schema, and of a GSI whether it
/// exists.
pub proof fn law_index_rows_show_the_index(gsi: GsiRowView, lsi: LsiRowView)
    ensures
        text::holds(
            gsi_label(gsi),
            gsi.entry.name@ + " "@ + (if gsi.entry.hypothetical {
                "[hypothetical]"@
            } else {
                "[existing]"@
            }) + "  "@ + gsi.key_desc,
        ),
        text::holds(lsi_label(lsi), lsi.entry.name@ + "  "@ + lsi.key_desc),
{
    let none = Seq::<char>::empty();
    let end = "  — check missing key"@;
    let of_gsi = gsi.entry.name@ + " "@ + tag_text(gsi.entry.hypothetical) + "  "@ + gsi.key_desc;
    text::lemma_holds(none, of_gsi, end);
    assert(gsi_label(gsi) =~= none + of_gsi + end);
    let of_lsi = lsi.entry.name@ + "  "@ + lsi.key_desc;
    text::lemma_holds(none, of_lsi, end);
    assert(lsi_label(lsi) =~= none + of_lsi + end);
}

} // verus!
