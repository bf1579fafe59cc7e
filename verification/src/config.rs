//! Configuration: validation of a config file and the precedence of command-line
//! flags over the file over built-in defaults.
//!
//! [`ConfigFile`] is the on-disk configuration: fields absent from the file stay
//! `None`, so that the merge can tell an unset field from one set to the default.
//! [`CliArgs`] carries command-line overrides. [`load`] and [`merge`] resolve them
//! into a [`ScanConfig`]: scalars and export targets are fully resolved, while
//! per-index and TTL intents are carried as they are.

use vstd::prelude::*;
use vstd::string::StringExecFns;
use crate::domain;
use crate::domain::KeySchemaElement;
use crate::text;

verus! {

/// The resolved runtime configuration for one scan.
///
/// The `gsi`, `lsi` and `ttl` intents are carried from the config file untouched.
#[derive(Debug, Clone, PartialEq)]
pub struct ScanConfig {
    pub table: String,
    pub region: Option<String>,
    pub profile: Option<String>,
    pub segments: usize,
    pub rate_limit_percent: Option<u8>,
    pub export: ExportConfig,
    pub gsi: Vec<GsiEntry>,
    pub lsi: Vec<LsiEntry>,
    pub ttl: Option<TtlSettings>,
}

/// Command-line overrides. Every field is optional and, when set, takes precedence
/// over the corresponding config-file value.
#[derive(Debug, Clone)]
pub struct CliArgs {
    pub config: Option<String>,
    pub table: Option<String>,
    pub profile: Option<String>,
    pub region: Option<String>,
    pub segments: Option<usize>,
    pub rate_limit_percent: Option<u8>,
}

impl Default for CliArgs {
    fn default() -> (r: Self)
        ensures
            r.config is None,
            r.table is None,
            r.profile is None,
            r.region is None,
            r.segments is None,
            r.rate_limit_percent is None,
    {
        CliArgs {
            config: None,
            table: None,
            profile: None,
            region: None,
            segments: None,
            rate_limit_percent: None,
        }
    }
}

/// Export destinations and format toggles.
#[derive(Debug, Clone, PartialEq)]
pub struct ExportConfig {
    pub csv: bool,
    pub csv_path: Option<String>,
    pub ndjson: bool,
    pub ndjson_path: Option<String>,
}

/// The on-disk configuration.
#[derive(Debug, Clone, PartialEq)]
pub struct ConfigFile {
    pub table: String,
    pub region: Option<String>,
    pub profile: Option<String>,
    pub scan: ScanSettings,
    pub export: ExportSettings,
    pub ttl: Option<TtlSettings>,
    pub gsi: Vec<GsiEntry>,
    pub lsi: Vec<LsiEntry>,
}

impl Default for ConfigFile {
    fn default() -> (r: Self)
        ensures
            r.table@ == Seq::<char>::empty(),
            r.region is None,
            r.profile is None,
            r.scan.segments is None,
            r.scan.rate_limit_percent is None,
            r.export.csv is None,
            r.export.csv_path is None,
            r.export.ndjson is None,
            r.export.ndjson_path is None,
            r.ttl is None,
            r.gsi@ == Seq::<GsiEntry>::empty(),
            r.lsi@ == Seq::<LsiEntry>::empty(),
    {
        ConfigFile {
            table: String::new(),
            region: None,
            profile: None,
            scan: ScanSettings::default(),
            export: ExportSettings::default(),
            ttl: None,
            gsi: Vec::new(),
            lsi: Vec::new(),
        }
    }
}

/// The `[scan]` table.
#[derive(Debug, Clone, Copy, PartialEq)]
pub struct ScanSettings {
    pub segments: Option<usize>,
    pub rate_limit_percent: Option<u8>,
}

impl Default for ScanSettings {
    fn default() -> (r: Self)
        ensures
            r.segments is None,
            r.rate_limit_percent is None,
    {
        ScanSettings { segments: None, rate_limit_percent: None }
    }
}

/// The `[export]` table.
#[derive(Debug, Clone, PartialEq)]
pub struct ExportSettings {
    pub csv: Option<bool>,
    pub csv_path: Option<String>,
    pub ndjson: Option<bool>,
    pub ndjson_path: Option<String>,
}

impl Default for ExportSettings {
    fn default() -> (r: Self)
        ensures
            r.csv is None,
            r.csv_path is None,
            r.ndjson is None,
            r.ndjson_path is None,
    {
        ExportSettings { csv: None, csv_path: None, ndjson: None, ndjson_path: None }
    }
}

/// The `[ttl]` table. The audited attribute name is discovered, not declared here.
#[derive(Debug, Clone, Copy, PartialEq)]
pub struct TtlSettings {
    pub enabled: Option<bool>,
    pub check_missing: Option<bool>,
    pub check_wrong_type: Option<bool>,
    pub check_ms_magnitude: Option<bool>,
    pub check_malformed: Option<bool>,
    pub check_past_5_years: Option<bool>,
}

impl Default for TtlSettings {
    fn default() -> (r: Self)
        ensures
            r.enabled is None,
            r.check_missing is None,
            r.check_wrong_type is None,
            r.check_ms_magnitude is None,
            r.check_malformed is None,
            r.check_past_5_years is None,
    {
        TtlSettings {
            enabled: None,
            check_missing: None,
            check_wrong_type: None,
            check_ms_magnitude: None,
            check_malformed: None,
            check_past_5_years: None,
        }
    }
}

/// A `[[gsi]]` entry. Existing indexes carry only a name; the key schema is
/// discovered later. Hypothetical indexes declare `pk`, and optionally `sk`,
/// inline and set `hypothetical`.
#[derive(Debug, PartialEq)]
pub struct GsiEntry {
    pub name: String,
    pub hypothetical: bool,
    pub pk: Option<KeySchemaElement>,
    pub sk: Option<KeySchemaElement>,
    pub check_missing: bool,
}

impl Clone for GsiEntry {
    fn clone(&self) -> (r: Self)
        ensures
            r == *self,
    {
        GsiEntry {
            name: self.name.clone(),
            hypothetical: self.hypothetical,
            pk: domain::clone_element(&self.pk),
            sk: domain::clone_element(&self.sk),
            check_missing: self.check_missing,
        }
    }
}

/// An `[[lsi]]` entry. Only the missing-sort-key check is configurable; the sort
/// key schema is discovered.
#[derive(Debug, PartialEq)]
pub struct LsiEntry {
    pub name: String,
    pub check_missing: bool,
}

impl Clone for LsiEntry {
    fn clone(&self) -> (r: Self)
        ensures
            r == *self,
    {
        LsiEntry { name: self.name.clone(), check_missing: self.check_missing }
    }
}

/// The largest legal `rate_limit_percent` value.
pub const MAX_RATE_LIMIT_PERCENT: u8 = 100;

/// A failure to read, parse, validate or resolve configuration.
#[derive(Debug, PartialEq)]
pub enum ConfigError {
    /// The file at `path` could not be read, for the given cause.
    Read { path: String, cause: String },
    /// The file is no TOML document of the expected shape, for the given cause.
    Parse(String),
    MissingTable,
    EmptyTable,
    EmptyIndexName,
    DuplicateGsi(String),
    DuplicateLsi(String),
    HypotheticalMissingPk(String),
    ExistingGsiHasKeySpec(String),
    RateLimitOutOfRange(u8),
    ZeroSegments,
}

/// `s` holds nothing but white space.
pub open spec fn blank(s: Seq<char>) -> bool {
    text::trimmed(s).len() == 0
}

/// The rate limit is a percentage from 1 to 100.
pub open spec fn rate_in_range(percent: u8) -> bool {
    1 <= percent <= MAX_RATE_LIMIT_PERCENT
}

/// What is wrong with the GSI entry at position `i`, given the entries before it.
pub open spec fn gsi_entry_error(gsi: Seq<GsiEntry>, i: int) -> Option<ConfigError> {
    let entry = gsi[i];
    if blank(entry.name@) {
        Some(ConfigError::EmptyIndexName)
    } else if exists|j: int| 0 <= j < i && (#[trigger] gsi[j]).name@ == entry.name@ {
        Some(ConfigError::DuplicateGsi(entry.name))
    } else if entry.hypothetical && entry.pk is None {
        Some(ConfigError::HypotheticalMissingPk(entry.name))
    } else if !entry.hypothetical && (entry.pk is Some || entry.sk is Some) {
        Some(ConfigError::ExistingGsiHasKeySpec(entry.name))
    } else {
        None
    }
}

/// The first error among the GSI entries.
pub open spec fn gsi_error(gsi: Seq<GsiEntry>, upto: nat) -> Option<ConfigError>
    decreases upto,
{
    if upto == 0 {
        None
    } else if gsi_error(gsi, (upto - 1) as nat) is Some {
        gsi_error(gsi, (upto - 1) as nat)
    } else {
        gsi_entry_error(gsi, upto - 1)
    }
}

/// What is wrong with the LSI entry at position `i`, given the entries before it.
pub open spec fn lsi_entry_error(lsi: Seq<LsiEntry>, i: int) -> Option<ConfigError> {
    let entry = lsi[i];
    if blank(entry.name@) {
        Some(ConfigError::EmptyIndexName)
    } else if exists|j: int| 0 <= j < i && (#[trigger] lsi[j]).name@ == entry.name@ {
        Some(ConfigError::DuplicateLsi(entry.name))
    } else {
        None
    }
}

/// The first error among the LSI entries.
pub open spec fn lsi_error(lsi: Seq<LsiEntry>, upto: nat) -> Option<ConfigError>
    decreases upto,
{
    if upto == 0 {
        None
    } else if lsi_error(lsi, (upto - 1) as nat) is Some {
        lsi_error(lsi, (upto - 1) as nat)
    } else {
        lsi_entry_error(lsi, upto - 1)
    }
}

/// The first error of a config file: its table, its scan settings, its GSI
/// entries, its LSI entries.
pub open spec fn file_error(file: ConfigFile) -> Option<ConfigError> {
    if blank(file.table@) {
        Some(ConfigError::EmptyTable)
    } else if file.scan.rate_limit_percent matches Some(p) && !rate_in_range(p) {
        Some(ConfigError::RateLimitOutOfRange(file.scan.rate_limit_percent->0))
    } else if file.scan.segments == Some(0usize) {
        Some(ConfigError::ZeroSegments)
    } else if gsi_error(file.gsi@, file.gsi@.len()) is Some {
        gsi_error(file.gsi@, file.gsi@.len())
    } else {
        lsi_error(file.lsi@, file.lsi@.len())
    }
}

/// An error found among the first entries is the first error of them all.
proof fn lemma_gsi_error(gsi: Seq<GsiEntry>, i: nat, n: nat)
    requires
        i <= n,
        gsi_error(gsi, i) is Some,
    ensures
        gsi_error(gsi, n) == gsi_error(gsi, i),
    decreases n,
{
    if i < n {
        lemma_gsi_error(gsi, i, (n - 1) as nat);
    }
}

proof fn lemma_lsi_error(lsi: Seq<LsiEntry>, i: nat, n: nat)
    requires
        i <= n,
        lsi_error(lsi, i) is Some,
    ensures
        lsi_error(lsi, n) == lsi_error(lsi, i),
    decreases n,
{
    if i < n {
        lemma_lsi_error(lsi, i, (n - 1) as nat);
    }
}

fn is_blank(s: &String) -> (r: bool)
    ensures
        r == blank(s@),
{
    s.as_str().trim().is_empty()
}

fn gsi_name_before(gsi: &Vec<GsiEntry>, i: usize) -> (r: bool)
    requires
        i < gsi@.len(),
    ensures
        r == exists|j: int| 0 <= j < i && (#[trigger] gsi@[j]).name@ == gsi@[i as int].name@,
{
    let mut j: usize = 0;
    while j < i
        invariant
            j <= i < gsi@.len(),
            forall|k: int| 0 <= k < j ==> (#[trigger] gsi@[k]).name@ != gsi@[i as int].name@,
        decreases i - j,
    {
        if gsi[j].name == gsi[i].name {
            return true;
        }
        j += 1;
    }
    false
}

fn lsi_name_before(lsi: &Vec<LsiEntry>, i: usize) -> (r: bool)
    requires
        i < lsi@.len(),
    ensures
        r == exists|j: int| 0 <= j < i && (#[trigger] lsi@[j]).name@ == lsi@[i as int].name@,
{
    let mut j: usize = 0;
    while j < i
        invariant
            j <= i < lsi@.len(),
            forall|k: int| 0 <= k < j ==> (#[trigger] lsi@[k]).name@ != lsi@[i as int].name@,
        decreases i - j,
    {
        if lsi[j].name == lsi[i].name {
            return true;
        }
        j += 1;
    }
    false
}

impl ConfigFile {
    /// Applies the rules that the shape of the file cannot express: non-empty and
    /// unique index names, a key schema for hypothetical GSIs only, and numeric
    /// ranges.
    pub fn validate(&self) -> (r: Result<(), ConfigError>)
        ensures
            r == (match file_error(*self) {
                Some(e) => Err::<(), ConfigError>(e),
                None => Ok(()),
            }),
    {
        if is_blank(&self.table) {
            return Err(ConfigError::EmptyTable);
        }
        if let Some(percent) = self.scan.rate_limit_percent {
            if percent < 1 || percent > MAX_RATE_LIMIT_PERCENT {
                return Err(ConfigError::RateLimitOutOfRange(percent));
            }
        }
        if let Some(segments) = self.scan.segments {
            if segments == 0 {
                return Err(ConfigError::ZeroSegments);
            }
        }
        let ghost gsi_count = self.gsi@.len();
        let mut i: usize = 0;
        while i < self.gsi.len()
            invariant
                i <= self.gsi@.len(),
                gsi_count == self.gsi@.len(),
                gsi_error(self.gsi@, i as nat) is None,
                !blank(self.table@),
                self.scan.rate_limit_percent matches Some(p) ==> rate_in_range(p),
                self.scan.segments != Some(0usize),
            decreases self.gsi@.len() - i,
        {
            let entry = &self.gsi[i];
            proof {
                if gsi_entry_error(self.gsi@, i as int) is Some {
                    lemma_gsi_error(self.gsi@, (i + 1) as nat, gsi_count);
                }
            }
            if is_blank(&entry.name) {
                return Err(ConfigError::EmptyIndexName);
            }
            if gsi_name_before(&self.gsi, i) {
                return Err(ConfigError::DuplicateGsi(entry.name.clone()));
            }
            if entry.hypothetical && entry.pk.is_none() {
                return Err(ConfigError::HypotheticalMissingPk(entry.name.clone()));
            }
            if !entry.hypothetical && (entry.pk.is_some() || entry.sk.is_some()) {
                return Err(ConfigError::ExistingGsiHasKeySpec(entry.name.clone()));
            }
            i += 1;
        }
        let ghost lsi_count = self.lsi@.len();
        let mut j: usize = 0;
        while j < self.lsi.len()
            invariant
                j <= self.lsi@.len(),
                lsi_count == self.lsi@.len(),
                lsi_error(self.lsi@, j as nat) is None,
                gsi_error(self.gsi@, self.gsi@.len()) is None,
                !blank(self.table@),
                self.scan.rate_limit_percent matches Some(p) ==> rate_in_range(p),
                self.scan.segments != Some(0usize),
            decreases self.lsi@.len() - j,
        {
            let entry = &self.lsi[j];
            proof {
                if lsi_entry_error(self.lsi@, j as int) is Some {
                    lemma_lsi_error(self.lsi@, (j + 1) as nat, lsi_count);
                }
            }
            if is_blank(&entry.name) {
                return Err(ConfigError::EmptyIndexName);
            }
            if lsi_name_before(&self.lsi, j) {
                return Err(ConfigError::DuplicateLsi(entry.name.clone()));
            }
            j += 1;
        }
        Ok(())
    }
}

/// A config document as it came from disk.
#[derive(Debug, Clone, PartialEq)]
pub enum Document {
    /// The file at `path` could not be read, for the given cause.
    Unreadable { path: String, cause: String },
    /// The text is no TOML document of the expected shape, for the given cause.
    Malformed(String),
    /// The values of the document.
    Values(ConfigFile),
}

/// The config file that a document holds, or the first thing wrong with it.
pub open spec fn parsed(document: Document) -> Result<ConfigFile, ConfigError> {
    match document {
        Document::Unreadable { path, cause } => Err(ConfigError::Read { path, cause }),
        Document::Malformed(cause) => Err(ConfigError::Parse(cause)),
        Document::Values(file) => match file_error(file) {
            Some(e) => Err(e),
            None => Ok(file),
        },
    }
}

/// Turns a config document into a validated [`ConfigFile`].
pub fn parse(document: Document) -> (r: Result<ConfigFile, ConfigError>)
    ensures
        r == parsed(document),
{
    match document {
        Document::Unreadable { path, cause } => Err(ConfigError::Read { path, cause }),
        Document::Malformed(cause) => Err(ConfigError::Parse(cause)),
        Document::Values(file) => match file.validate() {
            Err(e) => Err(e),
            Ok(()) => Ok(file),
        },
    }
}

/// `first` if it is set, else `second`.
pub open spec fn or<T>(first: Option<T>, second: Option<T>) -> Option<T> {
    match first {
        Some(_) => first,
        None => second,
    }
}

/// The table to scan, if any is named.
pub open spec fn merged_table(file: Option<ConfigFile>, cli: CliArgs) -> Option<String> {
    or(
        cli.table,
        match file {
            Some(f) => Some(f.table),
            None => None,
        },
    )
}

/// The region to target.
pub open spec fn merged_region(file: Option<ConfigFile>, cli: CliArgs) -> Option<String> {
    or(
        cli.region,
        match file {
            Some(f) => f.region,
            None => None,
        },
    )
}

/// The profile to use.
pub open spec fn merged_profile(file: Option<ConfigFile>, cli: CliArgs) -> Option<String> {
    or(
        cli.profile,
        match file {
            Some(f) => f.profile,
            None => None,
        },
    )
}

/// The segment count.
pub open spec fn merged_segments(
    file: Option<ConfigFile>,
    cli: CliArgs,
    default_segments: usize,
) -> usize {
    match or(
        cli.segments,
        match file {
            Some(f) => f.scan.segments,
            None => None,
        },
    ) {
        Some(n) => n,
        None => default_segments,
    }
}

/// The rate limit.
pub open spec fn merged_rate(file: Option<ConfigFile>, cli: CliArgs) -> Option<u8> {
    or(
        cli.rate_limit_percent,
        match file {
            Some(f) => f.scan.rate_limit_percent,
            None => None,
        },
    )
}

/// What is wrong with the merged scalars.
pub open spec fn merge_error(
    file: Option<ConfigFile>,
    cli: CliArgs,
    default_segments: usize,
) -> Option<ConfigError> {
    let rate = merged_rate(file, cli);
    if merged_table(file, cli) is None {
        Some(ConfigError::MissingTable)
    } else if blank(merged_table(file, cli)->0@) {
        Some(ConfigError::EmptyTable)
    } else if merged_segments(file, cli, default_segments) == 0 {
        Some(ConfigError::ZeroSegments)
    } else if rate is Some && !rate_in_range(rate->0) {
        Some(ConfigError::RateLimitOutOfRange(rate->0))
    } else {
        None
    }
}

/// `config` holds the merged scalars, and the rest as the file has it.
pub open spec fn is_merged(
    config: ScanConfig,
    file: Option<ConfigFile>,
    cli: CliArgs,
    default_segments: usize,
) -> bool {
    &&& merged_table(file, cli) == Some(config.table)
    &&& config.region == merged_region(file, cli)
    &&& config.profile == merged_profile(file, cli)
    &&& config.segments == merged_segments(file, cli, default_segments)
    &&& config.rate_limit_percent == merged_rate(file, cli)
    &&& match file {
        Some(f) => {
            &&& config.export.csv == (f.export.csv != Some(false))
            &&& config.export.csv_path == f.export.csv_path
            &&& config.export.ndjson == (f.export.ndjson != Some(false))
            &&& config.export.ndjson_path == f.export.ndjson_path
            &&& config.gsi == f.gsi
            &&& config.lsi == f.lsi
            &&& config.ttl == f.ttl
        },
        None => {
            &&& config.export.csv
            &&& config.export.csv_path is None
            &&& config.export.ndjson
            &&& config.export.ndjson_path is None
            &&& config.gsi@.len() == 0
            &&& config.lsi@.len() == 0
            &&& config.ttl is None
        },
    }
}

/// `r` is what the merge of `file`, `cli` and the default gives: its first error, or
/// the merged configuration.
pub open spec fn merge_result(
    r: Result<ScanConfig, ConfigError>,
    file: Option<ConfigFile>,
    cli: CliArgs,
    default_segments: usize,
) -> bool {
    match r {
        Err(e) => merge_error(file, cli, default_segments) == Some(e),
        Ok(config) => merge_error(file, cli, default_segments) is None && is_merged(
            config,
            file,
            cli,
            default_segments,
        ),
    }
}

/// Resolves a parsed config file and command-line overrides into a [`ScanConfig`].
///
/// Precedence is command line over file over defaults. Scalars are validated after
/// resolution because command-line overrides bypass the file's own validation.
/// Export paths are left unset where the file sets none. `default_segments` is the
/// machine's parallelism.
pub fn merge(file: Option<ConfigFile>, cli: &CliArgs, default_segments: usize) -> (r: Result<
    ScanConfig,
    ConfigError,
>)
    ensures
        merge_result(r, file, *cli, default_segments),
{
    let table = match (&cli.table, &file) {
        (Some(table), _) => table.clone(),
        (None, Some(f)) => f.table.clone(),
        (None, None) => return Err(ConfigError::MissingTable),
    };
    if is_blank(&table) {
        return Err(ConfigError::EmptyTable);
    }
    let segments: usize = match (cli.segments, &file) {
        (Some(n), _) => n,
        (None, Some(f)) => f.scan.segments.unwrap_or(default_segments),
        (None, None) => default_segments,
    };
    if segments == 0 {
        return Err(ConfigError::ZeroSegments);
    }
    let rate_limit_percent: Option<u8> = match (cli.rate_limit_percent, &file) {
        (Some(p), _) => Some(p),
        (None, Some(f)) => f.scan.rate_limit_percent,
        (None, None) => None,
    };
    if let Some(percent) = rate_limit_percent {
        if percent < 1 || percent > MAX_RATE_LIMIT_PERCENT {
            return Err(ConfigError::RateLimitOutOfRange(percent));
        }
    }
    let region = match (&cli.region, &file) {
        (Some(region), _) => Some(region.clone()),
        (None, Some(f)) => f.region.clone(),
        (None, None) => None,
    };
    let profile = match (&cli.profile, &file) {
        (Some(profile), _) => Some(profile.clone()),
        (None, Some(f)) => f.profile.clone(),
        (None, None) => None,
    };
    match file {
        Some(f) => Ok(
            ScanConfig {
                table,
                region,
                profile,
                segments,
                rate_limit_percent,
                export: ExportConfig {
                    csv: f.export.csv.unwrap_or(true),
                    csv_path: f.export.csv_path,
                    ndjson: f.export.ndjson.unwrap_or(true),
                    ndjson_path: f.export.ndjson_path,
                },
                gsi: f.gsi,
                lsi: f.lsi,
                ttl: f.ttl,
            },
        ),
        None => Ok(
            ScanConfig {
                table,
                region,
                profile,
                segments,
                rate_limit_percent,
                export: ExportConfig {
                    csv: true,
                    csv_path: None,
                    ndjson: true,
                    ndjson_path: None,
                },
                gsi: Vec::new(),
                lsi: Vec::new(),
                ttl: None,
            },
        ),
    }
}

/// Loads and resolves the runtime configuration.
///
/// `document` is the config file, if there is one; `None` runs on the command line
/// and defaults only.
pub fn load(document: Option<Document>, cli: &CliArgs, default_segments: usize) -> (r: Result<
    ScanConfig,
    ConfigError,
>)
    ensures
        match document {
            Some(d) => match parsed(d) {
                Err(failure) => r == Err::<ScanConfig, ConfigError>(failure),
                Ok(file) => merge_result(r, Some(file), *cli, default_segments),
            },
            None => merge_result(r, None, *cli, default_segments),
        },
{
    match document {
        Some(d) => match parse(d) {
            Err(failure) => Err(failure),
            Ok(file) => merge(Some(file), cli, default_segments),
        },
        None => merge(None, cli, default_segments),
    }
}

/// The default name of an export file.
pub open spec fn export_file_name(table: Seq<char>, timestamp: Seq<char>, extension: Seq<char>) -> Seq<
    char,
> {
    "violations-"@ + table + "-"@ + timestamp + extension
}

fn default_export_path(table: &str, timestamp: &str, extension: &str) -> (r: String)
    ensures
        r@ == export_file_name(table@, timestamp@, extension@),
{
    let mut path = "violations-".to_owned();
    path.append(table);
    path.append("-");
    path.append(timestamp);
    path.append(extension);
    path
}

/// `after` is `before` with the export paths that are unset filled in.
pub open spec fn paths_resolved(before: ScanConfig, after: ScanConfig, timestamp: Seq<char>) -> bool {
    &&& match before.export.csv_path {
        Some(path) => after.export.csv_path == Some(path),
        None => text::opt_view(after.export.csv_path) == Some(
            export_file_name(before.table@, timestamp, ".csv"@),
        ),
    }
    &&& match before.export.ndjson_path {
        Some(path) => after.export.ndjson_path == Some(path),
        None => text::opt_view(after.export.ndjson_path) == Some(
            export_file_name(before.table@, timestamp, ".ndjson"@),
        ),
    }
    &&& after == ScanConfig {
        export: ExportConfig {
            csv_path: after.export.csv_path,
            ndjson_path: after.export.ndjson_path,
            ..before.export
        },
        ..before
    }
}

/// Fills in the export paths that are unset with
/// `violations-{table}-{timestamp}.csv` and `.ndjson`.
pub fn resolve_export_paths(config: &mut ScanConfig, timestamp: &str)
    ensures
        paths_resolved(*old(config), *final(config), timestamp@),
{
    if config.export.csv_path.is_none() {
        config.export.csv_path =
        Some(default_export_path(config.table.as_str(), timestamp, ".csv"));
    }
    if config.export.ndjson_path.is_none() {
        config.export.ndjson_path =
        Some(default_export_path(config.table.as_str(), timestamp, ".ndjson"));
    }
}

/// The config file that pins every setting of `config`.
pub open spec fn saved_file(config: ScanConfig) -> ConfigFile {
    ConfigFile {
        table: config.table,
        region: config.region,
        profile: config.profile,
        scan: ScanSettings {
            segments: Some(config.segments),
            rate_limit_percent: config.rate_limit_percent,
        },
        export: ExportSettings {
            csv: Some(config.export.csv),
            csv_path: config.export.csv_path,
            ndjson: Some(config.export.ndjson),
            ndjson_path: config.export.ndjson_path,
        },
        ttl: config.ttl,
        gsi: config.gsi,
        lsi: config.lsi,
    }
}

/// The config file under which a scan runs with the same settings again.
pub fn to_file(config: ScanConfig) -> (r: ConfigFile)
    ensures
        r == saved_file(config),
{
    ConfigFile {
        table: config.table,
        region: config.region,
        profile: config.profile,
        scan: ScanSettings {
            segments: Some(config.segments),
            rate_limit_percent: config.rate_limit_percent,
        },
        export: ExportSettings {
            csv: Some(config.export.csv),
            csv_path: config.export.csv_path,
            ndjson: Some(config.export.ndjson),
            ndjson_path: config.export.ndjson_path,
        },
        ttl: config.ttl,
        gsi: config.gsi,
        lsi: config.lsi,
    }
}

/// The text that describes a configuration error to the user.
pub open spec fn error_text(error: ConfigError) -> Seq<char> {
    match error {
        ConfigError::Read { path, cause } => "cannot read config `"@ + path@ + "`: "@ + cause@,
        ConfigError::Parse(cause) => "invalid TOML: "@ + cause@,
        ConfigError::MissingTable =>
            "no table specified; set `table` in the config or pass --table"@,
        ConfigError::EmptyTable => "`table` must be a non-empty table name"@,
        ConfigError::EmptyIndexName =>
            "every [[gsi]] and [[lsi]] entry needs a non-empty `name`"@,
        ConfigError::DuplicateGsi(name) => "GSI `"@ + name@
            + "` is declared more than once; give each [[gsi]] a unique name"@,
        ConfigError::DuplicateLsi(name) => "LSI `"@ + name@
            + "` is declared more than once; give each [[lsi]] a unique name"@,
        ConfigError::HypotheticalMissingPk(name) => "hypothetical GSI `"@ + name@
            + "` needs a `pk = { name, type }`; only existing indexes may omit the key schema"@,
        ConfigError::ExistingGsiHasKeySpec(name) => "GSI `"@ + name@
            + "` declares `pk`/`sk` but is not hypothetical; set `hypothetical = true` or drop the key schema so it is discovered via DescribeTable"@,
        ConfigError::RateLimitOutOfRange(value) => "`rate_limit_percent = "@ + text::decimal(
            value as nat,
        ) + "` is out of range; use 1..="@ + text::decimal(MAX_RATE_LIMIT_PERCENT as nat),
        ConfigError::ZeroSegments => "`scan.segments` must be at least 1"@,
    }
}

impl ConfigError {
    /// Describes the error to the user.
    pub fn message(&self) -> (r: String)
        ensures
            r@ == error_text(*self),
    {
        match self {
            ConfigError::Read { path, cause } => {
                let mut out = "cannot read config `".to_owned();
                out.append(path.as_str());
                out.append("`: ");
                out.append(cause.as_str());
                out
            },
            ConfigError::Parse(cause) => {
                let mut out = "invalid TOML: ".to_owned();
                out.append(cause.as_str());
                out
            },
            ConfigError::MissingTable => {
                "no table specified; set `table` in the config or pass --table".to_owned()
            },
            ConfigError::EmptyTable => "`table` must be a non-empty table name".to_owned(),
            ConfigError::EmptyIndexName => {
                "every [[gsi]] and [[lsi]] entry needs a non-empty `name`".to_owned()
            },
            ConfigError::DuplicateGsi(name) => {
                let mut out = "GSI `".to_owned();
                out.append(name.as_str());
                out.append("` is declared more than once; give each [[gsi]] a unique name");
                out
            },
            ConfigError::DuplicateLsi(name) => {
                let mut out = "LSI `".to_owned();
                out.append(name.as_str());
                out.append("` is declared more than once; give each [[lsi]] a unique name");
                out
            },
            ConfigError::HypotheticalMissingPk(name) => {
                let mut out = "hypothetical GSI `".to_owned();
                out.append(name.as_str());
                out.append(
                    "` needs a `pk = { name, type }`; only existing indexes may omit the key schema",
                );
                out
            },
            ConfigError::ExistingGsiHasKeySpec(name) => {
                let mut out = "GSI `".to_owned();
                out.append(name.as_str());
                out.append(
                    "` declares `pk`/`sk` but is not hypothetical; set `hypothetical = true` or drop the key schema so it is discovered via DescribeTable",
                );
                out
            },
            ConfigError::RateLimitOutOfRange(value) => {
                let mut out = "`rate_limit_percent = ".to_owned();
                text::push_decimal(&mut out, *value as u128);
                out.append("` is out of range; use 1..=");
                text::push_decimal(&mut out, MAX_RATE_LIMIT_PERCENT as u128);
                out
            },
            ConfigError::ZeroSegments => "`scan.segments` must be at least 1".to_owned(),
        }
    }
}

/// A configuration that a scan can run with: a named table, at least one segment, a
/// rate limit from 1 to 100 percent if any.
pub open spec fn runnable(config: ScanConfig) -> bool {
    &&& !blank(config.table@)
    &&& config.segments >= 1
    &&& config.rate_limit_percent matches Some(percent) ==> rate_in_range(percent)
}

/// Whatever the file and the command line hold, a configuration that comes out of
/// the merge can be run.
pub proof fn law_merged_config_is_runnable(
    config: ScanConfig,
    file: Option<ConfigFile>,
    cli: CliArgs,
    default_segments: usize,
)
    requires
        merge_result(Ok(config), file, cli, default_segments),
    ensures
        runnable(config),
{
}

/// The command line wins over the file, and the file over the default, for each
/// scalar on its own.
pub proof fn law_precedence(
    config: ScanConfig,
    file: ConfigFile,
    cli: CliArgs,
    default_segments: usize,
)
    requires
        merge_result(Ok(config), Some(file), cli, default_segments),
    ensures
        config.table == (if cli.table is Some {
            cli.table->0
        } else {
            file.table
        }),
        config.region == (if cli.region is Some {
            cli.region
        } else {
            file.region
        }),
        config.profile == (if cli.profile is Some {
            cli.profile
        } else {
            file.profile
        }),
        config.segments == (if cli.segments is Some {
            cli.segments->0
        } else if file.scan.segments is Some {
            file.scan.segments->0
        } else {
            default_segments
        }),
        config.rate_limit_percent == (if cli.rate_limit_percent is Some {
            cli.rate_limit_percent
        } else {
            file.scan.rate_limit_percent
        }),
{
}

/// What a scan saved, a later run without command-line overrides gets back, setting
/// by setting.
pub proof fn law_saved_config_loads_back(config: ScanConfig, cli: CliArgs, default_segments: usize)
    requires
        runnable(config),
        gsi_error(config.gsi@, config.gsi@.len()) is None,
        lsi_error(config.lsi@, config.lsi@.len()) is None,
        cli.table is None,
        cli.region is None,
        cli.profile is None,
        cli.segments is None,
        cli.rate_limit_percent is None,
    ensures
        parsed(Document::Values(saved_file(config))) == Ok::<ConfigFile, ConfigError>(
            saved_file(config),
        ),
        forall|r: Result<ScanConfig, ConfigError>| #[trigger]
            merge_result(r, Some(saved_file(config)), cli, default_segments) ==> r == Ok::<
                ScanConfig,
                ConfigError,
            >(config),
{
}

/// Every GSI entry of a validated file has a name of its own, and declares a key
/// schema exactly if it is hypothetical.
pub proof fn law_validated_gsis(gsi: Seq<GsiEntry>, upto: nat)
    requires
        upto <= gsi.len(),
        gsi_error(gsi, upto) is None,
    ensures
        forall|i: int|
            0 <= i < upto ==> {
                &&& !blank((#[trigger] gsi[i]).name@)
                &&& gsi[i].hypothetical == gsi[i].pk is Some
                &&& !gsi[i].hypothetical ==> gsi[i].sk is None
            },
        forall|i: int, j: int|
            0 <= i < j < upto ==> (#[trigger] gsi[i]).name@ != (#[trigger] gsi[j]).name@,
    decreases upto,
{
    if upto > 0 {
        law_validated_gsis(gsi, (upto - 1) as nat);
        assert(gsi_entry_error(gsi, upto - 1) is None);
    }
}

/// Every LSI entry of a validated file has a name of its own.
pub proof fn law_validated_lsis(lsi: Seq<LsiEntry>, upto: nat)
    requires
        upto <= lsi.len(),
        lsi_error(lsi, upto) is None,
    ensures
        forall|i: int| 0 <= i < upto ==> !blank((#[trigger] lsi[i]).name@),
        forall|i: int, j: int|
            0 <= i < j < upto ==> (#[trigger] lsi[i]).name@ != (#[trigger] lsi[j]).name@,
    decreases upto,
{
    if upto > 0 {
        law_validated_lsis(lsi, (upto - 1) as nat);
        assert(lsi_entry_error(lsi, upto - 1) is None);
    }
}

/// `s` has a character that is no white space.
pub open spec fn has_text(s: Seq<char>) -> bool {
    exists|k: int| 0 <= k < s.len() && !text::is_white_space(#[trigger] s[k])
}

/// A file is accepted exactly if it keeps the rules of a config file: a table that is
/// more than white space, numbers in range, index names that are more than white space
/// and no two alike, and a key schema exactly where an index is hypothetical.
#[verifier::rlimit(30)]
pub proof fn law_file_is_accepted_iff_it_keeps_the_rules(file: ConfigFile)
    ensures
        parsed(Document::Values(file)) is Ok <==> {
            &&& has_text(file.table@)
            &&& file.scan.rate_limit_percent is Some ==> 1 <= file.scan.rate_limit_percent->0
                <= 100
            &&& file.scan.segments is Some ==> file.scan.segments->0 >= 1
            &&& forall|i: int|
                0 <= i < file.gsi@.len() ==> {
                    &&& has_text((#[trigger] file.gsi@[i]).name@)
                    &&& file.gsi@[i].hypothetical ==> file.gsi@[i].pk is Some
                    &&& !file.gsi@[i].hypothetical ==> file.gsi@[i].pk is None
                        && file.gsi@[i].sk is None
                }
            &&& forall|i: int, j: int|
                0 <= i < j < file.gsi@.len() ==> (#[trigger] file.gsi@[i]).name@ != (
                #[trigger] file.gsi@[j]).name@
            &&& forall|i: int|
                0 <= i < file.lsi@.len() ==> has_text((#[trigger] file.lsi@[i]).name@)
            &&& forall|i: int, j: int|
                0 <= i < j < file.lsi@.len() ==> (#[trigger] file.lsi@[i]).name@ != (
                #[trigger] file.lsi@[j]).name@
        },
        parsed(Document::Values(file)) is Ok ==> parsed(Document::Values(file))->Ok_0 == file,
{
    let gsi = file.gsi@;
    let lsi = file.lsi@;
    lemma_blank(file.table@);
    assert forall|i: int| 0 <= i < gsi.len() implies !blank((#[trigger] gsi[i]).name@)
        == has_text(gsi[i].name@) by {
        lemma_blank(gsi[i].name@);
    }
    assert forall|i: int| 0 <= i < lsi.len() implies !blank((#[trigger] lsi[i]).name@)
        == has_text(lsi[i].name@) by {
        lemma_blank(lsi[i].name@);
    }
    if gsi_error(gsi, gsi.len()) is None {
        law_validated_gsis(gsi, gsi.len());
    } else {
        let i = lemma_gsi_cause(gsi, gsi.len());
        assert(gsi_entry_error(gsi, i) is Some);
    }
    if lsi_error(lsi, lsi.len()) is None {
        law_validated_lsis(lsi, lsi.len());
    } else {
        let i = lemma_lsi_cause(lsi, lsi.len());
        assert(lsi_entry_error(lsi, i) is Some);
    }
}

/// A text is blank exactly if it has no character but white space.
pub proof fn lemma_blank(s: Seq<char>)
    ensures
        !blank(s) <==> has_text(s),
{
    text::law_trimming_takes_outer_white_space(s);
    let (i, j) = choose|i: int, j: int|
        {
            &&& 0 <= i <= j <= s.len()
            &&& text::trimmed(s) == #[trigger] s.subrange(i, j)
            &&& forall|k: int|
                0 <= k < i || j <= k < s.len() ==> text::is_white_space(#[trigger] s[k])
            &&& i < j ==> !text::is_white_space(s[i]) && !text::is_white_space(s[j - 1])
        };
    assert(text::trimmed(s).len() == j - i);
    if i < j {
        assert(!text::is_white_space(s[i]));
    }
}

/// The entry that an error among the GSI entries is about.
proof fn lemma_gsi_cause(gsi: Seq<GsiEntry>, upto: nat) -> (i: int)
    requires
        upto <= gsi.len(),
        gsi_error(gsi, upto) is Some,
    ensures
        0 <= i < upto,
        gsi_error(gsi, upto) == gsi_entry_error(gsi, i),
    decreases upto,
{
    if gsi_error(gsi, (upto - 1) as nat) is Some {
        lemma_gsi_cause(gsi, (upto - 1) as nat)
    } else {
        upto - 1
    }
}

proof fn lemma_lsi_cause(lsi: Seq<LsiEntry>, upto: nat) -> (i: int)
    requires
        upto <= lsi.len(),
        lsi_error(lsi, upto) is Some,
    ensures
        0 <= i < upto,
        lsi_error(lsi, upto) == lsi_entry_error(lsi, i),
    decreases upto,
{
    if lsi_error(lsi, (upto - 1) as nat) is Some {
        lemma_lsi_cause(lsi, (upto - 1) as nat)
    } else {
        upto - 1
    }
}

/// Each error of a config file has its own cause in the file, and carries what it is
/// about: the number out of range, or the name of the index.
pub proof fn law_file_errors_have_cause(file: ConfigFile)
    requires
        parsed(Document::Values(file)) is Err,
    ensures
        match parsed(Document::Values(file))->Err_0 {
            ConfigError::EmptyTable => !has_text(file.table@),
            ConfigError::RateLimitOutOfRange(percent) => file.scan.rate_limit_percent == Some(
                percent,
            ) && (percent == 0 || percent > 100),
            ConfigError::ZeroSegments => file.scan.segments == Some(0usize),
            ConfigError::EmptyIndexName => {
                ||| exists|i: int|
                    0 <= i < file.gsi@.len() && !has_text((#[trigger] file.gsi@[i]).name@)
                ||| exists|i: int|
                    0 <= i < file.lsi@.len() && !has_text((#[trigger] file.lsi@[i]).name@)
            },
            ConfigError::DuplicateGsi(name) => exists|i: int, j: int|
                0 <= i < j < file.gsi@.len() && (#[trigger] file.gsi@[i]).name@ == name@ && (
                #[trigger] file.gsi@[j]).name@ == name@,
            ConfigError::DuplicateLsi(name) => exists|i: int, j: int|
                0 <= i < j < file.lsi@.len() && (#[trigger] file.lsi@[i]).name@ == name@ && (
                #[trigger] file.lsi@[j]).name@ == name@,
            ConfigError::HypotheticalMissingPk(name) => exists|i: int|
                0 <= i < file.gsi@.len() && (#[trigger] file.gsi@[i]).name == name
                    && file.gsi@[i].hypothetical && file.gsi@[i].pk is None,
            ConfigError::ExistingGsiHasKeySpec(name) => exists|i: int|
                0 <= i < file.gsi@.len() && (#[trigger] file.gsi@[i]).name == name
                    && !file.gsi@[i].hypothetical && (file.gsi@[i].pk is Some
                    || file.gsi@[i].sk is Some),
            _ => false,
        },
{
    let gsi = file.gsi@;
    let lsi = file.lsi@;
    lemma_blank(file.table@);
    if gsi_error(gsi, gsi.len()) is Some {
        let i = lemma_gsi_cause(gsi, gsi.len());
        lemma_blank(gsi[i].name@);
    } else if lsi_error(lsi, lsi.len()) is Some {
        let i = lemma_lsi_cause(lsi, lsi.len());
        lemma_blank(lsi[i].name@);
    }
}

/// A document that cannot be read or parsed says so, with the path and the cause.
pub proof fn law_unusable_documents_say_why(path: String, cause: String)
    ensures
        parsed(Document::Unreadable { path, cause }) == Err::<ConfigFile, _>(
            ConfigError::Read { path, cause },
        ),
        parsed(Document::Malformed(cause)) == Err::<ConfigFile, _>(ConfigError::Parse(cause)),
{
}

/// A merge without a file takes the command line and the defaults: both exports on,
/// no paths set and nothing to check.
pub proof fn law_no_file_means_defaults(
    config: ScanConfig,
    cli: CliArgs,
    default_segments: usize,
)
    requires
        merge_result(Ok(config), None, cli, default_segments),
    ensures
        cli.table == Some(config.table),
        config.region == cli.region,
        config.profile == cli.profile,
        cli.segments is Some ==> config.segments == cli.segments->0,
        cli.segments is None ==> config.segments == default_segments,
        config.rate_limit_percent == cli.rate_limit_percent,
        config.export.csv,
        config.export.ndjson,
        config.export.csv_path is None,
        config.export.ndjson_path is None,
        config.gsi@.len() == 0,
        config.lsi@.len() == 0,
        config.ttl is None,
{
}

/// What the command line cannot set is as the file has it, and an export is on unless
/// the file turns it off.
pub proof fn law_file_decides_what_the_command_line_cannot(
    config: ScanConfig,
    file: ConfigFile,
    cli: CliArgs,
    default_segments: usize,
)
    requires
        merge_result(Ok(config), Some(file), cli, default_segments),
    ensures
        config.export.csv <==> !(file.export.csv is Some && !file.export.csv->0),
        config.export.ndjson <==> !(file.export.ndjson is Some && !file.export.ndjson->0),
        config.export.csv_path == file.export.csv_path,
        config.export.ndjson_path == file.export.ndjson_path,
        config.gsi == file.gsi,
        config.lsi == file.lsi,
        config.ttl == file.ttl,
{
}

/// A merge fails only for a cause in what it merged: no table or a blank one, no
/// segment, or a rate limit out of range. Given a table, a count and a limit that are
/// in order, it succeeds.
pub proof fn law_merge_errors_have_cause(
    r: Result<ScanConfig, ConfigError>,
    file: ConfigFile,
    cli: CliArgs,
    default_segments: usize,
)
    requires
        merge_result(r, Some(file), cli, default_segments),
    ensures
        r is Err ==> match r->Err_0 {
            ConfigError::EmptyTable => {
                ||| cli.table is Some && !has_text(cli.table->0@)
                ||| cli.table is None && !has_text(file.table@)
            },
            ConfigError::ZeroSegments => {
                ||| cli.segments == Some(0usize)
                ||| cli.segments is None && file.scan.segments == Some(0usize)
                ||| cli.segments is None && file.scan.segments is None && default_segments == 0
            },
            ConfigError::RateLimitOutOfRange(percent) => {
                &&& percent == 0 || percent > 100
                &&& cli.rate_limit_percent == Some(percent) || cli.rate_limit_percent is None
                    && file.scan.rate_limit_percent == Some(percent)
            },
            _ => false,
        },
{
    lemma_blank(file.table@);
    if cli.table is Some {
        lemma_blank(cli.table->0@);
    }
}

/// A merge without a table on the command line and without a file names none.
pub proof fn law_merge_needs_a_table(
    r: Result<ScanConfig, ConfigError>,
    cli: CliArgs,
    default_segments: usize,
)
    requires
        merge_result(r, None, cli, default_segments),
    ensures
        r == Err::<ScanConfig, _>(ConfigError::MissingTable) <==> cli.table is None,
{
}

/// A set export path stays, and an unset one becomes the name of the table and the
/// time between `violations-` and the ending of the format. Nothing else changes, so
/// resolving twice is resolving once.
pub proof fn law_export_paths_are_filled_in(
    before: ScanConfig,
    after: ScanConfig,
    again: ScanConfig,
    timestamp: Seq<char>,
    later: Seq<char>,
)
    requires
        paths_resolved(before, after, timestamp),
        paths_resolved(after, again, later),
    ensures
        after.export.csv_path is Some,
        after.export.ndjson_path is Some,
        before.export.csv_path is Some ==> after.export.csv_path == before.export.csv_path,
        before.export.ndjson_path is Some ==> after.export.ndjson_path
            == before.export.ndjson_path,
        before.export.csv_path is None ==> after.export.csv_path->0@ == "violations-"@
            + before.table@ + "-"@ + timestamp + ".csv"@,
        before.export.ndjson_path is None ==> after.export.ndjson_path->0@ == "violations-"@
            + before.table@ + "-"@ + timestamp + ".ndjson"@,
        after.table == before.table,
        after.region == before.region,
        after.profile == before.profile,
        after.segments == before.segments,
        after.rate_limit_percent == before.rate_limit_percent,
        after.export.csv == before.export.csv,
        after.export.ndjson == before.export.ndjson,
        after.gsi == before.gsi,
        after.lsi == before.lsi,
        after.ttl == before.ttl,
        again == after,
{
}

/// The message of an error holds what the error carries.
#[verifier::rlimit(30)]
pub proof fn law_messages_tell_what_is_wrong(error: ConfigError)
    ensures
        match error {
            ConfigError::Read { path, cause } => text::holds(error_text(error), path@) && text::holds(
                error_text(error),
                cause@,
            ),
            ConfigError::Parse(cause) => text::holds(error_text(error), cause@),
            ConfigError::DuplicateGsi(name) => text::holds(error_text(error), name@),
            ConfigError::DuplicateLsi(name) => text::holds(error_text(error), name@),
            ConfigError::HypotheticalMissingPk(name) => text::holds(error_text(error), name@),
            ConfigError::ExistingGsiHasKeySpec(name) => text::holds(error_text(error), name@),
            ConfigError::RateLimitOutOfRange(value) => text::holds(
                error_text(error),
                text::decimal(value as nat),
            ),
            _ => true,
        },
{
    let out = error_text(error);
    match error {
        ConfigError::Read { path, cause } => {
            let start = "cannot read config `"@;
            text::lemma_holds(start, path@, "`: "@ + cause@);
            assert(out =~= start + path@ + ("`: "@ + cause@));
            text::lemma_holds(start + path@ + "`: "@, cause@, Seq::empty());
            assert(out =~= start + path@ + "`: "@ + cause@ + Seq::<char>::empty());
        },
        ConfigError::Parse(cause) => {
            text::lemma_holds("invalid TOML: "@, cause@, Seq::empty());
            assert(out =~= "invalid TOML: "@ + cause@ + Seq::<char>::empty());
        },
        ConfigError::DuplicateGsi(name) => {
            text::lemma_holds(
                "GSI `"@,
                name@,
                "` is declared more than once; give each [[gsi]] a unique name"@,
            );
        },
        ConfigError::DuplicateLsi(name) => {
            text::lemma_holds(
                "LSI `"@,
                name@,
                "` is declared more than once; give each [[lsi]] a unique name"@,
            );
        },
        ConfigError::HypotheticalMissingPk(name) => {
            text::lemma_holds(
                "hypothetical GSI `"@,
                name@,
                "` needs a `pk = { name, type }`; only existing indexes may omit the key schema"@,
            );
        },
        ConfigError::ExistingGsiHasKeySpec(name) => {
            text::lemma_holds(
                "GSI `"@,
                name@,
                "` declares `pk`/`sk` but is not hypothetical; set `hypothetical = true` or drop the key schema so it is discovered via DescribeTable"@,
            );
        },
        ConfigError::RateLimitOutOfRange(value) => {
            let start = "`rate_limit_percent = "@;
            let n = text::decimal(value as nat);
            let end = "` is out of range; use 1..="@ + text::decimal(
                MAX_RATE_LIMIT_PERCENT as nat,
            );
            text::lemma_holds(start, n, end);
            assert(out =~= start + n + end);
        },
        _ => {},
    }
}

/// Of several faults of a file the table is named before the numbers, and those before
/// the indexes.
pub proof fn law_faults_of_a_file_are_told_in_order(file: ConfigFile)
    ensures
        !has_text(file.table@) ==> parsed(Document::Values(file)) == Err::<ConfigFile, _>(
            ConfigError::EmptyTable,
        ),
        has_text(file.table@) && file.scan.rate_limit_percent is Some && (
        file.scan.rate_limit_percent->0 == 0 || file.scan.rate_limit_percent->0 > 100) ==> parsed(
            Document::Values(file),
        ) == Err::<ConfigFile, _>(
            ConfigError::RateLimitOutOfRange(file.scan.rate_limit_percent->0),
        ),
        has_text(file.table@) && (file.scan.rate_limit_percent is Some ==> 1
            <= file.scan.rate_limit_percent->0 <= 100) && file.scan.segments == Some(0usize)
            ==> parsed(Document::Values(file)) == Err::<ConfigFile, _>(ConfigError::ZeroSegments),
{
    lemma_blank(file.table@);
}

} // verus!
