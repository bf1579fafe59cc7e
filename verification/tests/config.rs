use dynamodb_violation_detector::config::{
    load, merge, parse, resolve_export_paths, to_file, CliArgs, ConfigError, ConfigFile, Document,
    ExportSettings, GsiEntry, LsiEntry, ScanConfig, ScanSettings, TtlSettings,
};
use dynamodb_violation_detector::domain::{KeySchemaElement, TypeCode};

const FULL: &str = r#"
table = "users"
region = "eu-west-1"
profile = "prod-readonly"

[scan]
segments = 16
rate_limit_percent = 60

[export]
csv = true
csv_path = "./violations.csv"
ndjson = true
ndjson_path = "./violations.ndjson"

[ttl]
enabled = true
check_missing = true
check_wrong_type = true
check_ms_magnitude = true
check_malformed = true
check_past_5_years = false

[[gsi]]
name = "GSI1"
check_missing = false

[[gsi]]
name = "GSI_proposed_userId_createdAt"
hypothetical = true
pk = { name = "userId", type = "S" }
sk = { name = "createdAt", type = "N" }
check_missing = true

[[lsi]]
name = "LSI1"
check_missing = true
"#;

fn known(table: &toml::Table, names: &[&str]) -> Result<(), String> {
    for key in table.keys() {
        if !names.contains(&key.as_str()) {
            return Err(format!("unknown field `{}`", key));
        }
    }
    Ok(())
}

fn text(table: &toml::Table, name: &str) -> Option<String> {
    table.get(name).and_then(|v| v.as_str()).map(|s| s.to_string())
}

fn flag(table: &toml::Table, name: &str) -> Option<bool> {
    table.get(name).and_then(|v| v.as_bool())
}

fn number(table: &toml::Table, name: &str) -> Option<i64> {
    table.get(name).and_then(|v| v.as_integer())
}

fn section(table: &toml::Table, name: &str) -> Option<toml::Table> {
    table.get(name).and_then(|v| v.as_table()).cloned()
}

fn entries(table: &toml::Table, name: &str) -> Vec<toml::Table> {
    match table.get(name).and_then(|v| v.as_array()) {
        Some(list) => list.iter().filter_map(|v| v.as_table().cloned()).collect(),
        None => Vec::new(),
    }
}

fn element(table: &toml::Table, name: &str) -> Option<KeySchemaElement> {
    let part = section(table, name)?;
    let type_code = match text(&part, "type")?.as_str() {
        "S" => TypeCode::S,
        "N" => TypeCode::N,
        _ => TypeCode::B,
    };
    Some(KeySchemaElement { name: text(&part, "name")?, type_code })
}

fn values(toml_str: &str) -> Result<ConfigFile, String> {
    let root: toml::Table = toml_str.parse::<toml::Table>().map_err(|e| e.to_string())?;
    known(&root, &["table", "region", "profile", "scan", "export", "ttl", "gsi", "lsi"])?;
    let scan = section(&root, "scan").unwrap_or_default();
    let export = section(&root, "export").unwrap_or_default();
    Ok(ConfigFile {
        table: text(&root, "table").ok_or("missing field `table`")?,
        region: text(&root, "region"),
        profile: text(&root, "profile"),
        scan: ScanSettings {
            segments: number(&scan, "segments").map(|n| n as usize),
            rate_limit_percent: number(&scan, "rate_limit_percent").map(|n| n as u8),
        },
        export: ExportSettings {
            csv: flag(&export, "csv"),
            csv_path: text(&export, "csv_path"),
            ndjson: flag(&export, "ndjson"),
            ndjson_path: text(&export, "ndjson_path"),
        },
        ttl: section(&root, "ttl").map(|ttl| TtlSettings {
            enabled: flag(&ttl, "enabled"),
            check_missing: flag(&ttl, "check_missing"),
            check_wrong_type: flag(&ttl, "check_wrong_type"),
            check_ms_magnitude: flag(&ttl, "check_ms_magnitude"),
            check_malformed: flag(&ttl, "check_malformed"),
            check_past_5_years: flag(&ttl, "check_past_5_years"),
        }),
        gsi: entries(&root, "gsi")
            .iter()
            .map(|gsi| GsiEntry {
                name: text(gsi, "name").unwrap_or_default(),
                hypothetical: flag(gsi, "hypothetical").unwrap_or(false),
                pk: element(gsi, "pk"),
                sk: element(gsi, "sk"),
                check_missing: flag(gsi, "check_missing").unwrap_or(false),
            })
            .collect(),
        lsi: entries(&root, "lsi")
            .iter()
            .map(|lsi| LsiEntry {
                name: text(lsi, "name").unwrap_or_default(),
                check_missing: flag(lsi, "check_missing").unwrap_or(false),
            })
            .collect(),
    })
}

fn document(toml_str: &str) -> Document {
    match values(toml_str) {
        Ok(file) => Document::Values(file),
        Err(cause) => Document::Malformed(cause),
    }
}

fn parse_text(toml_str: &str) -> Result<ConfigFile, ConfigError> {
    parse(document(toml_str))
}

const DEFAULT_SEGMENTS: usize = 7;

#[test]
fn parses_the_full_appendix_example() {
    let config = parse_text(FULL).expect("appendix example should parse");

    assert_eq!(config.table, "users");
    assert_eq!(config.region.as_deref(), Some("eu-west-1"));
    assert_eq!(config.profile.as_deref(), Some("prod-readonly"));

    assert_eq!(config.scan.segments, Some(16));
    assert_eq!(config.scan.rate_limit_percent, Some(60));

    assert_eq!(config.export.csv, Some(true));
    assert_eq!(config.export.csv_path.as_deref(), Some("./violations.csv"));
    assert_eq!(config.export.ndjson, Some(true));

    let ttl = config.ttl.expect("ttl block present");
    assert_eq!(ttl.enabled, Some(true));
    assert_eq!(ttl.check_missing, Some(true));
    assert_eq!(ttl.check_past_5_years, Some(false));
}

#[test]
fn discriminates_existing_and_hypothetical_gsis() {
    let config = parse_text(FULL).unwrap();

    let existing = &config.gsi[0];
    assert_eq!(existing.name, "GSI1");
    assert!(!existing.hypothetical);
    assert!(existing.pk.is_none());
    assert!(!existing.check_missing);

    let hypothetical = &config.gsi[1];
    assert!(hypothetical.hypothetical);
    assert_eq!(
        hypothetical.pk,
        Some(KeySchemaElement { name: "userId".to_string(), type_code: TypeCode::S })
    );
    assert_eq!(
        hypothetical.sk,
        Some(KeySchemaElement { name: "createdAt".to_string(), type_code: TypeCode::N })
    );
    assert!(hypothetical.check_missing);
}

#[test]
fn minimal_config_defaults_absent_sections() {
    let config = parse_text("table = \"orders\"\n").unwrap();

    assert_eq!(config.table, "orders");
    assert_eq!(config.region, None);
    assert_eq!(config.scan, ScanSettings::default());
    assert_eq!(config.export, ExportSettings::default());
    assert!(config.ttl.is_none());
    assert!(config.gsi.is_empty());
    assert!(config.lsi.is_empty());
}

#[test]
fn partition_key_only_hypothetical_gsi_is_valid() {
    let config = parse_text(
        r#"
table = "t"
[[gsi]]
name = "g"
hypothetical = true
pk = { name = "userId", type = "S" }
"#,
    )
    .unwrap();

    assert!(config.gsi[0].sk.is_none());
}

#[test]
fn unknown_field_is_rejected() {
    let err = parse_text("table = \"t\"\nbogus = 1\n").unwrap_err();
    assert!(matches!(err, ConfigError::Parse(_)));
}

#[test]
fn missing_table_fails_to_parse() {
    let err = parse_text("region = \"eu-west-1\"\n").unwrap_err();
    assert!(matches!(err, ConfigError::Parse(_)));
}

#[test]
fn empty_table_name_is_rejected() {
    let err = parse_text("table = \"  \"\n").unwrap_err();
    assert!(matches!(err, ConfigError::EmptyTable));
}

#[test]
fn hypothetical_gsi_without_pk_is_rejected() {
    let err = parse_text(
        r#"
table = "t"
[[gsi]]
name = "g"
hypothetical = true
"#,
    )
    .unwrap_err();

    assert!(matches!(err, ConfigError::HypotheticalMissingPk(name) if name == "g"));
}

#[test]
fn existing_gsi_with_key_schema_is_rejected() {
    let err = parse_text(
        r#"
table = "t"
[[gsi]]
name = "g"
pk = { name = "userId", type = "S" }
"#,
    )
    .unwrap_err();

    assert!(matches!(err, ConfigError::ExistingGsiHasKeySpec(name) if name == "g"));
}

#[test]
fn duplicate_gsi_name_is_rejected() {
    let err = parse_text(
        r#"
table = "t"
[[gsi]]
name = "dup"
[[gsi]]
name = "dup"
"#,
    )
    .unwrap_err();

    assert!(matches!(err, ConfigError::DuplicateGsi(name) if name == "dup"));
}

#[test]
fn duplicate_lsi_name_is_rejected() {
    let err = parse_text(
        r#"
table = "t"
[[lsi]]
name = "dup"
[[lsi]]
name = "dup"
"#,
    )
    .unwrap_err();

    assert!(matches!(err, ConfigError::DuplicateLsi(name) if name == "dup"));
}

#[test]
fn rate_limit_out_of_range_is_rejected() {
    for bad in ["0", "101", "200"] {
        let toml = format!("table = \"t\"\n[scan]\nrate_limit_percent = {bad}\n");
        let err = parse_text(&toml).unwrap_err();
        assert!(
            matches!(err, ConfigError::RateLimitOutOfRange(_)),
            "rate_limit_percent = {bad} should be rejected"
        );
    }
}

#[test]
fn rate_limit_boundaries_are_accepted() {
    for ok in ["1", "100"] {
        let toml = format!("table = \"t\"\n[scan]\nrate_limit_percent = {ok}\n");
        parse_text(&toml)
            .unwrap_or_else(|e| panic!("rate_limit_percent = {ok} should parse: {}", e.message()));
    }
}

#[test]
fn zero_segments_is_rejected() {
    let err = parse_text("table = \"t\"\n[scan]\nsegments = 0\n").unwrap_err();
    assert!(matches!(err, ConfigError::ZeroSegments));
}

fn cli() -> CliArgs {
    CliArgs::default()
}

#[test]
fn cli_overrides_file_values() {
    let file = parse_text(FULL).unwrap();
    let cli = CliArgs {
        table: Some("orders".to_string()),
        region: Some("us-east-1".to_string()),
        profile: Some("dev".to_string()),
        segments: Some(4),
        rate_limit_percent: Some(25),
        ..cli()
    };

    let resolved = merge(Some(file), &cli, DEFAULT_SEGMENTS).unwrap();
    assert_eq!(resolved.table, "orders");
    assert_eq!(resolved.region.as_deref(), Some("us-east-1"));
    assert_eq!(resolved.profile.as_deref(), Some("dev"));
    assert_eq!(resolved.segments, 4);
    assert_eq!(resolved.rate_limit_percent, Some(25));
}

#[test]
fn file_wins_over_defaults_when_cli_absent() {
    let file = parse_text(FULL).unwrap();
    let resolved = merge(Some(file), &cli(), DEFAULT_SEGMENTS).unwrap();

    assert_eq!(resolved.table, "users");
    assert_eq!(resolved.region.as_deref(), Some("eu-west-1"));
    assert_eq!(resolved.segments, 16);
    assert_eq!(resolved.rate_limit_percent, Some(60));
    assert!(resolved.export.csv);
    assert_eq!(resolved.export.csv_path.as_deref(), Some("./violations.csv"));
}

#[test]
fn defaults_apply_with_no_file() {
    let cli = CliArgs { table: Some("t".to_string()), ..cli() };
    let resolved = merge(None, &cli, DEFAULT_SEGMENTS).unwrap();

    assert_eq!(resolved.segments, DEFAULT_SEGMENTS);
    assert!(resolved.segments >= 1);
    assert_eq!(resolved.rate_limit_percent, None);
    assert_eq!(resolved.region, None);
    assert!(resolved.export.csv);
    assert!(resolved.export.ndjson);
    assert_eq!(resolved.export.csv_path, None);
    assert!(resolved.gsi.is_empty());
    assert!(resolved.ttl.is_none());
}

#[test]
fn intents_are_carried_verbatim() {
    let file = parse_text(FULL).unwrap();
    let resolved = merge(Some(file), &cli(), DEFAULT_SEGMENTS).unwrap();

    assert_eq!(resolved.gsi.len(), 2);
    assert!(resolved.gsi[1].hypothetical);
    assert_eq!(resolved.lsi.len(), 1);
    let ttl = resolved.ttl.expect("ttl intent carried");
    assert_eq!(ttl.check_past_5_years, Some(false));
}

#[test]
fn missing_table_everywhere_is_rejected() {
    let err = merge(None, &cli(), DEFAULT_SEGMENTS).unwrap_err();
    assert!(matches!(err, ConfigError::MissingTable));
}

#[test]
fn cli_empty_table_is_rejected() {
    let cli = CliArgs { table: Some("   ".to_string()), ..cli() };
    assert!(matches!(
        merge(None, &cli, DEFAULT_SEGMENTS).unwrap_err(),
        ConfigError::EmptyTable
    ));
}

#[test]
fn cli_zero_segments_is_rejected() {
    let cli = CliArgs { table: Some("t".to_string()), segments: Some(0), ..cli() };
    assert!(matches!(
        merge(None, &cli, DEFAULT_SEGMENTS).unwrap_err(),
        ConfigError::ZeroSegments
    ));
}

#[test]
fn cli_rate_out_of_range_is_rejected() {
    let cli = CliArgs {
        table: Some("t".to_string()),
        rate_limit_percent: Some(101),
        ..cli()
    };
    assert!(matches!(
        merge(None, &cli, DEFAULT_SEGMENTS).unwrap_err(),
        ConfigError::RateLimitOutOfRange(101)
    ));
}

#[test]
fn load_reads_and_resolves_a_file() {
    let read = document("table = \"from_file\"\n[scan]\nsegments = 3\n");
    let resolved = load(Some(read), &cli(), DEFAULT_SEGMENTS).unwrap();

    assert_eq!(resolved.table, "from_file");
    assert_eq!(resolved.segments, 3);
}

#[test]
fn load_missing_file_is_a_read_error() {
    let read = Document::Unreadable {
        path: "does-not-exist.toml".to_string(),
        cause: "No such file or directory".to_string(),
    };
    let err = load(Some(read), &cli(), DEFAULT_SEGMENTS).unwrap_err();
    assert!(matches!(&err, ConfigError::Read { .. }));
    assert_eq!(
        err.message(),
        "cannot read config `does-not-exist.toml`: No such file or directory"
    );
}

#[test]
fn load_without_a_file_runs_on_the_command_line() {
    let cli = CliArgs { table: Some("t".to_string()), segments: Some(2), ..cli() };
    let resolved = load(None, &cli, DEFAULT_SEGMENTS).unwrap();
    assert_eq!(resolved.table, "t");
    assert_eq!(resolved.segments, 2);
}

#[test]
fn validation_comes_before_the_merge() {
    let read = document("table = \"t\"\n[scan]\nsegments = 0\n");
    let cli = CliArgs { segments: Some(4), ..cli() };
    assert_eq!(
        load(Some(read), &cli, DEFAULT_SEGMENTS).unwrap_err(),
        ConfigError::ZeroSegments
    );
}

#[test]
fn blank_index_names_are_rejected() {
    let err = parse_text("table = \"t\"\n[[gsi]]\nname = \" \"\n").unwrap_err();
    assert_eq!(err, ConfigError::EmptyIndexName);
    let err = parse_text("table = \"t\"\n[[lsi]]\nname = \"\\t\"\n").unwrap_err();
    assert_eq!(err, ConfigError::EmptyIndexName);
}

#[test]
fn unicode_white_space_is_blank_too() {
    let cli = CliArgs { table: Some("\u{3000}\u{a0}\u{2003}".to_string()), ..cli() };
    assert_eq!(
        merge(None, &cli, DEFAULT_SEGMENTS).unwrap_err(),
        ConfigError::EmptyTable
    );
    let cli = CliArgs { table: Some("\u{3000}t\u{200b}".to_string()), ..cli };
    assert_eq!(
        merge(None, &cli, DEFAULT_SEGMENTS).unwrap().table,
        "\u{3000}t\u{200b}"
    );
}

#[test]
fn export_toggles_stay_off_when_the_file_says_so() {
    let file = parse_text("table = \"t\"\n[export]\ncsv = false\n").unwrap();
    let resolved = merge(Some(file), &cli(), DEFAULT_SEGMENTS).unwrap();
    assert!(!resolved.export.csv);
    assert!(resolved.export.ndjson);
}

#[test]
fn unset_export_paths_get_default_names() {
    let cli = CliArgs { table: Some("users".to_string()), ..cli() };
    let mut config = merge(None, &cli, DEFAULT_SEGMENTS).unwrap();
    config.export.ndjson_path = Some("mine.ndjson".to_string());
    resolve_export_paths(&mut config, "1700000000");
    assert_eq!(
        config.export.csv_path.as_deref(),
        Some("violations-users-1700000000.csv")
    );
    assert_eq!(config.export.ndjson_path.as_deref(), Some("mine.ndjson"));

    config.export.ndjson_path = None;
    resolve_export_paths(&mut config, "1700000001");
    assert_eq!(
        config.export.csv_path.as_deref(),
        Some("violations-users-1700000000.csv")
    );
    assert_eq!(
        config.export.ndjson_path.as_deref(),
        Some("violations-users-1700000001.ndjson")
    );
}

#[test]
fn a_saved_config_loads_back() {
    let file = parse_text(FULL).unwrap();
    let config: ScanConfig = merge(Some(file), &cli(), DEFAULT_SEGMENTS).unwrap();
    let saved = to_file(config.clone());
    assert_eq!(saved.scan.segments, Some(16));
    let back = load(Some(Document::Values(saved)), &cli(), DEFAULT_SEGMENTS).unwrap();
    assert_eq!(back, config);
}

#[test]
fn config_errors_read_as_sentences() {
    let name = "x".to_string();
    assert_eq!(ConfigError::Parse("bad".to_string()).message(), "invalid TOML: bad");
    assert_eq!(
        ConfigError::MissingTable.message(),
        "no table specified; set `table` in the config or pass --table"
    );
    assert_eq!(
        ConfigError::EmptyTable.message(),
        "`table` must be a non-empty table name"
    );
    assert_eq!(
        ConfigError::EmptyIndexName.message(),
        "every [[gsi]] and [[lsi]] entry needs a non-empty `name`"
    );
    assert_eq!(
        ConfigError::DuplicateGsi(name.clone()).message(),
        "GSI `x` is declared more than once; give each [[gsi]] a unique name"
    );
    assert_eq!(
        ConfigError::DuplicateLsi(name.clone()).message(),
        "LSI `x` is declared more than once; give each [[lsi]] a unique name"
    );
    assert_eq!(
        ConfigError::HypotheticalMissingPk(name.clone()).message(),
        "hypothetical GSI `x` needs a `pk = { name, type }`; only existing indexes may omit the key schema"
    );
    assert_eq!(
        ConfigError::ExistingGsiHasKeySpec(name).message(),
        "GSI `x` declares `pk`/`sk` but is not hypothetical; set `hypothetical = true` or drop the key schema so it is discovered via DescribeTable"
    );
    assert_eq!(
        ConfigError::RateLimitOutOfRange(101).message(),
        "`rate_limit_percent = 101` is out of range; use 1..=100"
    );
    assert_eq!(
        ConfigError::ZeroSegments.message(),
        "`scan.segments` must be at least 1"
    );
}
