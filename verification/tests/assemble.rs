use dynamodb_violation_detector::assemble::{assemble, AssembleError};
use dynamodb_violation_detector::aws::{
    IndexSchema, TableDescription, TableKeySchema, TtlDescription,
};
use dynamodb_violation_detector::config::{
    ExportConfig, GsiEntry, LsiEntry, ScanConfig, TtlSettings,
};
use dynamodb_violation_detector::domain::{KeySchemaElement, TypeCode};

fn element(name: &str, type_code: TypeCode) -> KeySchemaElement {
    KeySchemaElement { name: name.to_string(), type_code }
}

fn index(name: &str, pk: KeySchemaElement, sk: Option<KeySchemaElement>) -> IndexSchema {
    IndexSchema { name: name.to_string(), pk, sk }
}

fn table(
    gsis: Vec<IndexSchema>,
    lsis: Vec<IndexSchema>,
    ttl: Option<TtlDescription>,
) -> TableDescription {
    TableDescription {
        name: "users".to_string(),
        key_schema: TableKeySchema { pk: element("id", TypeCode::S), sk: None },
        gsis,
        lsis,
        ttl,
        provisioned_rcu: None,
        item_count: 0,
    }
}

fn config(gsi: Vec<GsiEntry>, lsi: Vec<LsiEntry>, ttl: Option<TtlSettings>) -> ScanConfig {
    ScanConfig {
        table: "users".to_string(),
        region: None,
        profile: None,
        segments: 1,
        rate_limit_percent: None,
        export: ExportConfig { csv: true, csv_path: None, ndjson: true, ndjson_path: None },
        gsi,
        lsi,
        ttl,
    }
}

fn existing_gsi(name: &str, check_missing: bool) -> GsiEntry {
    GsiEntry {
        name: name.to_string(),
        hypothetical: false,
        pk: None,
        sk: None,
        check_missing,
    }
}

#[test]
fn existing_gsi_takes_key_schema_from_the_discovered_table() {
    let desc = table(
        vec![index(
            "byEmail",
            element("email", TypeCode::S),
            Some(element("createdAt", TypeCode::N)),
        )],
        vec![],
        None,
    );
    let cfg = config(vec![existing_gsi("byEmail", true)], vec![], None);

    let rules = assemble(&desc, &cfg).unwrap();
    assert_eq!(rules.table, "users");
    assert_eq!(rules.gsis.len(), 1);
    let gsi = &rules.gsis[0];
    assert_eq!(gsi.name, "byEmail");
    assert!(!gsi.hypothetical);
    assert_eq!(gsi.pk, element("email", TypeCode::S));
    assert_eq!(gsi.sk, Some(element("createdAt", TypeCode::N)));
    assert!(gsi.check_missing);
}

#[test]
fn unknown_existing_gsi_is_an_error() {
    let desc = table(vec![], vec![], None);
    let cfg = config(vec![existing_gsi("ghost", false)], vec![], None);

    assert_eq!(
        assemble(&desc, &cfg).unwrap_err(),
        AssembleError::UnknownGsi("ghost".to_string())
    );
}

#[test]
fn hypothetical_gsi_carries_its_own_key_spec() {
    let desc = table(vec![], vec![], None);
    let cfg = config(
        vec![GsiEntry {
            name: "proposed".to_string(),
            hypothetical: true,
            pk: Some(element("userId", TypeCode::S)),
            sk: Some(element("ts", TypeCode::N)),
            check_missing: false,
        }],
        vec![],
        None,
    );

    let rules = assemble(&desc, &cfg).unwrap();
    let gsi = &rules.gsis[0];
    assert!(gsi.hypothetical);
    assert_eq!(gsi.pk, element("userId", TypeCode::S));
    assert_eq!(gsi.sk, Some(element("ts", TypeCode::N)));
}

#[test]
fn hypothetical_gsi_without_pk_is_an_error() {
    let desc = table(vec![], vec![], None);
    let cfg = config(
        vec![GsiEntry {
            name: "proposed".to_string(),
            hypothetical: true,
            pk: None,
            sk: None,
            check_missing: false,
        }],
        vec![],
        None,
    );

    assert_eq!(
        assemble(&desc, &cfg).unwrap_err(),
        AssembleError::HypotheticalMissingPk("proposed".to_string())
    );
}

#[test]
fn config_order_is_preserved_across_existing_and_hypothetical() {
    let desc = table(vec![index("real", element("a", TypeCode::S), None)], vec![], None);
    let cfg = config(
        vec![
            GsiEntry {
                name: "proposed".to_string(),
                hypothetical: true,
                pk: Some(element("b", TypeCode::S)),
                sk: None,
                check_missing: false,
            },
            existing_gsi("real", false),
        ],
        vec![],
        None,
    );

    let rules = assemble(&desc, &cfg).unwrap();
    assert_eq!(rules.gsis[0].name, "proposed");
    assert_eq!(rules.gsis[1].name, "real");
}

#[test]
fn existing_lsi_takes_sort_key_from_the_discovered_table() {
    let desc = table(
        vec![],
        vec![index(
            "byCreatedAt",
            element("id", TypeCode::S),
            Some(element("createdAt", TypeCode::N)),
        )],
        None,
    );
    let cfg = config(
        vec![],
        vec![LsiEntry { name: "byCreatedAt".to_string(), check_missing: true }],
        None,
    );

    let rules = assemble(&desc, &cfg).unwrap();
    assert_eq!(rules.lsis.len(), 1);
    let lsi = &rules.lsis[0];
    assert_eq!(lsi.name, "byCreatedAt");
    assert_eq!(lsi.sort_key, element("createdAt", TypeCode::N));
    assert!(lsi.check_missing);
}

#[test]
fn unknown_lsi_is_an_error() {
    let desc = table(vec![], vec![], None);
    let cfg = config(
        vec![],
        vec![LsiEntry { name: "ghost".to_string(), check_missing: true }],
        None,
    );

    assert_eq!(
        assemble(&desc, &cfg).unwrap_err(),
        AssembleError::UnknownLsi("ghost".to_string())
    );
}

#[test]
fn lsi_without_a_discovered_sort_key_is_an_error() {
    let desc = table(vec![], vec![index("weird", element("id", TypeCode::S), None)], None);
    let cfg = config(
        vec![],
        vec![LsiEntry { name: "weird".to_string(), check_missing: true }],
        None,
    );

    assert_eq!(
        assemble(&desc, &cfg).unwrap_err(),
        AssembleError::LsiMissingSortKey("weird".to_string())
    );
}

fn ttl_desc() -> Option<TtlDescription> {
    Some(TtlDescription { attribute: "expiresAt".to_string(), enabled: true })
}

#[test]
fn ttl_resolves_discovered_attribute_with_toggles() {
    let desc = table(vec![], vec![], ttl_desc());
    let cfg = config(
        vec![],
        vec![],
        Some(TtlSettings {
            enabled: Some(true),
            check_missing: Some(false),
            check_past_5_years: Some(true),
            ..TtlSettings::default()
        }),
    );

    let ttl = assemble(&desc, &cfg).unwrap().ttl.expect("ttl rule present");
    assert_eq!(ttl.attribute, "expiresAt");
    assert!(!ttl.check_missing);
    assert!(ttl.check_past_5_years);
}

#[test]
fn ttl_sub_toggles_default_when_unset() {
    let desc = table(vec![], vec![], ttl_desc());
    let cfg = config(vec![], vec![], Some(TtlSettings::default()));

    let ttl = assemble(&desc, &cfg).unwrap().ttl.expect("ttl rule present");
    assert!(ttl.check_missing);
    assert!(ttl.check_wrong_type);
    assert!(ttl.check_ms_magnitude);
    assert!(ttl.check_malformed);
    assert!(!ttl.check_past_5_years);
}

#[test]
fn absent_ttl_settings_yields_no_ttl_rule() {
    let desc = table(vec![], vec![], ttl_desc());
    let cfg = config(vec![], vec![], None);

    assert!(assemble(&desc, &cfg).unwrap().ttl.is_none());
}

#[test]
fn ttl_disabled_in_config_yields_no_ttl_rule() {
    let desc = table(vec![], vec![], ttl_desc());
    let cfg = config(
        vec![],
        vec![],
        Some(TtlSettings { enabled: Some(false), ..TtlSettings::default() }),
    );

    assert!(assemble(&desc, &cfg).unwrap().ttl.is_none());
}

#[test]
fn ttl_enabled_without_a_discovered_attribute_is_an_error() {
    let desc = table(vec![], vec![], None);
    let cfg = config(vec![], vec![], Some(TtlSettings::default()));

    assert_eq!(assemble(&desc, &cfg).unwrap_err(), AssembleError::TtlNotConfigured);
}

#[test]
fn empty_config_against_a_rich_table_checks_nothing() {
    let desc = table(
        vec![index("byEmail", element("email", TypeCode::S), None)],
        vec![index(
            "byCreatedAt",
            element("id", TypeCode::S),
            Some(element("createdAt", TypeCode::N)),
        )],
        ttl_desc(),
    );
    let cfg = config(vec![], vec![], None);

    let rules = assemble(&desc, &cfg).unwrap();
    assert!(rules.gsis.is_empty());
    assert!(rules.lsis.is_empty());
    assert!(rules.ttl.is_none());
}

#[test]
fn the_first_unresolved_target_is_reported() {
    let desc = table(vec![index("g1", element("a", TypeCode::S), None)], vec![], None);
    let cfg = config(
        vec![existing_gsi("g1", true), existing_gsi("g2", true), existing_gsi("g3", true)],
        vec![LsiEntry { name: "l1".to_string(), check_missing: false }],
        Some(TtlSettings::default()),
    );
    assert_eq!(
        assemble(&desc, &cfg).unwrap_err(),
        AssembleError::UnknownGsi("g2".to_string())
    );
}

#[test]
fn the_first_of_two_indexes_with_one_name_is_taken() {
    let desc = table(
        vec![
            index("twin", element("first", TypeCode::S), None),
            index("twin", element("second", TypeCode::B), None),
        ],
        vec![],
        None,
    );
    let cfg = config(vec![existing_gsi("twin", false)], vec![], None);
    let rules = assemble(&desc, &cfg).unwrap();
    assert_eq!(rules.gsis[0].pk, element("first", TypeCode::S));
}

#[test]
fn assembly_errors_read_as_sentences() {
    let name = "x".to_string();
    assert_eq!(
        AssembleError::UnknownGsi(name.clone()).message(),
        "config references GSI `x`, which does not exist on the table; mark it `hypothetical = true` or correct the name"
    );
    assert_eq!(
        AssembleError::UnknownLsi(name.clone()).message(),
        "config references LSI `x`, which does not exist on the table; correct the name"
    );
    assert_eq!(
        AssembleError::HypotheticalMissingPk(name.clone()).message(),
        "hypothetical GSI `x` has no partition key spec"
    );
    assert_eq!(
        AssembleError::LsiMissingSortKey(name).message(),
        "LSI `x` has no sort key in the discovered schema; the missing-key check cannot apply"
    );
    assert_eq!(
        AssembleError::TtlNotConfigured.message(),
        "TTL auditing is enabled but the table has no TTL attribute; disable the [ttl] block or configure TTL on the table"
    );
}
