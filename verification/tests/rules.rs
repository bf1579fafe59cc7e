use dynamodb_violation_detector::domain::{AttributeMap, AttributeValue, Item, KeySchemaElement, TypeCode};
use dynamodb_violation_detector::rules::{
    check_item, scalar_value_text, type_code_label, GsiRule, LsiRule, RuleSet, Target, TtlRule,
    Violation, ViolationCategory,
};

const NOW: i64 = 1_700_000_000;

fn s(value: &str) -> AttributeValue {
    AttributeValue::S(value.to_string())
}

fn n(value: &str) -> AttributeValue {
    AttributeValue::N(value.to_string())
}

fn item(pairs: Vec<(&str, AttributeValue)>) -> Item {
    let mut map = AttributeMap::new();
    for (name, value) in pairs {
        map.insert(name.to_string(), value);
    }
    map
}

fn element(name: &str, type_code: TypeCode) -> KeySchemaElement {
    KeySchemaElement { name: name.to_string(), type_code }
}

fn gsi(pk: KeySchemaElement, sk: Option<KeySchemaElement>, check_missing: bool) -> GsiRule {
    GsiRule { name: "G".to_string(), hypothetical: false, pk, sk, check_missing }
}

fn rules(gsis: Vec<GsiRule>, lsis: Vec<LsiRule>, ttl: Option<TtlRule>) -> RuleSet {
    RuleSet { table: "t".to_string(), gsis, lsis, ttl }
}

fn ttl_rule() -> TtlRule {
    TtlRule {
        attribute: "exp".to_string(),
        check_missing: true,
        check_wrong_type: true,
        check_ms_magnitude: true,
        check_malformed: true,
        check_past_5_years: true,
    }
}

fn ttl_categories(value: Option<AttributeValue>) -> Vec<ViolationCategory> {
    let it = match value {
        Some(value) => item(vec![("exp", value)]),
        None => item(vec![]),
    };
    check_item(&it, &rules(vec![], vec![], Some(ttl_rule())), NOW)
        .iter()
        .map(|v| v.category)
        .collect()
}

#[test]
fn matching_keys_are_not_reported() {
    let set = rules(
        vec![gsi(element("a", TypeCode::S), Some(element("b", TypeCode::N)), true)],
        vec![],
        None,
    );
    let it = item(vec![("a", s("x")), ("b", n("1"))]);
    assert_eq!(check_item(&it, &set, NOW), vec![]);
}

#[test]
fn a_key_of_another_type_is_a_mismatch() {
    let set = rules(vec![gsi(element("a", TypeCode::S), None, false)], vec![], None);
    assert_eq!(
        check_item(&item(vec![("a", n("42"))]), &set, NOW),
        vec![Violation {
            target: Target::Gsi("G".to_string()),
            category: ViolationCategory::TypeMismatch,
            attribute: Some("a".to_string()),
            actual_value: Some("42".to_string()),
            actual_type: Some("N".to_string()),
            expected_type: Some(TypeCode::S),
            size_bytes: None,
        }]
    );
    let found = check_item(&item(vec![("a", AttributeValue::Bool(true))]), &set, NOW);
    assert_eq!(found[0].actual_value, None);
    assert_eq!(found[0].actual_type.as_deref(), Some("BOOL"));
}

#[test]
fn key_sizes_are_counted_in_bytes() {
    let set = rules(
        vec![gsi(element("a", TypeCode::S), Some(element("b", TypeCode::B)), false)],
        vec![],
        None,
    );
    let sized = |pk: String, sk: usize| {
        check_item(
            &item(vec![
                ("a", AttributeValue::S(pk)),
                ("b", AttributeValue::B(vec![0; sk])),
            ]),
            &set,
            NOW,
        )
    };
    assert!(sized("x".repeat(2048), 1024).is_empty());
    let found = sized("x".repeat(2049), 1024);
    assert_eq!(found.len(), 1);
    assert_eq!(found[0].category, ViolationCategory::SizeExceeded);
    assert_eq!(found[0].size_bytes, Some(2049));
    let found = sized("é".repeat(1025), 1025);
    assert_eq!(found.len(), 2);
    assert_eq!(found[0].size_bytes, Some(2050));
    assert_eq!(found[1].attribute.as_deref(), Some("b"));
    assert_eq!(found[1].size_bytes, Some(1025));
}

#[test]
fn a_value_can_break_type_and_size_at_once() {
    let set = rules(vec![gsi(element("a", TypeCode::N), None, false)], vec![], None);
    let found = check_item(&item(vec![("a", AttributeValue::B(vec![7; 2049]))]), &set, NOW);
    let categories: Vec<ViolationCategory> = found.iter().map(|v| v.category).collect();
    assert_eq!(
        categories,
        vec![ViolationCategory::TypeMismatch, ViolationCategory::SizeExceeded]
    );
    assert!(found[0].actual_value.as_deref().unwrap().starts_with("BwcHBwcH"));
}

#[test]
fn missing_keys_are_reported_only_on_request() {
    let keys = |check: bool| {
        rules(
            vec![gsi(element("a", TypeCode::S), Some(element("b", TypeCode::N)), check)],
            vec![LsiRule {
                name: "L".to_string(),
                sort_key: element("c", TypeCode::S),
                check_missing: check,
            }],
            None,
        )
    };
    assert!(check_item(&item(vec![]), &keys(false), NOW).is_empty());
    let found = check_item(&item(vec![]), &keys(true), NOW);
    let shown: Vec<(Target, Option<String>, Option<TypeCode>)> = found
        .into_iter()
        .map(|v| {
            assert_eq!(v.category, ViolationCategory::MissingKey);
            (v.target, v.attribute, v.expected_type)
        })
        .collect();
    assert_eq!(
        shown,
        vec![
            (Target::Gsi("G".to_string()), Some("a".to_string()), Some(TypeCode::S)),
            (Target::Gsi("G".to_string()), Some("b".to_string()), Some(TypeCode::N)),
            (Target::Lsi("L".to_string()), Some("c".to_string()), Some(TypeCode::S)),
        ]
    );
}

#[test]
fn lsi_keys_are_not_checked_for_type_or_size() {
    let set = rules(
        vec![],
        vec![LsiRule {
            name: "L".to_string(),
            sort_key: element("c", TypeCode::N),
            check_missing: true,
        }],
        None,
    );
    assert!(check_item(&item(vec![("c", s(&"x".repeat(5000)))]), &set, NOW).is_empty());
}

#[test]
fn ttl_values_are_classified() {
    let none: Vec<ViolationCategory> = vec![];
    assert_eq!(ttl_categories(None), vec![ViolationCategory::TtlMissing]);
    assert_eq!(ttl_categories(Some(s("1700000000"))), vec![ViolationCategory::TtlWrongType]);
    assert_eq!(ttl_categories(Some(n("1700000000"))), none);
    assert_eq!(ttl_categories(Some(n("100000000000"))), none);
    assert_eq!(
        ttl_categories(Some(n("100000000001"))),
        vec![ViolationCategory::TtlMsMagnitude]
    );
    assert_eq!(
        ttl_categories(Some(n("999999999999999999999999999999999999999999"))),
        vec![ViolationCategory::TtlMsMagnitude]
    );
    for bad in ["0", "-0", "-5", "1.5", "1e9", "", "+", " 5", "0x10"] {
        assert_eq!(
            ttl_categories(Some(n(bad))),
            vec![ViolationCategory::TtlMalformed],
            "{bad:?}"
        );
    }
    let edge = NOW - 157_680_000;
    assert_eq!(ttl_categories(Some(n(&edge.to_string()))), none);
    assert_eq!(
        ttl_categories(Some(n(&(edge - 1).to_string()))),
        vec![ViolationCategory::TtlPastFiveYears]
    );
}

#[test]
fn ttl_checks_follow_their_toggles() {
    let off = TtlRule {
        attribute: "exp".to_string(),
        check_missing: false,
        check_wrong_type: false,
        check_ms_magnitude: false,
        check_malformed: false,
        check_past_5_years: false,
    };
    let set = rules(vec![], vec![], Some(off));
    for it in [
        item(vec![]),
        item(vec![("exp", s("x"))]),
        item(vec![("exp", n("0"))]),
        item(vec![("exp", n("1"))]),
        item(vec![("exp", n("1700000000000"))]),
    ] {
        assert!(check_item(&it, &set, NOW).is_empty());
    }
}

#[test]
fn the_wrong_type_is_reported_with_the_expected_one() {
    let found = check_item(
        &item(vec![("exp", s("soon"))]),
        &rules(vec![], vec![], Some(ttl_rule())),
        NOW,
    );
    assert_eq!(
        found,
        vec![Violation {
            target: Target::Ttl,
            category: ViolationCategory::TtlWrongType,
            attribute: Some("exp".to_string()),
            actual_value: Some("soon".to_string()),
            actual_type: Some("S".to_string()),
            expected_type: Some(TypeCode::N),
            size_bytes: None,
        }]
    );
}

#[test]
fn one_pass_covers_every_rule_in_order() {
    let set = rules(
        vec![
            gsi(element("a", TypeCode::S), None, true),
            GsiRule {
                name: "H".to_string(),
                hypothetical: true,
                pk: element("b", TypeCode::N),
                sk: None,
                check_missing: true,
            },
        ],
        vec![LsiRule {
            name: "L".to_string(),
            sort_key: element("c", TypeCode::S),
            check_missing: true,
        }],
        Some(ttl_rule()),
    );
    let found = check_item(&item(vec![("b", s("x"))]), &set, NOW);
    let targets: Vec<Target> = found.iter().map(|v| v.target.clone()).collect();
    assert_eq!(
        targets,
        vec![
            Target::Gsi("G".to_string()),
            Target::Gsi("H".to_string()),
            Target::Lsi("L".to_string()),
            Target::Ttl,
        ]
    );
    assert!(check_item(&item(vec![]), &rules(vec![], vec![], None), NOW).is_empty());
}

#[test]
fn type_codes_of_every_value() {
    let values = vec![
        (s("x"), "S", Some("x")),
        (n("1"), "N", Some("1")),
        (AttributeValue::B(vec![104, 105]), "B", Some("aGk=")),
        (AttributeValue::Bool(true), "BOOL", None),
        (AttributeValue::Null(true), "NULL", None),
        (AttributeValue::M(AttributeMap::new()), "M", None),
        (AttributeValue::L(vec![]), "L", None),
        (AttributeValue::Ss(vec![]), "SS", None),
        (AttributeValue::Ns(vec![]), "NS", None),
        (AttributeValue::Bs(vec![]), "BS", None),
    ];
    for (value, label, text) in values {
        assert_eq!(type_code_label(&value), label);
        assert_eq!(scalar_value_text(&value).as_deref(), text);
    }
}

#[test]
fn attributes_are_held_by_name() {
    let mut map = AttributeMap::new();
    assert_eq!(map.len(), 0);
    map.insert("b".to_string(), n("1"));
    map.insert("a".to_string(), n("2"));
    map.insert("b".to_string(), n("3"));
    map.insert("ab".to_string(), n("4"));
    assert_eq!(map.len(), 3);
    assert_eq!(map.get("b"), Some(&n("3")));
    assert_eq!(map.get("c"), None);
    let names: Vec<&str> = (0..map.len()).map(|i| map.name_at(i).as_str()).collect();
    assert_eq!(names, vec!["a", "ab", "b"]);
    assert_eq!(map.value_at(1), &n("4"));
    let copy = map.clone();
    assert_eq!(copy, map);
    map.insert("a".to_string(), AttributeValue::Null(true));
    assert_ne!(copy, map);
}
