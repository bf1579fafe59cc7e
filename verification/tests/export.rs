use dynamodb_violation_detector::domain::{AttributeMap, AttributeValue, Item, KeyAttribute, TypeCode};
use dynamodb_violation_detector::export::{
    native_value, CsvWriter, ExportError, ExportWriter, FanOutWriter, FormatWriter, NdjsonWriter,
};
use dynamodb_violation_detector::rules::{ItemViolations, Target, Violation, ViolationCategory};
use std::cell::RefCell;
use std::rc::Rc;

fn key(name: &str, value: AttributeValue) -> KeyAttribute {
    KeyAttribute { name: name.to_string(), value }
}

fn s(value: &str) -> AttributeValue {
    AttributeValue::S(value.to_string())
}

fn n(value: &str) -> AttributeValue {
    AttributeValue::N(value.to_string())
}

fn group(
    pk: KeyAttribute,
    sk: Option<KeyAttribute>,
    violations: Vec<Violation>,
) -> ItemViolations {
    ItemViolations {
        table: "users".to_string(),
        pk,
        sk,
        item: Item::default(),
        violations,
        detected_at: 1_750_000_000,
    }
}

fn to_csv(groups: &[ItemViolations]) -> String {
    let mut writer = CsvWriter::new(Vec::new()).unwrap();
    for g in groups {
        writer.write(g).unwrap();
    }
    String::from_utf8(writer.into_inner().unwrap()).unwrap()
}

fn to_ndjson(groups: &[ItemViolations]) -> String {
    let mut writer = NdjsonWriter::new(Vec::new());
    for g in groups {
        writer.write(g).unwrap();
    }
    String::from_utf8(writer.into_inner().unwrap()).unwrap()
}

fn type_mismatch() -> Violation {
    Violation {
        target: Target::Gsi("GSI1".to_string()),
        category: ViolationCategory::TypeMismatch,
        attribute: Some("email".to_string()),
        actual_value: Some("42".to_string()),
        actual_type: Some("N".to_string()),
        expected_type: Some(TypeCode::S),
        size_bytes: None,
    }
}

fn ttl_malformed() -> Violation {
    Violation {
        target: Target::Ttl,
        category: ViolationCategory::TtlMalformed,
        attribute: Some("expiresAt".to_string()),
        actual_value: Some("-1".to_string()),
        actual_type: Some("N".to_string()),
        expected_type: None,
        size_bytes: None,
    }
}

fn missing_key() -> Violation {
    Violation {
        target: Target::Gsi("GSI1".to_string()),
        category: ViolationCategory::MissingKey,
        attribute: Some("createdAt".to_string()),
        actual_value: None,
        actual_type: None,
        expected_type: Some(TypeCode::N),
        size_bytes: None,
    }
}

#[test]
fn header_only_when_no_violations() {
    let csv = to_csv(&[]);
    assert_eq!(
        csv,
        "table,target,category,pk,sk,pk_type,sk_type,attribute,actual_value,actual_type,expected_type,size_bytes,detected_at\n"
    );
}

#[test]
fn type_mismatch_row_is_byte_exact() {
    let g = group(key("userId", s("u-1")), None, vec![type_mismatch()]);

    let csv = to_csv(&[g]);
    let last = csv.lines().last().unwrap();
    assert_eq!(last, "users,GSI:GSI1,type_mismatch,u-1,,S,,email,42,N,S,,1750000000");
}

#[test]
fn multiple_violations_expand_to_multiple_rows() {
    let g = group(
        key("userId", s("u-1")),
        Some(key("createdAt", n("100"))),
        vec![type_mismatch(), ttl_malformed()],
    );

    let csv = to_csv(&[g]);
    let rows: Vec<&str> = csv.lines().skip(1).collect();
    assert_eq!(rows.len(), 2);
    assert_eq!(
        rows[0],
        "users,GSI:GSI1,type_mismatch,u-1,100,S,N,email,42,N,S,,1750000000"
    );
    assert_eq!(
        rows[1],
        "users,TTL,ttl_malformed,u-1,100,S,N,expiresAt,-1,N,,,1750000000"
    );
}

#[test]
fn size_violation_records_byte_count() {
    let g = group(
        key("pk", s("x")),
        None,
        vec![Violation {
            target: Target::Lsi("LSI1".to_string()),
            category: ViolationCategory::SizeExceeded,
            attribute: Some("pk".to_string()),
            actual_value: Some("x".to_string()),
            actual_type: Some("S".to_string()),
            expected_type: None,
            size_bytes: Some(2049),
        }],
    );

    let csv = to_csv(&[g]);
    let last = csv.lines().last().unwrap();
    assert_eq!(last, "users,LSI:LSI1,size_exceeded,x,,S,,pk,x,S,,2049,1750000000");
}

#[test]
fn binary_key_is_base64_encoded() {
    let g = group(key("pk", AttributeValue::B(vec![1, 2, 3, 4])), None, vec![missing_key()]);

    let csv = to_csv(&[g]);
    let last = csv.lines().last().unwrap();
    assert_eq!(last, "users,GSI:GSI1,missing_key,AQIDBA==,,B,,createdAt,,,N,,1750000000");
}

#[test]
fn value_needing_quotes_is_escaped() {
    let g = group(
        key("pk", s("a,b")),
        None,
        vec![Violation {
            target: Target::Gsi("GSI1".to_string()),
            category: ViolationCategory::TypeMismatch,
            attribute: Some("pk".to_string()),
            actual_value: Some("has \"quote\"".to_string()),
            actual_type: Some("S".to_string()),
            expected_type: Some(TypeCode::N),
            size_bytes: None,
        }],
    );

    let csv = to_csv(&[g]);
    let last = csv.lines().last().unwrap();
    assert_eq!(
        last,
        r#"users,GSI:GSI1,type_mismatch,"a,b",,S,,pk,"has ""quote""",S,N,,1750000000"#
    );
}

#[test]
fn close_flushes_via_trait_object() {
    let mut writer: Box<dyn ExportWriter> = Box::new(CsvWriter::new(Vec::new()).unwrap());
    let g = group(key("pk", s("u-1")), None, vec![]);
    writer.write(&g).unwrap();
    writer.close().unwrap();
}

#[test]
fn no_violations_produces_empty_output() {
    assert_eq!(to_ndjson(&[]), "");
}

#[test]
fn single_violation_record_is_byte_exact() {
    let g = group(
        key("userId", s("u-1")),
        Some(key("createdAt", n("100"))),
        vec![type_mismatch()],
    );

    assert_eq!(
        to_ndjson(&[g]),
        "{\"table\":\"users\",\"detected_at\":1750000000,\"pk\":{\"userId\":{\"S\":\"u-1\"}},\
         \"sk\":{\"createdAt\":{\"N\":\"100\"}},\"violations\":[{\"target\":\"GSI:GSI1\",\
         \"category\":\"type_mismatch\",\"attribute\":\"email\",\"actual_value\":\"42\",\
         \"actual_type\":\"N\",\"expected_type\":\"S\"}]}\n"
    );
}

#[test]
fn multiple_violations_stay_one_record() {
    let g = group(
        key("userId", s("u-1")),
        None,
        vec![
            Violation {
                target: Target::Lsi("LSI1".to_string()),
                category: ViolationCategory::MissingKey,
                attribute: Some("createdAt".to_string()),
                actual_value: None,
                actual_type: None,
                expected_type: Some(TypeCode::N),
                size_bytes: None,
            },
            Violation {
                target: Target::Ttl,
                category: ViolationCategory::SizeExceeded,
                attribute: Some("blob".to_string()),
                actual_value: None,
                actual_type: Some("B".to_string()),
                expected_type: None,
                size_bytes: Some(2049),
            },
        ],
    );

    let out = to_ndjson(&[g]);
    assert_eq!(out.lines().count(), 1);
    assert_eq!(
        out,
        "{\"table\":\"users\",\"detected_at\":1750000000,\"pk\":{\"userId\":{\"S\":\"u-1\"}},\
         \"violations\":[{\"target\":\"LSI:LSI1\",\"category\":\"missing_key\",\
         \"attribute\":\"createdAt\",\"expected_type\":\"N\"},{\"target\":\"TTL\",\
         \"category\":\"size_exceeded\",\"attribute\":\"blob\",\"actual_type\":\"B\",\
         \"size_bytes\":2049}]}\n"
    );
}

#[test]
fn binary_key_uses_native_base64_shape() {
    let g = group(key("pk", AttributeValue::B(vec![1, 2, 3, 4])), None, vec![missing_key()]);

    assert!(to_ndjson(&[g]).contains(r#""pk":{"pk":{"B":"AQIDBA=="}}"#));
}

#[test]
fn each_item_is_its_own_line() {
    let ttl_missing = || Violation {
        target: Target::Ttl,
        category: ViolationCategory::TtlMissing,
        attribute: Some("expiresAt".to_string()),
        actual_value: None,
        actual_type: None,
        expected_type: None,
        size_bytes: None,
    };
    let a = group(key("pk", s("a")), None, vec![ttl_missing()]);
    let b = group(key("pk", s("b")), None, vec![ttl_missing()]);

    assert_eq!(to_ndjson(&[a, b]).lines().count(), 2);
}

/// A writer whose output can be read while it is owned elsewhere.
struct Shared {
    format: FormatWriter,
    output: Rc<RefCell<Vec<u8>>>,
}

impl Shared {
    fn csv(output: Rc<RefCell<Vec<u8>>>) -> Shared {
        let mut format = FormatWriter::Csv(CsvWriter::new(Vec::new()).unwrap());
        output.borrow_mut().extend(format.take_output());
        Shared { format, output }
    }

    fn ndjson(output: Rc<RefCell<Vec<u8>>>) -> Shared {
        Shared { format: FormatWriter::Ndjson(NdjsonWriter::new(Vec::new())), output }
    }
}

impl ExportWriter for Shared {
    fn write(&mut self, group: &ItemViolations) -> Result<(), ExportError> {
        self.format.write(group)?;
        self.output.borrow_mut().extend(self.format.take_output());
        Ok(())
    }

    fn close(self: Box<Self>) -> Result<(), ExportError> {
        Ok(())
    }
}

fn contents(output: &Rc<RefCell<Vec<u8>>>) -> String {
    String::from_utf8(output.borrow().clone()).unwrap()
}

#[test]
fn fan_out_writes_both_formats_in_one_pass() {
    let csv_buf = Rc::new(RefCell::new(Vec::new()));
    let ndjson_buf = Rc::new(RefCell::new(Vec::new()));
    let mut fan: Box<dyn ExportWriter> = Box::new(FanOutWriter::new(vec![
        Shared::csv(csv_buf.clone()),
        Shared::ndjson(ndjson_buf.clone()),
    ]));

    let g = group(key("userId", s("u-1")), None, vec![type_mismatch(), ttl_malformed()]);
    fan.write(&g).unwrap();
    fan.close().unwrap();

    let csv = contents(&csv_buf);
    let ndjson = contents(&ndjson_buf);

    assert_eq!(csv.lines().skip(1).count(), 2, "one CSV row per violation");
    assert_eq!(ndjson.lines().count(), 1, "one NDJSON record per item");
    assert!(csv.contains("type_mismatch"));
    assert!(csv.contains("ttl_malformed"));
    assert!(ndjson.contains(r#""violations":["#));
}

#[test]
fn fan_out_over_no_writers_is_a_noop() {
    let mut fan: Box<dyn ExportWriter> = Box::new(FanOutWriter::<CsvWriter>::new(vec![]));
    let g = group(key("pk", s("u-1")), None, vec![]);
    fan.write(&g).unwrap();
    fan.close().unwrap();
}

/// A writer that fails and notes what was asked of it.
struct Failing {
    calls: Rc<RefCell<Vec<&'static str>>>,
    fails: bool,
}

impl ExportWriter for Failing {
    fn write(&mut self, _group: &ItemViolations) -> Result<(), ExportError> {
        self.calls.borrow_mut().push("write");
        if self.fails {
            Err(ExportError::from(std::io::Error::other("disk full")))
        } else {
            Ok(())
        }
    }

    fn close(self: Box<Self>) -> Result<(), ExportError> {
        self.calls.borrow_mut().push("close");
        if self.fails {
            Err(ExportError::from(std::io::Error::other("disk gone")))
        } else {
            Ok(())
        }
    }
}

#[test]
fn fan_out_stops_at_the_first_failure() {
    let calls = Rc::new(RefCell::new(Vec::new()));
    let writer = |fails: bool| Failing { calls: calls.clone(), fails };
    let mut fan = FanOutWriter::new(vec![writer(false), writer(true), writer(false)]);
    let g = group(key("pk", s("u-1")), None, vec![missing_key()]);
    let err = fan.write(&g).unwrap_err();
    assert_eq!(err.message(), "export I/O failure: disk full");
    assert_eq!(*calls.borrow(), vec!["write", "write"]);
    let err = Box::new(fan).close().unwrap_err();
    assert_eq!(err.message(), "export I/O failure: disk gone");
    assert_eq!(*calls.borrow(), vec!["write", "write", "close", "close"]);
}

#[test]
fn export_errors_name_their_format() {
    let json = serde_json::from_str::<serde_json::Value>("{").unwrap_err();
    let text = json.to_string();
    let err = ExportError::from(json);
    assert_eq!(err.message(), format!("NDJSON serialisation failure: {text}"));
    assert_eq!(err.describe("x"), "NDJSON serialisation failure: x");
    let csv = csv::Error::from(std::io::Error::other("broken"));
    let text = csv.to_string();
    assert_eq!(
        ExportError::from(csv).message(),
        format!("CSV serialisation failure: {text}")
    );
}

#[test]
fn csv_rows_read_back_field_by_field() {
    let odd = "line one\nline \"two\",\r\n tab\t; end";
    let mut violation = type_mismatch();
    violation.actual_value = Some(odd.to_string());
    violation.attribute = Some(String::new());
    let g = group(key("pk", s("ü,ñ")), Some(key("sk", s("\""))), vec![violation]);
    let text = to_csv(&[g]);
    let mut reader = csv::Reader::from_reader(text.as_bytes());
    let rows: Vec<csv::StringRecord> = reader.records().map(|r| r.unwrap()).collect();
    assert_eq!(rows.len(), 1);
    let row: Vec<&str> = rows[0].iter().collect();
    assert_eq!(
        row,
        vec![
            "users", "GSI:GSI1", "type_mismatch", "ü,ñ", "\"", "S", "S", "", odd, "N", "S", "",
            "1750000000"
        ]
    );
}

#[test]
fn non_scalar_keys_show_their_type_alone() {
    let mut g = group(key("pk", AttributeValue::Null(true)), None, vec![missing_key()]);
    g.detected_at = -5;
    let csv = to_csv(&[g]);
    assert_eq!(
        csv.lines().last().unwrap(),
        "users,GSI:GSI1,missing_key,,,NULL,,createdAt,,,N,,-5"
    );
}

#[test]
fn every_category_has_its_label() {
    let labels = [
        (ViolationCategory::TypeMismatch, "type_mismatch"),
        (ViolationCategory::SizeExceeded, "size_exceeded"),
        (ViolationCategory::MissingKey, "missing_key"),
        (ViolationCategory::TtlMissing, "ttl_missing"),
        (ViolationCategory::TtlWrongType, "ttl_wrong_type"),
        (ViolationCategory::TtlMsMagnitude, "ttl_ms_magnitude"),
        (ViolationCategory::TtlMalformed, "ttl_malformed"),
        (ViolationCategory::TtlPastFiveYears, "ttl_past_five_years"),
    ];
    for (category, label) in labels {
        assert_eq!(dynamodb_violation_detector::export::category_label(category), label);
    }
}

fn map(pairs: Vec<(&str, AttributeValue)>) -> AttributeMap {
    let mut map = AttributeMap::new();
    for (name, value) in pairs {
        map.insert(name.to_string(), value);
    }
    map
}

#[test]
fn native_values_of_every_type() {
    let value = AttributeValue::M(map(vec![
        ("z", AttributeValue::Bool(true)),
        ("bool", AttributeValue::Bool(false)),
        ("null", AttributeValue::Null(false)),
        ("list", AttributeValue::L(vec![s("a"), n("1"), AttributeValue::L(vec![])])),
        ("map", AttributeValue::M(map(vec![("k", AttributeValue::B(vec![255]))]))),
        ("ss", AttributeValue::Ss(vec!["x".to_string(), "y\"".to_string()])),
        ("ns", AttributeValue::Ns(vec!["1".to_string(), "2".to_string()])),
        ("bs", AttributeValue::Bs(vec![vec![0, 0], vec![], vec![1, 2, 3]])),
    ]));
    assert_eq!(
        native_value(&value).unwrap(),
        "{\"M\":{\"bool\":{\"BOOL\":false},\"bs\":{\"BS\":[\"AAA=\",\"\",\"AQID\"]},\
         \"list\":{\"L\":[{\"S\":\"a\"},{\"N\":\"1\"},{\"L\":[]}]},\
         \"map\":{\"M\":{\"k\":{\"B\":\"/w==\"}}},\"ns\":{\"NS\":[\"1\",\"2\"]},\
         \"null\":{\"NULL\":true},\"ss\":{\"SS\":[\"x\",\"y\\\"\"]},\"z\":{\"BOOL\":true}}}"
    );
}

#[test]
fn strings_read_back_from_json() {
    let mut odd = String::new();
    for code in 0..128u32 {
        odd.push(char::from_u32(code).unwrap());
    }
    odd.push_str("\u{7f}\u{80}\u{2028}é漢😀");
    let text = native_value(&AttributeValue::S(odd.clone())).unwrap();
    assert!(!text.contains('\n'));
    let back: serde_json::Value = serde_json::from_str(&text).unwrap();
    assert_eq!(back["S"].as_str().unwrap(), odd);
    assert_eq!(
        text,
        format!("{{\"S\":{}}}", serde_json::to_string(&odd).unwrap())
    );
}

#[test]
fn records_are_one_line_whatever_they_hold() {
    let mut violation = type_mismatch();
    violation.actual_value = Some("a\nb".to_string());
    let mut g = group(key("p\nk", s("\n")), Some(key("sk", s("\r\n"))), vec![violation]);
    g.table = "t\n".to_string();
    let text = to_ndjson(&[g]);
    assert_eq!(text.matches('\n').count(), 1);
    assert!(text.ends_with('\n'));
    let back: serde_json::Value = serde_json::from_str(text.trim_end()).unwrap();
    assert_eq!(back["table"].as_str(), Some("t\n"));
    assert_eq!(back["pk"]["p\nk"]["S"].as_str(), Some("\n"));
    assert_eq!(back["violations"][0]["actual_value"].as_str(), Some("a\nb"));
}

#[test]
fn output_is_taken_once() {
    let mut csv = CsvWriter::new(b"before;".to_vec()).unwrap();
    let head = csv.take_output();
    assert!(head.starts_with(b"before;table,target,"));
    assert!(csv.take_output().is_empty());
    csv.write(&group(key("pk", s("x")), None, vec![missing_key()])).unwrap();
    assert!(csv.take_output().starts_with(b"users,GSI:GSI1,missing_key,x"));
    let mut ndjson = NdjsonWriter::new(Vec::new());
    ndjson.write(&group(key("pk", s("x")), None, vec![])).unwrap();
    assert_eq!(
        ndjson.take_output(),
        b"{\"table\":\"users\",\"detected_at\":1750000000,\"pk\":{\"pk\":{\"S\":\"x\"}},\"violations\":[]}\n".to_vec()
    );
    assert!(ndjson.take_output().is_empty());
}
