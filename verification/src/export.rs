//! Export writers: CSV and NDJSON output, group by group.
//!
//! Writers take [`ItemViolations`] groups and append them to their output as they
//! arrive, each group whole, so that whatever has been handed on to disk after a
//! group is a well-formed file.

use vstd::prelude::*;
use vstd::string::StringExecFns;
use crate::domain::{AttributeValue, KeyAttribute, TypeCode, ValueView};
use crate::encode;
use crate::rules;
use crate::rules::{ItemViolations, Target, TargetView, Violation, ViolationCategory, ViolationView};
use crate::text;

verus! {

/// The error of `std::io`.
#[verifier::external_type_specification]
#[verifier::external_body]
pub struct ExIoError(std::io::Error);

/// A failure while serialising or flushing export output.
#[derive(Debug)]
pub enum ExportError {
    Io(std::io::Error),
    Csv(csv::Error),
    Json(serde_json::Error),
}

impl From<std::io::Error> for ExportError {
    fn from(e: std::io::Error) -> (r: Self) {
        ExportError::Io(e)
    }
}

impl vstd::std_specs::convert::FromSpecImpl<std::io::Error> for ExportError {
    open spec fn obeys_from_spec() -> bool {
        true
    }

    open spec fn from_spec(e: std::io::Error) -> ExportError {
        ExportError::Io(e)
    }
}

impl From<csv::Error> for ExportError {
    fn from(e: csv::Error) -> (r: Self) {
        ExportError::Csv(e)
    }
}

impl vstd::std_specs::convert::FromSpecImpl<csv::Error> for ExportError {
    open spec fn obeys_from_spec() -> bool {
        true
    }

    open spec fn from_spec(e: csv::Error) -> ExportError {
        ExportError::Csv(e)
    }
}

impl From<serde_json::Error> for ExportError {
    fn from(e: serde_json::Error) -> (r: Self) {
        ExportError::Json(e)
    }
}

impl vstd::std_specs::convert::FromSpecImpl<serde_json::Error> for ExportError {
    open spec fn obeys_from_spec() -> bool {
        true
    }

    open spec fn from_spec(e: serde_json::Error) -> ExportError {
        ExportError::Json(e)
    }
}

/// `std::io::Error` as text; nothing is promised of the wording.
#[verifier::external_body]
fn io_cause(e: &std::io::Error) -> String {
    e.to_string()
}

/// `csv::Error` as text; nothing is promised of the wording.
#[verifier::external_body]
fn csv_cause(e: &csv::Error) -> String {
    e.to_string()
}

/// `serde_json::Error` as text; nothing is promised of the wording.
#[verifier::external_body]
fn json_cause(e: &serde_json::Error) -> String {
    e.to_string()
}

/// `text` is what the outside error in `error` may say of itself.
spec fn words_cause(error: ExportError, text: String) -> bool {
    match error {
        ExportError::Io(e) => call_ensures(io_cause, (&e,), text),
        ExportError::Csv(e) => call_ensures(csv_cause, (&e,), text),
        ExportError::Json(e) => call_ensures(json_cause, (&e,), text),
    }
}

/// `cause` is what the outside error in `error` says of itself.
pub closed spec fn gives_cause(error: ExportError, cause: Seq<char>) -> bool {
    exists|text: String| #[trigger] words_cause(error, text) && text@ == cause
}

/// The text that describes an export error with the given cause to the user.
pub open spec fn error_text(error: ExportError, cause: Seq<char>) -> Seq<char> {
    match error {
        ExportError::Io(_) => "export I/O failure: "@ + cause,
        ExportError::Csv(_) => "CSV serialisation failure: "@ + cause,
        ExportError::Json(_) => "NDJSON serialisation failure: "@ + cause,
    }
}

impl ExportError {
    /// Describes the error to the user.
    pub fn message(&self) -> (r: String)
        ensures
            exists|cause: Seq<char>|
                gives_cause(*self, cause) && r@ == #[trigger] error_text(*self, cause),
    {
        let cause = match self {
            ExportError::Io(e) => io_cause(e),
            ExportError::Csv(e) => csv_cause(e),
            ExportError::Json(e) => json_cause(e),
        };
        assert(words_cause(*self, cause));
        assert(gives_cause(*self, cause@));
        self.describe(cause.as_str())
    }

    /// Describes the error with the given cause to the user.
    pub fn describe(&self, cause: &str) -> (r: String)
        ensures
            r@ == error_text(*self, cause@),
    {
        let mut out = match self {
            ExportError::Io(_) => "export I/O failure: ".to_owned(),
            ExportError::Csv(_) => "CSV serialisation failure: ".to_owned(),
            ExportError::Json(_) => "NDJSON serialisation failure: ".to_owned(),
        };
        out.append(cause);
        out
    }
}

/// The format of an export file.
#[derive(Debug, Clone, Copy, PartialEq, Eq, Structural)]
pub enum ExportFormat {
    Csv,
    Ndjson,
}

/// A sink for violation groups.
///
/// One [`write`](ExportWriter::write) call per item; a single item with multiple
/// violations expands to multiple output records for CSV.
/// [`close`](ExportWriter::close) consumes the writer and surfaces what could not be
/// reported otherwise.
pub trait ExportWriter {
    /// The bytes written so far, output by output; none for a writer that says
    /// nothing of its output.
    open spec fn outputs(&self) -> Seq<Seq<u8>> {
        Seq::empty()
    }

    /// The bytes once `group` has been written too.
    open spec fn after(&self, group: ItemViolations) -> Seq<Seq<u8>> {
        Seq::empty()
    }

    /// The formats of the outputs; none for a writer that says nothing of its output.
    open spec fn formats(&self) -> Seq<ExportFormat> {
        Seq::empty()
    }

    /// The writer is sure to take `group`.
    open spec fn accepts(&self, group: ItemViolations) -> bool {
        false
    }

    /// The writer is sure to close.
    open spec fn closes(&self) -> bool {
        false
    }

    fn write(&mut self, group: &ItemViolations) -> (r: Result<(), ExportError>)
        ensures
            r is Ok ==> final(self).outputs() == old(self).after(*group),
            final(self).formats() == old(self).formats(),
            old(self).accepts(*group) ==> r is Ok,
    ;

    fn close(self: Box<Self>) -> (r: Result<(), ExportError>)
        ensures
            self.closes() ==> r is Ok,
    ;
}

/// The target as the exports name it.
pub open spec fn target_text(target: TargetView) -> Seq<char> {
    match target {
        TargetView::Gsi(name) => "GSI:"@ + name,
        TargetView::Lsi(name) => "LSI:"@ + name,
        TargetView::Ttl => "TTL"@,
    }
}

/// The category as the exports name it.
pub open spec fn category_text(category: ViolationCategory) -> Seq<char> {
    match category {
        ViolationCategory::TypeMismatch => "type_mismatch"@,
        ViolationCategory::SizeExceeded => "size_exceeded"@,
        ViolationCategory::MissingKey => "missing_key"@,
        ViolationCategory::TtlMissing => "ttl_missing"@,
        ViolationCategory::TtlWrongType => "ttl_wrong_type"@,
        ViolationCategory::TtlMsMagnitude => "ttl_ms_magnitude"@,
        ViolationCategory::TtlMalformed => "ttl_malformed"@,
        ViolationCategory::TtlPastFiveYears => "ttl_past_five_years"@,
    }
}

/// The type code as the exports name it.
pub open spec fn code_text(code: TypeCode) -> Seq<char> {
    match code {
        TypeCode::S => "S"@,
        TypeCode::N => "N"@,
        TypeCode::B => "B"@,
    }
}

/// The text, or nothing.
pub open spec fn or_empty(s: Option<Seq<char>>) -> Seq<char> {
    match s {
        Some(t) => t,
        None => Seq::empty(),
    }
}

/// The target as the exports name it.
pub fn target_label(target: &Target) -> (r: String)
    ensures
        r@ == target_text(target@),
{
    match target {
        Target::Gsi(name) => {
            let mut out = "GSI:".to_owned();
            out.append(name.as_str());
            out
        },
        Target::Lsi(name) => {
            let mut out = "LSI:".to_owned();
            out.append(name.as_str());
            out
        },
        Target::Ttl => "TTL".to_owned(),
    }
}

/// The category as the exports name it.
pub fn category_label(category: ViolationCategory) -> (r: &'static str)
    ensures
        r@ == category_text(category),
{
    match category {
        ViolationCategory::TypeMismatch => "type_mismatch",
        ViolationCategory::SizeExceeded => "size_exceeded",
        ViolationCategory::MissingKey => "missing_key",
        ViolationCategory::TtlMissing => "ttl_missing",
        ViolationCategory::TtlWrongType => "ttl_wrong_type",
        ViolationCategory::TtlMsMagnitude => "ttl_ms_magnitude",
        ViolationCategory::TtlMalformed => "ttl_malformed",
        ViolationCategory::TtlPastFiveYears => "ttl_past_five_years",
    }
}

/// The expected type of a violation, if it has one.
pub open spec fn expected_text(violation: ViolationView) -> Option<Seq<char>> {
    match violation.expected_type {
        Some(code) => Some(code_text(code)),
        None => None,
    }
}

fn expected_type_code(violation: &Violation) -> (r: Option<&'static str>)
    ensures
        match r {
            Some(code) => expected_text(violation@) == Some(code@),
            None => expected_text(violation@) is None,
        },
{
    match violation.expected_type {
        Some(TypeCode::S) => Some("S"),
        Some(TypeCode::N) => Some("N"),
        Some(TypeCode::B) => Some("B"),
        None => None,
    }
}

/// The size of a violation as a numeral, if it has one.
pub open spec fn size_text(violation: ViolationView) -> Option<Seq<char>> {
    match violation.size_bytes {
        Some(n) => Some(text::decimal(n)),
        None => None,
    }
}

fn size_bytes_label(violation: &Violation) -> (r: String)
    ensures
        r@ == or_empty(size_text(violation@)),
{
    match violation.size_bytes {
        Some(n) => text::decimal_text(n as u128),
        None => {
            let r = String::new();
            assert(r@ =~= Seq::empty());
            r
        },
    }
}

fn text_or_empty(s: &Option<String>) -> (r: String)
    ensures
        r@ == or_empty(text::opt_view(*s)),
{
    match s {
        Some(t) => t.clone(),
        None => {
            let r = String::new();
            assert(r@ =~= Seq::empty());
            r
        },
    }
}

/// The columns of the CSV output.
pub open spec fn csv_headers() -> Seq<Seq<char>> {
    seq![
        "table"@,
        "target"@,
        "category"@,
        "pk"@,
        "sk"@,
        "pk_type"@,
        "sk_type"@,
        "attribute"@,
        "actual_value"@,
        "actual_type"@,
        "expected_type"@,
        "size_bytes"@,
        "detected_at"@,
    ]
}

/// The CSV row of one violation of the item of `group`. A scalar key value stands as
/// text, with binary in base64, and any other as its type alone.
pub open spec fn csv_row(group: ItemViolations, violation: ViolationView) -> Seq<Seq<char>> {
    seq![
        group.table@,
        target_text(violation.target),
        category_text(violation.category),
        or_empty(rules::scalar_text(group.pk.value@)),
        match group.sk {
            Some(sk) => or_empty(rules::scalar_text(sk.value@)),
            None => Seq::empty(),
        },
        rules::type_label(group.pk.value@),
        match group.sk {
            Some(sk) => rules::type_label(sk.value@),
            None => Seq::empty(),
        },
        or_empty(violation.attribute),
        or_empty(violation.actual_value),
        or_empty(violation.actual_type),
        or_empty(expected_text(violation)),
        or_empty(size_text(violation)),
        text::signed_decimal(group.detected_at as int),
    ]
}

/// The CSV records of a group: one per violation, in order.
pub open spec fn csv_rows(group: ItemViolations) -> Seq<char> {
    rules::views(group.violations@).flat_map(
        |violation: ViolationView| encode::csv_record(csv_row(group, violation)),
    )
}

/// One CSV row per violation. The item's keys are repeated across every row that
/// belongs to the same item; binary key values are in base64.
#[derive(Debug)]
pub struct CsvWriter {
    inner: Vec<u8>,
}

/// Appends the UTF-8 bytes of `s` to `bytes`.
fn append_text(bytes: &mut Vec<u8>, s: &str)
    ensures
        final(bytes)@ == old(bytes)@ + vstd::utf8::encode_utf8(s@),
{
    let encoded = s.as_bytes();
    let ghost before = bytes@;
    let mut i: usize = 0;
    while i < encoded.len()
        invariant
            i <= encoded@.len(),
            bytes@ =~= before + encoded@.take(i as int),
        decreases encoded@.len() - i,
    {
        bytes.push(encoded[i]);
        i += 1;
    }
    assert(encoded@.take(i as int) =~= encoded@);
}

fn csv_header_fields() -> (r: Vec<String>)
    ensures
        text::strings(r@) == csv_headers(),
{
    let mut r: Vec<String> = Vec::new();
    r.push("table".to_owned());
    r.push("target".to_owned());
    r.push("category".to_owned());
    r.push("pk".to_owned());
    r.push("sk".to_owned());
    r.push("pk_type".to_owned());
    r.push("sk_type".to_owned());
    r.push("attribute".to_owned());
    r.push("actual_value".to_owned());
    r.push("actual_type".to_owned());
    r.push("expected_type".to_owned());
    r.push("size_bytes".to_owned());
    r.push("detected_at".to_owned());
    assert(text::strings(r@) =~= csv_headers());
    r
}

/// A key attribute as its CSV value and type code. Binary is base64.
fn render_key(key: &KeyAttribute) -> (r: (String, &'static str))
    ensures
        r.0@ == or_empty(rules::scalar_text(key.value@)),
        r.1@ == rules::type_label(key.value@),
{
    (
        text_or_empty(&rules::scalar_value_text(&key.value)),
        rules::type_code_label(&key.value),
    )
}

fn csv_row_fields(group: &ItemViolations, violation: &Violation) -> (r: Vec<String>)
    ensures
        text::strings(r@) == csv_row(*group, violation@),
{
    let (pk_value, pk_type) = render_key(&group.pk);
    let (sk_value, sk_type) = match &group.sk {
        Some(sk) => render_key(sk),
        None => {
            proof {
                reveal_strlit("");
            }
            (text_or_empty(&None), "")
        },
    };
    assert(group.sk is None ==> sk_type@ =~= Seq::empty());
    let mut r: Vec<String> = Vec::new();
    r.push(group.table.clone());
    r.push(target_label(&violation.target));
    r.push(category_label(violation.category).to_owned());
    r.push(pk_value);
    r.push(sk_value);
    r.push(pk_type.to_owned());
    r.push(sk_type.to_owned());
    r.push(text_or_empty(&violation.attribute));
    r.push(text_or_empty(&violation.actual_value));
    r.push(text_or_empty(&violation.actual_type));
    r.push(
        match expected_type_code(violation) {
            Some(code) => code.to_owned(),
            None => text_or_empty(&None),
        },
    );
    r.push(size_bytes_label(violation));
    r.push(text::signed_decimal_text(group.detected_at));
    assert(text::strings(r@) =~= csv_row(*group, violation@));
    r
}

impl CsvWriter {
    /// The bytes written so far.
    pub closed spec fn bytes(&self) -> Seq<u8> {
        self.inner@
    }

    /// A writer that appends to `inner`, with the header row written at once, so that
    /// a scan without violations still produces a well-formed file.
    pub fn new(inner: Vec<u8>) -> (r: Result<Self, ExportError>)
        ensures
            r matches Ok(writer) && writer.bytes() == inner@ + vstd::utf8::encode_utf8(
                encode::csv_record(csv_headers()),
            ),
    {
        let fields = csv_header_fields();
        assert(text::strings(fields@).len() == 13);
        match encode::csv_record_text(&fields) {
            Ok(header) => {
                let mut inner = inner;
                append_text(&mut inner, header.as_str());
                Ok(CsvWriter { inner })
            },
            Err(e) => Err(ExportError::from(e)),
        }
    }

    /// Reclaims the bytes.
    pub fn into_inner(self) -> (r: Result<Vec<u8>, ExportError>)
        ensures
            r matches Ok(bytes) && bytes@ == self.bytes(),
    {
        Ok(self.inner)
    }

    /// Hands over the bytes written since the last call, for a file that is appended
    /// to.
    pub fn take_output(&mut self) -> (r: Vec<u8>)
        ensures
            r@ == old(self).bytes(),
            final(self).bytes() == Seq::<u8>::empty(),
    {
        let mut bytes: Vec<u8> = Vec::new();
        std::mem::swap(&mut bytes, &mut self.inner);
        assert(self.inner@ =~= Seq::empty());
        bytes
    }
}

impl ExportWriter for CsvWriter {
    open spec fn outputs(&self) -> Seq<Seq<u8>> {
        seq![self.bytes()]
    }

    open spec fn after(&self, group: ItemViolations) -> Seq<Seq<u8>> {
        seq![self.bytes() + vstd::utf8::encode_utf8(csv_rows(group))]
    }

    open spec fn formats(&self) -> Seq<ExportFormat> {
        seq![ExportFormat::Csv]
    }

    open spec fn accepts(&self, group: ItemViolations) -> bool {
        true
    }

    open spec fn closes(&self) -> bool {
        true
    }

    fn write(&mut self, group: &ItemViolations) -> (r: Result<(), ExportError>) {
        let ghost all = rules::views(group.violations@);
        let ghost record = |violation: ViolationView|
            encode::csv_record(csv_row(*group, violation));
        let mut rows = String::new();
        assert(all.take(0).flat_map(record) =~= Seq::empty());
        assert(rows@ =~= all.take(0).flat_map(record));
        let mut i: usize = 0;
        while i < group.violations.len()
            invariant
                i <= group.violations@.len(),
                all == rules::views(group.violations@),
                record == (|violation: ViolationView|
                    encode::csv_record(csv_row(*group, violation))),
                rows@ == all.take(i as int).flat_map(record),
            decreases group.violations@.len() - i,
        {
            let fields = csv_row_fields(group, &group.violations[i]);
            assert(text::strings(fields@).len() == 13);
            match encode::csv_record_text(&fields) {
                Ok(row) => rows.append(row.as_str()),
                Err(e) => return Err(ExportError::from(e)),
            }
            proof {
                all.lemma_flat_map_take_append(record, i as int);
            }
            i += 1;
        }
        assert(all.take(i as int) =~= all);
        append_text(&mut self.inner, rows.as_str());
        assert(self.outputs() =~= old(self).after(*group));
        Ok(())
    }

    fn close(self: Box<Self>) -> (r: Result<(), ExportError>) {
        Ok(())
    }
}

/// The parts, separated by commas.
pub open spec fn comma_separated(parts: Seq<Seq<char>>) -> Seq<char>
    decreases parts.len(),
{
    if parts.len() == 0 {
        Seq::empty()
    } else if parts.len() == 1 {
        parts[0]
    } else {
        comma_separated(parts.drop_last()) + ","@ + parts.last()
    }
}

/// A member of a JSON object.
pub open spec fn json_member(name: Seq<char>, value: Seq<char>) -> Seq<char> {
    encode::json_string(name) + ":"@ + value
}

/// A JSON object of the given members.
pub open spec fn json_object(members: Seq<Seq<char>>) -> Seq<char> {
    "{"@ + comma_separated(members) + "}"@
}

/// A JSON array of the given elements.
pub open spec fn json_array(elements: Seq<Seq<char>>) -> Seq<char> {
    "["@ + comma_separated(elements) + "]"@
}

/// The members of a native map or the elements of a native list or set.
pub open spec fn native_parts(value: ValueView) -> Seq<Seq<char>>
    decreases value, 0int,
{
    match value {
        ValueView::M(entries) => Seq::new(
            entries.len(),
            |i: int|
                if 0 <= i < entries.len() {
                    json_member(
                        entries[i].0,
                        json_object(
                            seq![
                                json_member(
                                    rules::type_label(entries[i].1),
                                    native_body(entries[i].1),
                                ),
                            ],
                        ),
                    )
                } else {
                    Seq::empty()
                },
        ),
        ValueView::L(elements) => Seq::new(
            elements.len(),
            |i: int|
                if 0 <= i < elements.len() {
                    json_object(
                        seq![
                            json_member(rules::type_label(elements[i]), native_body(elements[i])),
                        ],
                    )
                } else {
                    Seq::empty()
                },
        ),
        ValueView::Ss(texts) => texts.map_values(|s: Seq<char>| encode::json_string(s)),
        ValueView::Ns(texts) => texts.map_values(|s: Seq<char>| encode::json_string(s)),
        ValueView::Bs(blobs) => blobs.map_values(
            |b: Seq<u8>| encode::json_string(encode::base64_of(b)),
        ),
        _ => Seq::empty(),
    }
}

/// What a native value holds under its type code.
pub open spec fn native_body(value: ValueView) -> Seq<char>
    decreases value, 1int,
{
    match value {
        ValueView::S(s) => encode::json_string(s),
        ValueView::N(n) => encode::json_string(n),
        ValueView::B(b) => encode::json_string(encode::base64_of(b)),
        ValueView::Bool(b) => if b {
            "true"@
        } else {
            "false"@
        },
        ValueView::Null(_) => "true"@,
        ValueView::M(_) => json_object(native_parts(value)),
        _ => json_array(native_parts(value)),
    }
}

/// An attribute value in native DynamoDB JSON shape: an object with the type code as
/// its one member, recursively, with binary in base64.
pub open spec fn native_json(value: ValueView) -> Seq<char> {
    json_object(seq![json_member(rules::type_label(value), native_body(value))])
}

/// A key attribute as an object with its name as its one member.
pub open spec fn key_json(key: KeyAttribute) -> Seq<char> {
    json_object(seq![json_member(key.name@, native_json(key.value@))])
}

/// A member with a string for its value, if there is one.
pub open spec fn optional_member(name: Seq<char>, value: Option<Seq<char>>) -> Seq<Seq<char>> {
    match value {
        Some(s) => seq![json_member(name, encode::json_string(s))],
        None => Seq::empty(),
    }
}

/// A violation as a JSON object. What a violation lacks is left out.
pub open spec fn violation_json(violation: ViolationView) -> Seq<char> {
    json_object(
        seq![
            json_member("target"@, encode::json_string(target_text(violation.target))),
            json_member("category"@, encode::json_string(category_text(violation.category))),
        ] + optional_member("attribute"@, violation.attribute) + optional_member(
            "actual_value"@,
            violation.actual_value,
        ) + optional_member("actual_type"@, violation.actual_type) + optional_member(
            "expected_type"@,
            expected_text(violation),
        ) + (match size_text(violation) {
            Some(n) => seq![json_member("size_bytes"@, n)],
            None => Seq::empty(),
        }),
    )
}

/// A group as a JSON object on a line of its own.
pub open spec fn ndjson_line(group: ItemViolations) -> Seq<char> {
    json_object(
        seq![
            json_member("table"@, encode::json_string(group.table@)),
            json_member("detected_at"@, text::signed_decimal(group.detected_at as int)),
            json_member("pk"@, key_json(group.pk)),
        ] + (match group.sk {
            Some(sk) => seq![json_member("sk"@, key_json(sk))],
            None => Seq::empty(),
        }) + seq![
            json_member(
                "violations"@,
                json_array(
                    rules::views(group.violations@).map_values(
                        |violation: ViolationView| violation_json(violation),
                    ),
                ),
            ),
        ],
    ) + "\n"@
}

/// The part with a comma before it, unless it is the first.
proof fn lemma_comma_separated_push(parts: Seq<Seq<char>>, part: Seq<char>)
    ensures
        comma_separated(parts.push(part)) == (if parts.len() == 0 {
            part
        } else {
            comma_separated(parts) + ","@ + part
        }),
{
    assert(parts.push(part).drop_last() =~= parts);
}

/// Collects the parts of a JSON object or array.
struct JsonList {
    body: String,
    empty: bool,
}

impl JsonList {
    /// The list holds these parts.
    spec fn holds(self, parts: Seq<Seq<char>>) -> bool {
        self.body@ == comma_separated(parts) && self.empty == (parts.len() == 0)
    }

    fn new() -> (r: Self)
        ensures
            r.holds(Seq::empty()),
    {
        let body = String::new();
        assert(body@ =~= comma_separated(Seq::empty()));
        JsonList { body, empty: true }
    }

    fn push(&mut self, part: &str, Ghost(parts): Ghost<Seq<Seq<char>>>)
        requires
            old(self).holds(parts),
        ensures
            final(self).holds(parts.push(part@)),
    {
        proof {
            lemma_comma_separated_push(parts, part@);
        }
        if !self.empty {
            self.body.append(",");
        }
        self.body.append(part);
        self.empty = false;
        assert(self.body@ =~= comma_separated(parts.push(part@)));
    }

    fn into_object(self, Ghost(parts): Ghost<Seq<Seq<char>>>) -> (r: String)
        requires
            self.holds(parts),
        ensures
            r@ == json_object(parts),
    {
        let mut r = "{".to_owned();
        r.append(self.body.as_str());
        r.append("}");
        r
    }

    fn into_array(self, Ghost(parts): Ghost<Seq<Seq<char>>>) -> (r: String)
        requires
            self.holds(parts),
        ensures
            r@ == json_array(parts),
    {
        let mut r = "[".to_owned();
        r.append(self.body.as_str());
        r.append("]");
        r
    }
}

fn json_text(s: &str) -> (r: Result<String, ExportError>)
    ensures
        r is Ok,
        r->Ok_0@ == encode::json_string(s@),
{
    match encode::json_string_text(s) {
        Ok(r) => Ok(r),
        Err(e) => Err(ExportError::from(e)),
    }
}

fn member_text(name: &str, value: &str) -> (r: Result<String, ExportError>)
    ensures
        r is Ok,
        r->Ok_0@ == json_member(name@, value@),
{
    match json_text(name) {
        Ok(mut r) => {
            r.append(":");
            r.append(value);
            Ok(r)
        },
        Err(e) => Err(e),
    }
}

fn single_member_object(name: &str, value: &str) -> (r: Result<String, ExportError>)
    ensures
        r is Ok,
        r->Ok_0@ == json_object(seq![json_member(name@, value@)]),
{
    match member_text(name, value) {
        Ok(member) => {
            let ghost parts = seq![member@];
            let mut list = JsonList::new();
            list.push(member.as_str(), Ghost(Seq::empty()));
            assert(Seq::<Seq<char>>::empty().push(member@) =~= parts);
            Ok(list.into_object(Ghost(parts)))
        },
        Err(e) => Err(e),
    }
}

fn string_array(texts: &Vec<String>) -> (r: Result<String, ExportError>)
    ensures
        r is Ok,
        r->Ok_0@ == json_array(
            text::strings(texts@).map_values(|s: Seq<char>| encode::json_string(s)),
        ),
{
    let ghost parts = text::strings(texts@).map_values(|s: Seq<char>| encode::json_string(s));
    let mut list = JsonList::new();
    assert(parts.take(0) =~= Seq::empty());
    let mut i: usize = 0;
    while i < texts.len()
        invariant
            i <= texts@.len(),
            parts == text::strings(texts@).map_values(|s: Seq<char>| encode::json_string(s)),
            list.holds(parts.take(i as int)),
        decreases texts@.len() - i,
    {
        match json_text(texts[i].as_str()) {
            Ok(part) => {
                list.push(part.as_str(), Ghost(parts.take(i as int)));
                assert(parts.take(i as int).push(part@) =~= parts.take(i + 1));
            },
            Err(e) => return Err(e),
        }
        i += 1;
    }
    assert(parts.take(i as int) =~= parts);
    Ok(list.into_array(Ghost(parts)))
}

fn blob_array(blobs: &Vec<Vec<u8>>) -> (r: Result<String, ExportError>)
    ensures
        r is Ok,
        r->Ok_0@ == json_array(
            blobs@.map_values(|b: Vec<u8>| b@).map_values(
                |b: Seq<u8>| encode::json_string(encode::base64_of(b)),
            ),
        ),
{
    let ghost parts = blobs@.map_values(|b: Vec<u8>| b@).map_values(
        |b: Seq<u8>| encode::json_string(encode::base64_of(b)),
    );
    let mut list = JsonList::new();
    assert(parts.take(0) =~= Seq::empty());
    let mut i: usize = 0;
    while i < blobs.len()
        invariant
            i <= blobs@.len(),
            parts == blobs@.map_values(|b: Vec<u8>| b@).map_values(
                |b: Seq<u8>| encode::json_string(encode::base64_of(b)),
            ),
            list.holds(parts.take(i as int)),
        decreases blobs@.len() - i,
    {
        match json_text(encode::base64_text(&blobs[i]).as_str()) {
            Ok(part) => {
                list.push(part.as_str(), Ghost(parts.take(i as int)));
                assert(parts.take(i as int).push(part@) =~= parts.take(i + 1));
            },
            Err(e) => return Err(e),
        }
        i += 1;
    }
    assert(parts.take(i as int) =~= parts);
    Ok(list.into_array(Ghost(parts)))
}

/// What a native value holds under its type code.
fn native_body_text(value: &AttributeValue) -> (r: Result<String, ExportError>)
    ensures
        r is Ok,
        r->Ok_0@ == native_body(value@),
    decreases value, 0int,
{
    match value {
        AttributeValue::S(s) => json_text(s.as_str()),
        AttributeValue::N(n) => json_text(n.as_str()),
        AttributeValue::B(b) => json_text(encode::base64_text(b).as_str()),
        AttributeValue::Bool(b) => Ok(
            if *b {
                "true".to_owned()
            } else {
                "false".to_owned()
            },
        ),
        AttributeValue::Null(_) => Ok("true".to_owned()),
        AttributeValue::M(map) => {
            let ghost entries = map.entries_view();
            let ghost parts = Seq::new(
                entries.len(),
                |i: int| json_member(entries[i].0, native_json(entries[i].1)),
            );
            let mut list = JsonList::new();
            assert(parts.take(0) =~= Seq::empty());
            let count = map.len();
            let mut i: usize = 0;
            while i < count
                invariant
                    i <= count == entries.len(),
                    *value == AttributeValue::M(*map),
                    entries == map.entries_view(),
                    parts == Seq::new(
                        entries.len(),
                        |i: int| json_member(entries[i].0, native_json(entries[i].1)),
                    ),
                    list.holds(parts.take(i as int)),
                decreases count - i,
            {
                let entry = map.value_at(i);
                assert(decreases_to!(*value => value->M_0));
                let part = match native_value(entry) {
                    Ok(native) => match member_text(map.name_at(i).as_str(), native.as_str()) {
                        Ok(part) => part,
                        Err(e) => return Err(e),
                    },
                    Err(e) => return Err(e),
                };
                list.push(part.as_str(), Ghost(parts.take(i as int)));
                assert(parts.take(i as int).push(part@) =~= parts.take(i + 1));
                i += 1;
            }
            assert(parts.take(i as int) =~= parts);
            assert(parts =~= native_parts(value@));
            Ok(list.into_object(Ghost(parts)))
        },
        AttributeValue::L(elements) => {
            let ghost views = value@->L_0;
            let ghost parts = Seq::new(views.len(), |i: int| native_json(views[i]));
            let mut list = JsonList::new();
            assert(parts.take(0) =~= Seq::empty());
            let mut i: usize = 0;
            while i < elements.len()
                invariant
                    i <= elements@.len() == views.len(),
                    *value == AttributeValue::L(*elements),
                    views == value@->L_0,
                    parts == Seq::new(views.len(), |i: int| native_json(views[i])),
                    list.holds(parts.take(i as int)),
                decreases elements@.len() - i,
            {
                assert(decreases_to!(*value => value->L_0));
                assert(decreases_to!(value->L_0 => value->L_0[i as int]));
                assert(views[i as int] == elements@[i as int]@);
                match native_value(&elements[i]) {
                    Ok(part) => {
                        list.push(part.as_str(), Ghost(parts.take(i as int)));
                        assert(parts.take(i as int).push(part@) =~= parts.take(i + 1));
                    },
                    Err(e) => return Err(e),
                }
                i += 1;
            }
            assert(parts.take(i as int) =~= parts);
            assert(parts =~= native_parts(value@));
            Ok(list.into_array(Ghost(parts)))
        },
        AttributeValue::Ss(texts) => string_array(texts),
        AttributeValue::Ns(texts) => string_array(texts),
        AttributeValue::Bs(blobs) => blob_array(blobs),
    }
}

/// An attribute value in native DynamoDB JSON shape.
pub fn native_value(value: &AttributeValue) -> (r: Result<String, ExportError>)
    ensures
        r is Ok,
        r->Ok_0@ == native_json(value@),
    decreases value, 1int,
{
    match native_body_text(value) {
        Ok(body) => single_member_object(rules::type_code_label(value), body.as_str()),
        Err(e) => Err(e),
    }
}

/// A single-key object mapping the attribute name to its native-shape value.
fn key_object(key: &KeyAttribute) -> (r: Result<String, ExportError>)
    ensures
        r is Ok,
        r->Ok_0@ == key_json(*key),
{
    match native_value(&key.value) {
        Ok(native) => single_member_object(key.name.as_str(), native.as_str()),
        Err(e) => Err(e),
    }
}

/// Adds a member whose value is given as JSON.
fn push_member(
    list: &mut JsonList,
    name: &str,
    value: &str,
    Ghost(parts): Ghost<Seq<Seq<char>>>,
) -> (r: Result<(), ExportError>)
    requires
        old(list).holds(parts),
    ensures
        r is Ok,
        final(list).holds(parts.push(json_member(name@, value@))),
{
    match member_text(name, value) {
        Ok(member) => {
            list.push(member.as_str(), Ghost(parts));
            Ok(())
        },
        Err(e) => Err(e),
    }
}

/// Adds a member whose value is a string.
fn push_text_member(
    list: &mut JsonList,
    name: &str,
    value: &str,
    Ghost(parts): Ghost<Seq<Seq<char>>>,
) -> (r: Result<(), ExportError>)
    requires
        old(list).holds(parts),
    ensures
        r is Ok,
        final(list).holds(parts.push(json_member(name@, encode::json_string(value@)))),
{
    match json_text(value) {
        Ok(quoted) => push_member(list, name, quoted.as_str(), Ghost(parts)),
        Err(e) => Err(e),
    }
}

/// Adds a member whose value is a string, if there is one.
fn push_optional_member(
    list: &mut JsonList,
    name: &str,
    value: &Option<String>,
    Ghost(parts): Ghost<Seq<Seq<char>>>,
) -> (r: Result<(), ExportError>)
    requires
        old(list).holds(parts),
    ensures
        r is Ok,
        final(list).holds(parts + optional_member(name@, text::opt_view(*value))),
{
    match value {
        Some(s) => {
            assert(parts.push(json_member(name@, encode::json_string(s@))) =~= parts
                + optional_member(name@, Some(s@)));
            push_text_member(list, name, s.as_str(), Ghost(parts))
        },
        None => {
            assert(parts + optional_member(name@, None) =~= parts);
            Ok(())
        },
    }
}

/// A violation as a JSON object.
fn ndjson_violation(violation: &Violation) -> (r: Result<String, ExportError>)
    ensures
        r is Ok,
        r->Ok_0@ == violation_json(violation@),
{
    let mut list = JsonList::new();
    let ghost p0 = Seq::<Seq<char>>::empty();
    let target = target_label(&violation.target);
    match push_text_member(&mut list, "target", target.as_str(), Ghost(p0)) {
        Ok(()) => {},
        Err(e) => return Err(e),
    }
    let ghost p1 = p0.push(json_member("target"@, encode::json_string(target@)));
    let category = category_label(violation.category);
    match push_text_member(&mut list, "category", category, Ghost(p1)) {
        Ok(()) => {},
        Err(e) => return Err(e),
    }
    let ghost p2 = p1.push(json_member("category"@, encode::json_string(category@)));
    match push_optional_member(&mut list, "attribute", &violation.attribute, Ghost(p2)) {
        Ok(()) => {},
        Err(e) => return Err(e),
    }
    let ghost p3 = p2 + optional_member("attribute"@, violation@.attribute);
    match push_optional_member(&mut list, "actual_value", &violation.actual_value, Ghost(p3)) {
        Ok(()) => {},
        Err(e) => return Err(e),
    }
    let ghost p4 = p3 + optional_member("actual_value"@, violation@.actual_value);
    match push_optional_member(&mut list, "actual_type", &violation.actual_type, Ghost(p4)) {
        Ok(()) => {},
        Err(e) => return Err(e),
    }
    let ghost p5 = p4 + optional_member("actual_type"@, violation@.actual_type);
    let expected = match expected_type_code(violation) {
        Some(code) => Some(code.to_owned()),
        None => None,
    };
    match push_optional_member(&mut list, "expected_type", &expected, Ghost(p5)) {
        Ok(()) => {},
        Err(e) => return Err(e),
    }
    let ghost p6 = p5 + optional_member("expected_type"@, expected_text(violation@));
    let ghost size = match size_text(violation@) {
        Some(n) => seq![json_member("size_bytes"@, n)],
        None => Seq::empty(),
    };
    let ghost p7 = p6 + size;
    if violation.size_bytes.is_some() {
        let n = size_bytes_label(violation);
        match push_member(&mut list, "size_bytes", n.as_str(), Ghost(p6)) {
            Ok(()) => {},
            Err(e) => return Err(e),
        }
        assert(p6.push(json_member("size_bytes"@, n@)) =~= p7);
    } else {
        assert(p6 =~= p7);
    }
    let ghost head = seq![
        json_member("target"@, encode::json_string(target@)),
        json_member("category"@, encode::json_string(category@)),
    ];
    assert(p2 =~= head);
    Ok(list.into_object(Ghost(p7)))
}

fn violations_array(violations: &Vec<Violation>) -> (r: Result<String, ExportError>)
    ensures
        r is Ok,
        r->Ok_0@ == json_array(
            rules::views(violations@).map_values(
                |violation: ViolationView| violation_json(violation),
            ),
        ),
{
    let ghost parts = rules::views(violations@).map_values(
        |violation: ViolationView| violation_json(violation),
    );
    let mut list = JsonList::new();
    assert(parts.take(0) =~= Seq::empty());
    let mut i: usize = 0;
    while i < violations.len()
        invariant
            i <= violations@.len(),
            parts == rules::views(violations@).map_values(
                |violation: ViolationView| violation_json(violation),
            ),
            list.holds(parts.take(i as int)),
        decreases violations@.len() - i,
    {
        match ndjson_violation(&violations[i]) {
            Ok(part) => {
                list.push(part.as_str(), Ghost(parts.take(i as int)));
                assert(parts.take(i as int).push(part@) =~= parts.take(i + 1));
            },
            Err(e) => return Err(e),
        }
        i += 1;
    }
    assert(parts.take(i as int) =~= parts);
    Ok(list.into_array(Ghost(parts)))
}

/// A group as a JSON object on a line of its own.
fn ndjson_record(group: &ItemViolations) -> (r: Result<String, ExportError>)
    ensures
        r is Ok,
        r->Ok_0@ == ndjson_line(*group),
{
    let mut list = JsonList::new();
    let ghost p0 = Seq::<Seq<char>>::empty();
    match push_text_member(&mut list, "table", group.table.as_str(), Ghost(p0)) {
        Ok(()) => {},
        Err(e) => return Err(e),
    }
    let ghost p1 = p0.push(json_member("table"@, encode::json_string(group.table@)));
    let detected_at = text::signed_decimal_text(group.detected_at);
    match push_member(&mut list, "detected_at", detected_at.as_str(), Ghost(p1)) {
        Ok(()) => {},
        Err(e) => return Err(e),
    }
    let ghost p2 = p1.push(json_member("detected_at"@, detected_at@));
    let pk = match key_object(&group.pk) {
        Ok(pk) => pk,
        Err(e) => return Err(e),
    };
    match push_member(&mut list, "pk", pk.as_str(), Ghost(p2)) {
        Ok(()) => {},
        Err(e) => return Err(e),
    }
    let ghost p3 = p2.push(json_member("pk"@, pk@));
    let ghost sort = if group.sk is Some {
        seq![json_member("sk"@, key_json(group.sk->0))]
    } else {
        Seq::empty()
    };
    let ghost p4 = p3 + sort;
    if let Some(key) = &group.sk {
        let sk = match key_object(key) {
            Ok(sk) => sk,
            Err(e) => return Err(e),
        };
        match push_member(&mut list, "sk", sk.as_str(), Ghost(p3)) {
            Ok(()) => {},
            Err(e) => return Err(e),
        }
        assert(p3.push(json_member("sk"@, sk@)) =~= p4);
    } else {
        assert(p3 =~= p4);
    }
    let violations = match violations_array(&group.violations) {
        Ok(violations) => violations,
        Err(e) => return Err(e),
    };
    match push_member(&mut list, "violations", violations.as_str(), Ghost(p4)) {
        Ok(()) => {},
        Err(e) => return Err(e),
    }
    let ghost p5 = p4.push(json_member("violations"@, violations@));
    let mut line = list.into_object(Ghost(p5));
    line.append("\n");
    proof {
        let head = seq![
            json_member("table"@, encode::json_string(group.table@)),
            json_member("detected_at"@, text::signed_decimal(group.detected_at as int)),
            json_member("pk"@, key_json(group.pk)),
        ];
        assert(p3 =~= head);
        assert(p5 =~= head + sort + seq![json_member("violations"@, violations@)]);
    }
    Ok(line)
}

/// One JSON object per item, one per line. An item with multiple violations stays a
/// single record with a `violations` array; table and timestamp are repeated in each
/// record, so that each line is self-contained. Keys are in native DynamoDB JSON
/// shape.
#[derive(Debug)]
pub struct NdjsonWriter {
    inner: Vec<u8>,
}

impl NdjsonWriter {
    /// The bytes written so far.
    pub closed spec fn bytes(&self) -> Seq<u8> {
        self.inner@
    }

    /// A writer that appends to `inner`.
    pub fn new(inner: Vec<u8>) -> (r: Self)
        ensures
            r.bytes() == inner@,
    {
        NdjsonWriter { inner }
    }

    /// Reclaims the bytes.
    pub fn into_inner(self) -> (r: Result<Vec<u8>, ExportError>)
        ensures
            r matches Ok(bytes) && bytes@ == self.bytes(),
    {
        Ok(self.inner)
    }

    /// Hands over the bytes written since the last call, for a file that is appended
    /// to.
    pub fn take_output(&mut self) -> (r: Vec<u8>)
        ensures
            r@ == old(self).bytes(),
            final(self).bytes() == Seq::<u8>::empty(),
    {
        let mut bytes: Vec<u8> = Vec::new();
        std::mem::swap(&mut bytes, &mut self.inner);
        assert(self.inner@ =~= Seq::empty());
        bytes
    }
}

impl ExportWriter for NdjsonWriter {
    open spec fn outputs(&self) -> Seq<Seq<u8>> {
        seq![self.bytes()]
    }

    open spec fn after(&self, group: ItemViolations) -> Seq<Seq<u8>> {
        seq![self.bytes() + vstd::utf8::encode_utf8(ndjson_line(group))]
    }

    open spec fn formats(&self) -> Seq<ExportFormat> {
        seq![ExportFormat::Ndjson]
    }

    open spec fn accepts(&self, group: ItemViolations) -> bool {
        true
    }

    open spec fn closes(&self) -> bool {
        true
    }

    fn write(&mut self, group: &ItemViolations) -> (r: Result<(), ExportError>) {
        match ndjson_record(group) {
            Ok(line) => {
                append_text(&mut self.inner, line.as_str());
                assert(self.outputs() =~= old(self).after(*group));
                Ok(())
            },
            Err(e) => Err(e),
        }
    }

    fn close(self: Box<Self>) -> (r: Result<(), ExportError>) {
        Ok(())
    }
}

/// What a group adds to an output of the format: its rows, or its record.
pub open spec fn group_bytes(format: ExportFormat, group: ItemViolations) -> Seq<u8> {
    vstd::utf8::encode_utf8(
        match format {
            ExportFormat::Csv => csv_rows(group),
            ExportFormat::Ndjson => ndjson_line(group),
        },
    )
}

/// A writer of either format.
#[derive(Debug)]
pub enum FormatWriter {
    Csv(CsvWriter),
    Ndjson(NdjsonWriter),
}

impl FormatWriter {
    /// The bytes written so far.
    pub open spec fn bytes(&self) -> Seq<u8> {
        match *self {
            FormatWriter::Csv(writer) => writer.bytes(),
            FormatWriter::Ndjson(writer) => writer.bytes(),
        }
    }

    /// The format that is written.
    pub open spec fn format(&self) -> ExportFormat {
        match *self {
            FormatWriter::Csv(_) => ExportFormat::Csv,
            FormatWriter::Ndjson(_) => ExportFormat::Ndjson,
        }
    }

    /// Hands over the bytes written since the last call.
    pub fn take_output(&mut self) -> (r: Vec<u8>)
        ensures
            r@ == old(self).bytes(),
            final(self).bytes() == Seq::<u8>::empty(),
            final(self).format() == old(self).format(),
    {
        match self {
            FormatWriter::Csv(writer) => writer.take_output(),
            FormatWriter::Ndjson(writer) => writer.take_output(),
        }
    }
}

impl ExportWriter for FormatWriter {
    open spec fn outputs(&self) -> Seq<Seq<u8>> {
        seq![self.bytes()]
    }

    open spec fn after(&self, group: ItemViolations) -> Seq<Seq<u8>> {
        seq![self.bytes() + group_bytes(self.format(), group)]
    }

    open spec fn formats(&self) -> Seq<ExportFormat> {
        seq![self.format()]
    }

    open spec fn accepts(&self, group: ItemViolations) -> bool {
        true
    }

    open spec fn closes(&self) -> bool {
        true
    }

    fn write(&mut self, group: &ItemViolations) -> (r: Result<(), ExportError>) {
        match self {
            FormatWriter::Csv(writer) => writer.write(group),
            FormatWriter::Ndjson(writer) => writer.write(group),
        }
    }

    fn close(self: Box<Self>) -> (r: Result<(), ExportError>) {
        Ok(())
    }
}

/// Fans a single stream of groups out to several writers, so that CSV and NDJSON are
/// produced in one scan pass. A format is switched off by omitting its writer.
pub struct FanOutWriter<W: ExportWriter> {
    writers: Vec<W>,
}

impl<W: ExportWriter> FanOutWriter<W> {
    /// The writers that the groups go to.
    pub closed spec fn writers(&self) -> Seq<W> {
        self.writers@
    }

    pub fn new(writers: Vec<W>) -> (r: Self)
        ensures
            r.writers() == writers@,
    {
        FanOutWriter { writers }
    }
}

/// `r` is what closing `writer` may give.
pub open spec fn close_gives<W: ExportWriter>(writer: W, r: Result<(), ExportError>) -> bool {
    call_ensures(W::close, (Box::new(writer),), r)
}

/// Closing `writer` may succeed.
pub open spec fn close_succeeds<W: ExportWriter>(writer: W) -> bool {
    exists|r: Result<(), ExportError>| r is Ok && #[trigger] close_gives(writer, r)
}

/// `r` is what closing the writers one after the other gives: the error of the first
/// that fails, the ones before it having closed, or success once all have closed.
pub open spec fn closed_in_turn<W: ExportWriter>(
    writers: Seq<W>,
    r: Result<(), ExportError>,
) -> bool {
    match r {
        Ok(()) => forall|i: int|
            0 <= i < writers.len() ==> close_succeeds(#[trigger] writers[i]),
        Err(e) => exists|i: int|
            {
                &&& 0 <= i < writers.len()
                &&& close_gives(#[trigger] writers[i], Err(e))
                &&& forall|k: int| 0 <= k < i ==> close_succeeds(#[trigger] writers[k])
            },
    }
}

impl<W: ExportWriter> ExportWriter for FanOutWriter<W> {
    open spec fn outputs(&self) -> Seq<Seq<u8>> {
        self.writers().flat_map(|writer: W| writer.outputs())
    }

    open spec fn after(&self, group: ItemViolations) -> Seq<Seq<u8>> {
        self.writers().flat_map(|writer: W| writer.after(group))
    }

    open spec fn formats(&self) -> Seq<ExportFormat> {
        self.writers().flat_map(|writer: W| writer.formats())
    }

    open spec fn accepts(&self, group: ItemViolations) -> bool {
        forall|i: int|
            0 <= i < self.writers().len() ==> (#[trigger] self.writers()[i]).accepts(group)
    }

    open spec fn closes(&self) -> bool {
        forall|i: int| 0 <= i < self.writers().len() ==> (#[trigger] self.writers()[i]).closes()
    }

    /// Each writer gets the group in turn, up to and including the first that fails:
    /// its error is the result, and the writers after it are left as they were.
    fn write(&mut self, group: &ItemViolations) -> (r: Result<(), ExportError>)
        ensures
            final(self).writers().len() == old(self).writers().len(),
            r is Ok ==> forall|k: int|
                0 <= k < old(self).writers().len() ==> {
                    &&& (#[trigger] final(self).writers()[k]).outputs()
                        == old(self).writers()[k].after(*group)
                    &&& exists|writer: &mut W, done: Result<(), ExportError>|
                        {
                            &&& *writer == old(self).writers()[k]
                            &&& *final(writer) == final(self).writers()[k]
                            &&& done is Ok
                            &&& #[trigger] call_ensures(W::write, (writer, group), done)
                        }
                },
            r is Err ==> exists|i: int, failing: &mut W|
                {
                    &&& 0 <= i < old(self).writers().len()
                    &&& *failing == #[trigger] old(self).writers()[i]
                    &&& *final(failing) == final(self).writers()[i]
                    &&& #[trigger] call_ensures(W::write, (failing, group), r)
                    &&& forall|k: int|
                        0 <= k < i ==> {
                            &&& (#[trigger] final(self).writers()[k]).outputs()
                                == old(self).writers()[k].after(*group)
                            &&& exists|writer: &mut W, done: Result<(), ExportError>|
                                {
                                    &&& *writer == old(self).writers()[k]
                                    &&& *final(writer) == final(self).writers()[k]
                                    &&& done is Ok
                                    &&& #[trigger] call_ensures(
                                        W::write,
                                        (writer, group),
                                        done,
                                    )
                                }
                        }
                    &&& forall|k: int|
                        i < k < old(self).writers().len() ==> #[trigger] final(self).writers()[k]
                            == old(self).writers()[k]
                },
    {
        let ghost before = self.writers@;
        let mut i: usize = 0;
        while i < self.writers.len()
            invariant
                i <= self.writers@.len(),
                before == old(self).writers@,
                self.writers@.len() == before.len(),
                forall|k: int| i <= k < before.len() ==> self.writers@[k] == before[k],
                forall|k: int|
                    0 <= k < i ==> {
                        &&& (#[trigger] self.writers@[k]).outputs() == before[k].after(*group)
                        &&& exists|writer: &mut W, done: Result<(), ExportError>|
                            {
                                &&& *writer == before[k]
                                &&& *final(writer) == self.writers@[k]
                                &&& done is Ok
                                &&& #[trigger] call_ensures(W::write, (writer, group), done)
                            }
                    },
                forall|k: int|
                    0 <= k < before.len() ==> (#[trigger] self.writers@[k]).formats()
                        == before[k].formats(),
            decreases self.writers@.len() - i,
        {
            let ghost so_far = self.writers@;
            match self.writers[i].write(group) {
                Ok(()) => {},
                Err(e) => {
                    assert(!old(self).writers()[i as int].accepts(*group));
                    assert(self.writers@.map_values(|writer: W| writer.formats())
                        =~= before.map_values(|writer: W| writer.formats()));
                    assert(forall|k: int|
                        0 <= k < before.len() && k != i ==> #[trigger] self.writers@[k]
                            == so_far[k]);
                    return Err(e);
                },
            }
            assert(forall|k: int| 0 <= k < i ==> #[trigger] self.writers@[k] == so_far[k]);
            i += 1;
        }
        assert(self.writers@.map_values(|writer: W| writer.formats()) =~= before.map_values(
            |writer: W| writer.formats(),
        ));
        assert(self.writers@.map_values(|writer: W| writer.outputs()) =~= before.map_values(
            |writer: W| writer.after(*group),
        ));
        Ok(())
    }

    fn close(self: Box<Self>) -> (r: Result<(), ExportError>)
        ensures
            closed_in_turn(self.writers(), r),
    {
        let ghost all = self.writers@;
        let mut writers = self.writers;
        let ghost mut closed: int = 0;
        while writers.len() > 0
            invariant
                0 <= closed <= all.len(),
                writers@ =~= all.skip(closed),
                all == self.writers@,
                forall|k: int| 0 <= k < closed ==> close_succeeds(#[trigger] all[k]),
            decreases writers@.len(),
        {
            let writer = writers.remove(0);
            assert(writer == all[closed]);
            let outcome = Box::new(writer).close();
            assert(close_gives(all[closed], outcome));
            match outcome {
                Ok(()) => {},
                Err(e) => {
                    assert(!self.writers()[closed].closes());
                    return Err(e);
                },
            }
            proof {
                closed = closed + 1;
            }
        }
        Ok(())
    }
}

/// `s` holds no line end.
pub open spec fn single_line(s: Seq<char>) -> bool {
    forall|i: int| 0 <= i < s.len() ==> #[trigger] s[i] != '\n'
}

proof fn lemma_punctuation_single_line()
    ensures
        single_line(":"@),
        single_line(","@),
        single_line("{"@),
        single_line("}"@),
        single_line("["@),
        single_line("]"@),
        single_line("true"@),
        single_line("false"@),
{
    reveal_strlit(":");
    reveal_strlit(",");
    reveal_strlit("{");
    reveal_strlit("}");
    reveal_strlit("[");
    reveal_strlit("]");
    reveal_strlit("true");
    reveal_strlit("false");
}

proof fn lemma_json_char_single_line(c: char)
    ensures
        single_line(encode::json_char(c)),
{
    let n = c as int;
    if n < 32 {
        assert(encode::hex_digit(n / 16) != '\n');
        assert(encode::hex_digit(n % 16) != '\n');
    }
}

proof fn lemma_json_string_single_line(s: Seq<char>)
    ensures
        single_line(encode::json_string(s)),
{
    let f = |c: char| encode::json_char(c);
    let body = s.flat_map(f);
    assert forall|i: int| 0 <= i < body.len() implies #[trigger] body[i] != '\n' by {
        text::lemma_flat_map_contains(s, f, body[i]);
        assert(body.contains(body[i]));
        let k = choose|k: int| 0 <= k < s.len() && f(#[trigger] s[k]).contains(body[i]);
        lemma_json_char_single_line(s[k]);
    }
}

proof fn lemma_decimal_single_line(n: nat)
    ensures
        single_line(text::decimal(n)),
    decreases n,
{
    if n >= 10 {
        lemma_decimal_single_line(n / 10);
    }
}

proof fn lemma_comma_separated_single_line(parts: Seq<Seq<char>>)
    requires
        forall|i: int| 0 <= i < parts.len() ==> single_line(#[trigger] parts[i]),
    ensures
        single_line(comma_separated(parts)),
    decreases parts.len(),
{
    lemma_punctuation_single_line();
    if parts.len() > 1 {
        assert forall|i: int| 0 <= i < parts.drop_last().len() implies single_line(
            #[trigger] parts.drop_last()[i],
        ) by {
            assert(parts.drop_last()[i] == parts[i]);
        }
        lemma_comma_separated_single_line(parts.drop_last());
        assert(single_line(parts[parts.len() - 1]));
    } else if parts.len() == 1 {
        assert(single_line(parts[0]));
    }
}

proof fn lemma_json_single_line(parts: Seq<Seq<char>>)
    requires
        forall|i: int| 0 <= i < parts.len() ==> single_line(#[trigger] parts[i]),
    ensures
        single_line(json_object(parts)),
        single_line(json_array(parts)),
{
    lemma_punctuation_single_line();
    lemma_comma_separated_single_line(parts);
}

proof fn lemma_member_single_line(name: Seq<char>, value: Seq<char>)
    requires
        single_line(value),
    ensures
        single_line(json_member(name, value)),
{
    lemma_punctuation_single_line();
    lemma_json_string_single_line(name);
}

proof fn lemma_native_single_line(value: ValueView)
    ensures
        single_line(native_body(value)),
        single_line(native_json(value)),
    decreases value,
{
    lemma_punctuation_single_line();
    let parts = native_parts(value);
    match value {
        ValueView::S(s) => lemma_json_string_single_line(s),
        ValueView::N(n) => lemma_json_string_single_line(n),
        ValueView::B(b) => lemma_json_string_single_line(encode::base64_of(b)),
        ValueView::Bool(_) => {},
        ValueView::Null(_) => {},
        ValueView::M(entries) => {
            assert forall|i: int| 0 <= i < parts.len() implies single_line(#[trigger] parts[i]) by {
                lemma_native_single_line(entries[i].1);
                lemma_member_single_line(entries[i].0, native_json(entries[i].1));
            }
            lemma_json_single_line(parts);
        },
        ValueView::L(elements) => {
            assert forall|i: int| 0 <= i < parts.len() implies single_line(#[trigger] parts[i]) by {
                lemma_native_single_line(elements[i]);
                assert(parts[i] == native_json(elements[i]));
            }
            lemma_json_single_line(parts);
        },
        ValueView::Ss(texts) => {
            assert forall|i: int| 0 <= i < parts.len() implies single_line(#[trigger] parts[i]) by {
                lemma_json_string_single_line(texts[i]);
            }
            lemma_json_single_line(parts);
        },
        ValueView::Ns(texts) => {
            assert forall|i: int| 0 <= i < parts.len() implies single_line(#[trigger] parts[i]) by {
                lemma_json_string_single_line(texts[i]);
            }
            lemma_json_single_line(parts);
        },
        ValueView::Bs(blobs) => {
            assert forall|i: int| 0 <= i < parts.len() implies single_line(#[trigger] parts[i]) by {
                lemma_json_string_single_line(encode::base64_of(blobs[i]));
            }
            lemma_json_single_line(parts);
        },
    }
    lemma_member_single_line(rules::type_label(value), native_body(value));
    lemma_json_single_line(seq![json_member(rules::type_label(value), native_body(value))]);
}

proof fn lemma_key_single_line(key: KeyAttribute)
    ensures
        single_line(key_json(key)),
{
    lemma_native_single_line(key.value@);
    lemma_member_single_line(key.name@, native_json(key.value@));
    lemma_json_single_line(seq![json_member(key.name@, native_json(key.value@))]);
}

proof fn lemma_text_member_single_line(name: Seq<char>, value: Seq<char>)
    ensures
        single_line(json_member(name, encode::json_string(value))),
{
    lemma_json_string_single_line(value);
    lemma_member_single_line(name, encode::json_string(value));
}

/// All parts are on one line.
spec fn single_lines(parts: Seq<Seq<char>>) -> bool {
    forall|i: int| 0 <= i < parts.len() ==> single_line(#[trigger] parts[i])
}

proof fn lemma_optional_member_single_line(name: Seq<char>, value: Option<Seq<char>>)
    ensures
        single_lines(optional_member(name, value)),
{
    if let Some(s) = value {
        lemma_text_member_single_line(name, s);
    }
}

proof fn lemma_violation_single_line(violation: ViolationView)
    ensures
        single_line(violation_json(violation)),
{
    let head = seq![
        json_member("target"@, encode::json_string(target_text(violation.target))),
        json_member("category"@, encode::json_string(category_text(violation.category))),
    ];
    lemma_text_member_single_line("target"@, target_text(violation.target));
    lemma_text_member_single_line("category"@, category_text(violation.category));
    assert(single_lines(head));
    lemma_optional_member_single_line("attribute"@, violation.attribute);
    lemma_optional_member_single_line("actual_value"@, violation.actual_value);
    lemma_optional_member_single_line("actual_type"@, violation.actual_type);
    lemma_optional_member_single_line("expected_type"@, expected_text(violation));
    let size = match size_text(violation) {
        Some(n) => seq![json_member("size_bytes"@, n)],
        None => Seq::empty(),
    };
    if let Some(n) = violation.size_bytes {
        lemma_decimal_single_line(n);
        lemma_member_single_line("size_bytes"@, text::decimal(n));
    }
    let parts = head + optional_member("attribute"@, violation.attribute) + optional_member(
        "actual_value"@,
        violation.actual_value,
    ) + optional_member("actual_type"@, violation.actual_type) + optional_member(
        "expected_type"@,
        expected_text(violation),
    ) + size;
    lemma_json_single_line(parts);
}

/// Every NDJSON record is one line: whatever the item and its violations hold, a
/// record ends in a line end and holds no other.
pub proof fn law_ndjson_record_is_one_line(group: ItemViolations)
    ensures
        ndjson_line(group).len() > 0,
        ndjson_line(group).last() == '\n',
        single_line(ndjson_line(group).drop_last()),
{
    lemma_text_member_single_line("table"@, group.table@);
    if group.detected_at < 0 {
        lemma_decimal_single_line((-group.detected_at) as nat);
    } else {
        lemma_decimal_single_line(group.detected_at as nat);
    }
    lemma_member_single_line("detected_at"@, text::signed_decimal(group.detected_at as int));
    lemma_key_single_line(group.pk);
    lemma_member_single_line("pk"@, key_json(group.pk));
    let head = seq![
        json_member("table"@, encode::json_string(group.table@)),
        json_member("detected_at"@, text::signed_decimal(group.detected_at as int)),
        json_member("pk"@, key_json(group.pk)),
    ];
    assert(single_lines(head));
    let sort = match group.sk {
        Some(sk) => seq![json_member("sk"@, key_json(sk))],
        None => Seq::empty(),
    };
    if let Some(sk) = group.sk {
        lemma_key_single_line(sk);
        lemma_member_single_line("sk"@, key_json(sk));
    }
    assert(single_lines(sort));
    let elements = rules::views(group.violations@).map_values(
        |violation: ViolationView| violation_json(violation),
    );
    assert forall|i: int| 0 <= i < elements.len() implies single_line(#[trigger] elements[i]) by {
        lemma_violation_single_line(rules::views(group.violations@)[i]);
    }
    lemma_json_single_line(elements);
    lemma_member_single_line("violations"@, json_array(elements));
    let parts = head + sort + seq![json_member("violations"@, json_array(elements))];
    lemma_json_single_line(parts);
    reveal_strlit("\n");
    assert(ndjson_line(group) == json_object(parts) + "\n"@);
    assert(ndjson_line(group).drop_last() =~= json_object(parts));
}

/// One CSV row per violation: a further violation of an item adds its record at the
/// end and changes nothing before it, and an item without violations adds nothing.
pub proof fn law_one_csv_row_per_violation(
    group: ItemViolations,
    more: ItemViolations,
    violation: Violation,
)
    requires
        more.violations@ == group.violations@.push(violation),
        more.table == group.table,
        more.pk == group.pk,
        more.sk == group.sk,
        more.detected_at == group.detected_at,
    ensures
        csv_rows(more) == csv_rows(group) + encode::csv_record(csv_row(group, violation@)),
        group.violations@.len() == 0 ==> csv_rows(group).len() == 0,
{
    let of_group = |v: ViolationView| encode::csv_record(csv_row(group, v));
    let of_more = |v: ViolationView| encode::csv_record(csv_row(more, v));
    let views = rules::views(group.violations@);
    assert(of_group =~= of_more);
    assert(rules::views(more.violations@) =~= views.push(violation@));
    views.lemma_flat_map_push(of_group, violation@);
}

/// What was written stays: a further group only adds to the end of an output.
pub proof fn law_output_only_grows(csv: CsvWriter, ndjson: NdjsonWriter, group: ItemViolations)
    ensures
        csv.outputs()[0].is_prefix_of(csv.after(group)[0]),
        ndjson.outputs()[0].is_prefix_of(ndjson.after(group)[0]),
{
}

/// A fan-out over no writers writes nothing and never fails.
pub proof fn law_fan_out_over_nothing<W: ExportWriter>(fan: FanOutWriter<W>, group: ItemViolations)
    requires
        fan.writers().len() == 0,
    ensures
        fan.accepts(group),
        fan.closes(),
        fan.outputs() == Seq::<Seq<u8>>::empty(),
        fan.after(group) == Seq::<Seq<u8>>::empty(),
{
    assert(fan.outputs() =~= Seq::<Seq<u8>>::empty());
    assert(fan.after(group) =~= Seq::<Seq<u8>>::empty());
}

proof fn lemma_flat_map_of_singletons<A, B>(s: Seq<A>, f: spec_fn(A) -> Seq<B>, g: spec_fn(A) -> B)
    requires
        forall|i: int| 0 <= i < s.len() ==> f(#[trigger] s[i]) == seq![g(s[i])],
    ensures
        s.flat_map(f) == s.map_values(g),
    decreases s.len(),
{
    if s.len() > 0 {
        let front = s.drop_last();
        assert forall|i: int| 0 <= i < front.len() implies f(#[trigger] front[i]) == seq![
            g(front[i]),
        ] by {
            assert(front[i] == s[i]);
        }
        lemma_flat_map_of_singletons(front, f, g);
        assert(s =~= front.push(s.last()));
        front.lemma_flat_map_push(f, s.last());
        assert(f(s[s.len() - 1]) == seq![g(s.last())]);
    }
    assert(s.flat_map(f) =~= s.map_values(g));
}

/// A fan-out over writers of either format has an output for each of them, takes
/// every group, and adds to each output what the group is in its format.
pub proof fn law_fan_out_appends_to_every_output(
    fan: FanOutWriter<FormatWriter>,
    group: ItemViolations,
)
    ensures
        fan.accepts(group),
        fan.closes(),
        fan.outputs().len() == fan.formats().len(),
        fan.after(group) == Seq::new(
            fan.outputs().len(),
            |i: int| fan.outputs()[i] + group_bytes(fan.formats()[i], group),
        ),
{
    let writers = fan.writers();
    lemma_flat_map_of_singletons(
        writers,
        |writer: FormatWriter| writer.outputs(),
        |writer: FormatWriter| writer.bytes(),
    );
    lemma_flat_map_of_singletons(
        writers,
        |writer: FormatWriter| writer.formats(),
        |writer: FormatWriter| writer.format(),
    );
    lemma_flat_map_of_singletons(
        writers,
        |writer: FormatWriter| writer.after(group),
        |writer: FormatWriter| writer.bytes() + group_bytes(writer.format(), group),
    );
    assert(fan.after(group) =~= Seq::new(
        fan.outputs().len(),
        |i: int| fan.outputs()[i] + group_bytes(fan.formats()[i], group),
    ));
}

/// What the groups add to an output of the format, one after the other.
pub open spec fn all_bytes(format: ExportFormat, groups: Seq<ItemViolations>) -> Seq<u8> {
    groups.flat_map(|group: ItemViolations| group_bytes(format, group))
}

/// What each output holds once the groups have gone to it.
pub open spec fn filled(
    start: FanOutWriter<FormatWriter>,
    groups: Seq<ItemViolations>,
) -> Seq<Seq<u8>> {
    Seq::new(
        start.outputs().len(),
        |k: int| start.outputs()[k] + all_bytes(start.formats()[k], groups),
    )
}

pub proof fn lemma_filled_by_one_more(
    start: FanOutWriter<FormatWriter>,
    mid: FanOutWriter<FormatWriter>,
    groups: Seq<ItemViolations>,
    group: ItemViolations,
)
    requires
        mid.formats() == start.formats(),
        mid.outputs() == filled(start, groups),
    ensures
        mid.after(group) == filled(start, groups.push(group)),
{
    law_fan_out_appends_to_every_output(start, group);
    law_fan_out_appends_to_every_output(mid, group);
    let expected = filled(start, groups.push(group));
    assert forall|k: int| 0 <= k < expected.len() implies mid.after(group)[k] == expected[k] by {
        let format = start.formats()[k];
        let f = |one: ItemViolations| group_bytes(format, one);
        groups.lemma_flat_map_push(f, group);
        assert(mid.after(group)[k] =~= expected[k]);
    }
    assert(mid.after(group) =~= expected);
}

/// Every group reaches every output, in order and once: after a series of groups each
/// output holds what it held before and then the groups in its format.
pub proof fn law_every_group_reaches_every_output(
    fans: Seq<FanOutWriter<FormatWriter>>,
    groups: Seq<ItemViolations>,
)
    requires
        fans.len() == groups.len() + 1,
        forall|i: int|
            0 <= i < groups.len() ==> {
                &&& fans[i + 1].outputs() == (#[trigger] fans[i]).after(groups[i])
                &&& fans[i + 1].formats() == fans[i].formats()
            },
    ensures
        fans.last().formats() == fans[0].formats(),
        fans[0].outputs().len() == fans[0].formats().len(),
        fans.last().outputs() == Seq::new(
            fans[0].outputs().len(),
            |k: int| fans[0].outputs()[k] + all_bytes(fans[0].formats()[k], groups),
        ),
    decreases groups.len(),
{
    law_fan_out_appends_to_every_output(fans[0], groups[0]);
    if groups.len() == 0 {
        assert(fans.last().outputs() =~= filled(fans[0], groups));
    } else {
        let front = groups.drop_last();
        let before = fans.drop_last();
        let mid = fans[groups.len() - 1];
        assert forall|i: int| 0 <= i < front.len() implies {
            &&& before[i + 1].outputs() == (#[trigger] before[i]).after(front[i])
            &&& before[i + 1].formats() == before[i].formats()
        } by {
            assert(before[i] == fans[i]);
        }
        law_every_group_reaches_every_output(before, front);
        assert(mid == before.last());
        lemma_filled_by_one_more(fans[0], mid, front, groups.last());
        assert(groups =~= front.push(groups.last()));
        assert(fans.last().outputs() == filled(fans[0], groups));
    }
}

/// Both formats come out of one pass: a fan-out over a CSV and an NDJSON writer takes
/// every group, adding its rows to the one output and its record to the other.
pub proof fn law_fan_out_writes_both_formats(
    fan: FanOutWriter<FormatWriter>,
    csv: CsvWriter,
    ndjson: NdjsonWriter,
    group: ItemViolations,
)
    requires
        fan.writers() == seq![FormatWriter::Csv(csv), FormatWriter::Ndjson(ndjson)],
    ensures
        fan.accepts(group),
        fan.closes(),
        fan.outputs() == seq![csv.bytes(), ndjson.bytes()],
        fan.after(group) == seq![
            csv.bytes() + vstd::utf8::encode_utf8(csv_rows(group)),
            ndjson.bytes() + vstd::utf8::encode_utf8(ndjson_line(group)),
        ],
{
    let first = FormatWriter::Csv(csv);
    let second = FormatWriter::Ndjson(ndjson);
    let now = |writer: FormatWriter| writer.outputs();
    let then = |writer: FormatWriter| writer.after(group);
    let one = seq![first];
    assert(fan.writers() =~= one.push(second));
    one.lemma_flat_map_push(now, second);
    one.lemma_flat_map_push(then, second);
    one.lemma_flat_map_singleton(now);
    one.lemma_flat_map_singleton(then);
    assert(fan.outputs() =~= seq![csv.bytes(), ndjson.bytes()]);
    assert(fan.after(group) =~= seq![
        csv.bytes() + vstd::utf8::encode_utf8(csv_rows(group)),
        ndjson.bytes() + vstd::utf8::encode_utf8(ndjson_line(group)),
    ]);
}

/// The columns of a CSV row are what the header says: the table, the target, the
/// category, the item's own keys with their types, what the violation says, and the
/// time. What is absent is an empty field.
#[verifier::rlimit(30)]
pub proof fn law_csv_columns_hold_what_they_are_named_for(
    group: ItemViolations,
    violation: ViolationView,
)
    ensures
        csv_headers().len() == 13,
        csv_row(group, violation).len() == 13,
        csv_headers()[0] == "table"@ && csv_row(group, violation)[0] == group.table@,
        csv_headers()[1] == "target"@ && csv_row(group, violation)[1] == (
        match violation.target {
            TargetView::Gsi(name) => "GSI:"@ + name,
            TargetView::Lsi(name) => "LSI:"@ + name,
            TargetView::Ttl => "TTL"@,
        }),
        csv_headers()[2] == "category"@ && csv_row(group, violation)[2] == (
        match violation.category {
            ViolationCategory::TypeMismatch => "type_mismatch"@,
            ViolationCategory::SizeExceeded => "size_exceeded"@,
            ViolationCategory::MissingKey => "missing_key"@,
            ViolationCategory::TtlMissing => "ttl_missing"@,
            ViolationCategory::TtlWrongType => "ttl_wrong_type"@,
            ViolationCategory::TtlMsMagnitude => "ttl_ms_magnitude"@,
            ViolationCategory::TtlMalformed => "ttl_malformed"@,
            ViolationCategory::TtlPastFiveYears => "ttl_past_five_years"@,
        }),
        csv_headers()[3] == "pk"@ && csv_row(group, violation)[3] == (match group.pk.value@ {
            ValueView::S(s) => s,
            ValueView::N(n) => n,
            ValueView::B(b) => encode::base64_of(b),
            _ => Seq::empty(),
        }),
        csv_headers()[4] == "sk"@ && csv_row(group, violation)[4] == (if group.sk is None {
            Seq::empty()
        } else {
            match group.sk->0.value@ {
                ValueView::S(s) => s,
                ValueView::N(n) => n,
                ValueView::B(b) => encode::base64_of(b),
                _ => Seq::empty(),
            }
        }),
        csv_headers()[5] == "pk_type"@ && csv_row(group, violation)[5] == rules::shown_type(
            group.pk.value@,
        ),
        csv_headers()[6] == "sk_type"@ && csv_row(group, violation)[6] == (if group.sk is None {
            Seq::empty()
        } else {
            rules::shown_type(group.sk->0.value@)
        }),
        csv_headers()[7] == "attribute"@ && csv_row(group, violation)[7] == (
        if violation.attribute is Some {
            violation.attribute->0
        } else {
            Seq::empty()
        }),
        csv_headers()[8] == "actual_value"@ && csv_row(group, violation)[8] == (
        if violation.actual_value is Some {
            violation.actual_value->0
        } else {
            Seq::empty()
        }),
        csv_headers()[9] == "actual_type"@ && csv_row(group, violation)[9] == (
        if violation.actual_type is Some {
            violation.actual_type->0
        } else {
            Seq::empty()
        }),
        csv_headers()[10] == "expected_type"@ && csv_row(group, violation)[10] == (
        match violation.expected_type {
            Some(TypeCode::S) => "S"@,
            Some(TypeCode::N) => "N"@,
            Some(TypeCode::B) => "B"@,
            None => Seq::empty(),
        }),
        csv_headers()[11] == "size_bytes"@ && csv_row(group, violation)[11] == (
        if violation.size_bytes is Some {
            text::decimal(violation.size_bytes->0)
        } else {
            Seq::empty()
        }),
        csv_headers()[12] == "detected_at"@ && text::integer(csv_row(group, violation)[12])
            == Some(group.detected_at as int),
{
    text::law_signed_numerals_read_back(group.detected_at as int);
}

/// The scalar value that a value column and a type column stand for.
pub open spec fn read_scalar(value: Seq<char>, label: Seq<char>) -> ValueView {
    if label == "S"@ {
        ValueView::S(value)
    } else if label == "N"@ {
        ValueView::N(value)
    } else {
        ValueView::B(encode::base64_read(value))
    }
}

/// An item can be found from its row: the keys read back from their value and type
/// columns, so that rows of items with different keys differ there.
pub proof fn law_csv_row_identifies_the_item(
    group: ItemViolations,
    other: ItemViolations,
    violation: ViolationView,
    other_violation: ViolationView,
)
    requires
        group.pk.value@ is S || group.pk.value@ is N || group.pk.value@ is B,
        other.pk.value@ is S || other.pk.value@ is N || other.pk.value@ is B,
    ensures
        read_scalar(csv_row(group, violation)[3], csv_row(group, violation)[5])
            == group.pk.value@,
        group.sk is Some && (group.sk->0.value@ is S || group.sk->0.value@ is N
            || group.sk->0.value@ is B) ==> read_scalar(
            csv_row(group, violation)[4],
            csv_row(group, violation)[6],
        ) == group.sk->0.value@,
        group.pk.value@ != other.pk.value@ ==> csv_row(group, violation)[3] != csv_row(
            other,
            other_violation,
        )[3] || csv_row(group, violation)[5] != csv_row(other, other_violation)[5],
{
    reveal_strlit("S");
    reveal_strlit("N");
    reveal_strlit("B");
    assert("S"@[0] != "N"@[0] && "S"@[0] != "B"@[0] && "N"@[0] != "B"@[0]);
    if group.pk.value@ is B {
        encode::law_base64_reads_back(group.pk.value@->B_0);
    }
    if other.pk.value@ is B {
        encode::law_base64_reads_back(other.pk.value@->B_0);
    }
    if group.sk is Some && group.sk->0.value@ is B {
        encode::law_base64_reads_back(group.sk->0.value@->B_0);
    }
}

/// A name and a value as they stand in a JSON object.
pub open spec fn named(name: Seq<char>, value: Seq<char>) -> Seq<char> {
    encode::json_string(name) + ":"@ + value
}

/// The violations of a record: each as an object of its own, in order, with a comma
/// between two.
pub open spec fn listed(violations: Seq<Violation>) -> Seq<char>
    decreases violations.len(),
{
    if violations.len() == 0 {
        Seq::empty()
    } else if violations.len() == 1 {
        violation_json(violations[0]@)
    } else {
        listed(violations.drop_last()) + ","@ + violation_json(violations.last()@)
    }
}

proof fn lemma_listed(violations: Seq<Violation>)
    ensures
        comma_separated(
            rules::views(violations).map_values(
                |violation: ViolationView| violation_json(violation),
            ),
        ) == listed(violations),
    decreases violations.len(),
{
    let of = |violation: ViolationView| violation_json(violation);
    if violations.len() > 1 {
        lemma_listed(violations.drop_last());
        assert(rules::views(violations).map_values(of).drop_last() =~= rules::views(
            violations.drop_last(),
        ).map_values(of));
    }
}

proof fn lemma_comma_separated_three(a: Seq<char>, b: Seq<char>, c: Seq<char>)
    ensures
        comma_separated(seq![a, b, c]) == a + ","@ + b + ","@ + c,
{
    lemma_comma_separated_push(seq![a, b], c);
    lemma_comma_separated_push(seq![a], b);
    assert(seq![a, b].push(c) =~= seq![a, b, c]);
    assert(seq![a].push(b) =~= seq![a, b]);
}

/// A record of the export holds the group: the table, the time as a number, the keys
/// in native shape under their names, and a list of all the violations. Nothing else
/// is in it, and a record of an item without a sort key has none.
#[verifier::rlimit(30)]
pub proof fn law_ndjson_record_holds_the_group(group: ItemViolations)
    ensures
        group.sk is None ==> ndjson_line(group) == "{"@ + (named(
            "table"@,
            encode::json_string(group.table@),
        ) + ","@ + named("detected_at"@, text::signed_decimal(group.detected_at as int)) + ","@
            + named("pk"@, "{"@ + named(group.pk.name@, native_json(group.pk.value@)) + "}"@)
            + ","@ + named("violations"@, "["@ + listed(group.violations@) + "]"@)) + "}"@ + "\n"@,
        group.sk is Some ==> ndjson_line(group) == "{"@ + (named(
            "table"@,
            encode::json_string(group.table@),
        ) + ","@ + named("detected_at"@, text::signed_decimal(group.detected_at as int)) + ","@
            + named("pk"@, "{"@ + named(group.pk.name@, native_json(group.pk.value@)) + "}"@)
            + ","@ + named(
            "sk"@,
            "{"@ + named(group.sk->0.name@, native_json(group.sk->0.value@)) + "}"@,
        ) + ","@ + named("violations"@, "["@ + listed(group.violations@) + "]"@)) + "}"@ + "\n"@,
{
    lemma_listed(group.violations@);
    let head = seq![
        json_member("table"@, encode::json_string(group.table@)),
        json_member("detected_at"@, text::signed_decimal(group.detected_at as int)),
        json_member("pk"@, key_json(group.pk)),
    ];
    let last = json_member(
        "violations"@,
        json_array(
            rules::views(group.violations@).map_values(
                |violation: ViolationView| violation_json(violation),
            ),
        ),
    );
    lemma_comma_separated_three(head[0], head[1], head[2]);
    if group.sk is Some {
        let sort = json_member("sk"@, key_json(group.sk->0));
        lemma_comma_separated_push(head, sort);
        lemma_comma_separated_push(head.push(sort), last);
        assert(head + seq![sort] + seq![last] =~= head.push(sort).push(last));
    } else {
        lemma_comma_separated_push(head, last);
        assert(head + Seq::<Seq<char>>::empty() + seq![last] =~= head.push(last));
    }
}

/// A violation in a record holds its target and category and whatever else it has,
/// under its name; the size is a number, the rest is text.
#[verifier::rlimit(30)]
pub proof fn law_ndjson_violation_holds_what_it_has(violation: ViolationView)
    ensures
        violation_json(violation) == "{"@ + (named(
            "target"@,
            encode::json_string(
                match violation.target {
                    TargetView::Gsi(name) => "GSI:"@ + name,
                    TargetView::Lsi(name) => "LSI:"@ + name,
                    TargetView::Ttl => "TTL"@,
                },
            ),
        ) + ","@ + named(
            "category"@,
            encode::json_string(
                match violation.category {
                    ViolationCategory::TypeMismatch => "type_mismatch"@,
                    ViolationCategory::SizeExceeded => "size_exceeded"@,
                    ViolationCategory::MissingKey => "missing_key"@,
                    ViolationCategory::TtlMissing => "ttl_missing"@,
                    ViolationCategory::TtlWrongType => "ttl_wrong_type"@,
                    ViolationCategory::TtlMsMagnitude => "ttl_ms_magnitude"@,
                    ViolationCategory::TtlMalformed => "ttl_malformed"@,
                    ViolationCategory::TtlPastFiveYears => "ttl_past_five_years"@,
                },
            ),
        ) + (match violation.attribute {
            Some(s) => ","@ + named("attribute"@, encode::json_string(s)),
            None => Seq::empty(),
        }) + (match violation.actual_value {
            Some(s) => ","@ + named("actual_value"@, encode::json_string(s)),
            None => Seq::empty(),
        }) + (match violation.actual_type {
            Some(s) => ","@ + named("actual_type"@, encode::json_string(s)),
            None => Seq::empty(),
        }) + (match violation.expected_type {
            Some(TypeCode::S) => ","@ + named("expected_type"@, encode::json_string("S"@)),
            Some(TypeCode::N) => ","@ + named("expected_type"@, encode::json_string("N"@)),
            Some(TypeCode::B) => ","@ + named("expected_type"@, encode::json_string("B"@)),
            None => Seq::empty(),
        }) + (match violation.size_bytes {
            Some(n) => ","@ + named("size_bytes"@, text::decimal(n)),
            None => Seq::empty(),
        })) + "}"@,
{
    let target = json_member("target"@, encode::json_string(target_text(violation.target)));
    let category = json_member("category"@, encode::json_string(category_text(violation.category)));
    let start = seq![target, category];
    lemma_comma_separated_push(seq![target], category);
    assert(seq![target].push(category) =~= start);
    let attribute = optional_member("attribute"@, violation.attribute);
    let value = optional_member("actual_value"@, violation.actual_value);
    let kind = optional_member("actual_type"@, violation.actual_type);
    let expected = optional_member("expected_type"@, expected_text(violation));
    let size = match size_text(violation) {
        Some(n) => seq![json_member("size_bytes"@, n)],
        None => Seq::empty(),
    };
    lemma_optional_part(start, attribute);
    lemma_optional_part(start + attribute, value);
    lemma_optional_part(start + attribute + value, kind);
    lemma_optional_part(start + attribute + value + kind, expected);
    lemma_optional_part(start + attribute + value + kind + expected, size);
}

proof fn lemma_optional_part(parts: Seq<Seq<char>>, more: Seq<Seq<char>>)
    requires
        parts.len() > 0,
        more.len() <= 1,
    ensures
        comma_separated(parts + more) == comma_separated(parts) + (if more.len() == 1 {
            ","@ + more[0]
        } else {
            Seq::empty()
        }),
{
    if more.len() == 1 {
        lemma_comma_separated_push(parts, more[0]);
        assert(parts + more =~= parts.push(more[0]));
        assert(comma_separated(parts) + ","@ + more[0] =~= comma_separated(parts) + (","@
            + more[0]));
    } else {
        assert(parts + more =~= parts);
        assert(comma_separated(parts) + Seq::<char>::empty() =~= comma_separated(parts));
    }
}

/// The native shape of a value is an object with its type code as the one name: a
/// string, a number or binary is text, binary in base64, a truth value is one, and
/// null is true.
#[verifier::rlimit(30)]
pub proof fn law_native_scalars_are_under_their_type_code(
    s: Seq<char>,
    b: Seq<u8>,
    truth: bool,
)
    ensures
        native_json(ValueView::S(s)) == "{"@ + named("S"@, encode::json_string(s)) + "}"@,
        native_json(ValueView::N(s)) == "{"@ + named("N"@, encode::json_string(s)) + "}"@,
        native_json(ValueView::B(b)) == "{"@ + named(
            "B"@,
            encode::json_string(encode::base64_of(b)),
        ) + "}"@,
        native_json(ValueView::Bool(truth)) == "{"@ + named(
            "BOOL"@,
            if truth {
                "true"@
            } else {
                "false"@
            },
        ) + "}"@,
        native_json(ValueView::Null(truth)) == "{"@ + named("NULL"@, "true"@) + "}"@,
        native_json(ValueView::L(Seq::empty())) == "{"@ + named("L"@, "["@ + "]"@) + "}"@,
        native_json(ValueView::M(Seq::empty())) == "{"@ + named("M"@, "{"@ + "}"@) + "}"@,
        native_json(ValueView::Ss(Seq::empty())) == "{"@ + named("SS"@, "["@ + "]"@) + "}"@,
        native_json(ValueView::Ns(Seq::empty())) == "{"@ + named("NS"@, "["@ + "]"@) + "}"@,
        native_json(ValueView::Bs(Seq::empty())) == "{"@ + named("BS"@, "["@ + "]"@) + "}"@,
{
    assert(native_parts(ValueView::L(Seq::empty())) =~= Seq::empty());
    assert(native_parts(ValueView::M(Seq::empty())) =~= Seq::empty());
    assert(native_parts(ValueView::Ss(Seq::empty())) =~= Seq::empty());
    assert(native_parts(ValueView::Ns(Seq::empty())) =~= Seq::empty());
    assert(native_parts(ValueView::Bs(Seq::empty())) =~= Seq::empty());
    assert("["@ + Seq::<char>::empty() + "]"@ =~= "["@ + "]"@);
    assert("{"@ + Seq::<char>::empty() + "}"@ =~= "{"@ + "}"@);
}

/// `longer` is the native shape `shorter` of a map, list or set with one more part at
/// the end, `first` if it had none: the part stands before the two closing brackets.
pub open spec fn one_part_more(
    shorter: Seq<char>,
    longer: Seq<char>,
    part: Seq<char>,
    first: bool,
) -> bool {
    &&& shorter.len() >= 2
    &&& longer == shorter.take(shorter.len() - 2) + (if first {
        Seq::empty()
    } else {
        ","@
    }) + part + shorter.skip(shorter.len() - 2)
}

proof fn lemma_native_with_one_more(
    label: Seq<char>,
    open: Seq<char>,
    close: Seq<char>,
    parts: Seq<Seq<char>>,
    part: Seq<char>,
)
    requires
        close.len() == 1,
    ensures
        one_part_more(
            json_object(seq![json_member(label, open + comma_separated(parts) + close)]),
            json_object(seq![json_member(label, open + comma_separated(parts.push(part)) + close)]),
            part,
            parts.len() == 0,
        ),
{
    reveal_strlit("}");
    lemma_comma_separated_push(parts, part);
    let head = "{"@ + encode::json_string(label) + ":"@ + open;
    let list = comma_separated(parts);
    let shorter = json_object(seq![json_member(label, open + list + close)]);
    let longer = json_object(
        seq![json_member(label, open + comma_separated(parts.push(part)) + close)],
    );
    assert(shorter =~= head + list + close + "}"@);
    assert(longer =~= head + comma_separated(parts.push(part)) + close + "}"@);
    assert(shorter.take(shorter.len() - 2) =~= head + list);
    assert(shorter.skip(shorter.len() - 2) =~= close + "}"@);
    if parts.len() == 0 {
        assert(list =~= Seq::empty());
    }
    assert(longer =~= shorter.take(shorter.len() - 2) + (if parts.len() == 0 {
        Seq::empty()
    } else {
        ","@
    }) + part + shorter.skip(shorter.len() - 2));
}

/// Nothing inside a map, list or set is lost: each entry or element stands in the
/// native shape after those before it, a map's entries under their names, list elements
/// in native shape themselves, and set elements as text, binary in base64.
#[verifier::rlimit(30)]
pub proof fn law_native_collections_hold_every_part(
    entries: Seq<(Seq<char>, ValueView)>,
    elements: Seq<ValueView>,
    texts: Seq<Seq<char>>,
    blobs: Seq<Seq<u8>>,
    name: Seq<char>,
    value: ValueView,
    blob: Seq<u8>,
)
    ensures
        one_part_more(
            native_json(ValueView::M(entries)),
            native_json(ValueView::M(entries.push((name, value)))),
            named(name, native_json(value)),
            entries.len() == 0,
        ),
        one_part_more(
            native_json(ValueView::L(elements)),
            native_json(ValueView::L(elements.push(value))),
            native_json(value),
            elements.len() == 0,
        ),
        one_part_more(
            native_json(ValueView::Ss(texts)),
            native_json(ValueView::Ss(texts.push(name))),
            encode::json_string(name),
            texts.len() == 0,
        ),
        one_part_more(
            native_json(ValueView::Ns(texts)),
            native_json(ValueView::Ns(texts.push(name))),
            encode::json_string(name),
            texts.len() == 0,
        ),
        one_part_more(
            native_json(ValueView::Bs(blobs)),
            native_json(ValueView::Bs(blobs.push(blob))),
            encode::json_string(encode::base64_of(blob)),
            blobs.len() == 0,
        ),
{
    reveal_strlit("]");
    reveal_strlit("}");
    let maps = native_parts(ValueView::M(entries));
    assert(native_parts(ValueView::M(entries.push((name, value)))) =~= maps.push(
        named(name, native_json(value)),
    ));
    lemma_native_with_one_more("M"@, "{"@, "}"@, maps, named(name, native_json(value)));
    let lists = native_parts(ValueView::L(elements));
    assert(native_parts(ValueView::L(elements.push(value))) =~= lists.push(native_json(value)));
    lemma_native_with_one_more("L"@, "["@, "]"@, lists, native_json(value));
    let strings = native_parts(ValueView::Ss(texts));
    assert(native_parts(ValueView::Ss(texts.push(name))) =~= strings.push(
        encode::json_string(name),
    ));
    lemma_native_with_one_more("SS"@, "["@, "]"@, strings, encode::json_string(name));
    let numbers = native_parts(ValueView::Ns(texts));
    assert(native_parts(ValueView::Ns(texts.push(name))) =~= numbers.push(
        encode::json_string(name),
    ));
    lemma_native_with_one_more("NS"@, "["@, "]"@, numbers, encode::json_string(name));
    let bytes = native_parts(ValueView::Bs(blobs));
    let coded = encode::json_string(encode::base64_of(blob));
    assert(native_parts(ValueView::Bs(blobs.push(blob))) =~= bytes.push(coded));
    lemma_native_with_one_more("BS"@, "["@, "]"@, bytes, coded);
}

/// A CSV output gets the rows of a group, and an NDJSON output its record.
pub proof fn law_formats_write_their_own_text(group: ItemViolations)
    ensures
        group_bytes(ExportFormat::Csv, group) == vstd::utf8::encode_utf8(csv_rows(group)),
        group_bytes(ExportFormat::Ndjson, group) == vstd::utf8::encode_utf8(ndjson_line(group)),
{
}

/// The message of an error ends with what the outside error says of itself.
pub proof fn law_messages_end_with_the_cause(error: ExportError, cause: Seq<char>)
    ensures
        error_text(error, cause).len() >= cause.len(),
        error_text(error, cause).skip(error_text(error, cause).len() - cause.len()) == cause,
{
}

} // verus!
