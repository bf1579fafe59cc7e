//! Violation rule engine: pure key-schema and TTL checks.
//!
//! Owns the violation contract ([`Violation`], [`ItemViolations`]) and the rule
//! inputs ([`RuleSet`] and its per-index rules).

use vstd::prelude::*;
use crate::domain::{AttributeValue, Item, KeyAttribute, KeySchemaElement, TypeCode, ValueView};
use crate::encode;
use crate::text;

verus! {

/// The target bucket a violation belongs to.
#[derive(Debug, PartialEq, Eq)]
pub enum Target {
    Gsi(String),
    Lsi(String),
    Ttl,
}

/// The mathematical value of a [`Target`].
pub enum TargetView {
    Gsi(Seq<char>),
    Lsi(Seq<char>),
    Ttl,
}

impl View for Target {
    type V = TargetView;

    open spec fn view(&self) -> TargetView {
        match *self {
            Target::Gsi(name) => TargetView::Gsi(name@),
            Target::Lsi(name) => TargetView::Lsi(name@),
            Target::Ttl => TargetView::Ttl,
        }
    }
}

impl Clone for Target {
    fn clone(&self) -> (r: Self)
        ensures
            r == *self,
    {
        match self {
            Target::Gsi(name) => Target::Gsi(name.clone()),
            Target::Lsi(name) => Target::Lsi(name.clone()),
            Target::Ttl => Target::Ttl,
        }
    }
}

/// The category of a detected violation.
#[derive(Debug, Clone, Copy, PartialEq, Eq, Structural)]
pub enum ViolationCategory {
    TypeMismatch,
    SizeExceeded,
    MissingKey,
    TtlMissing,
    TtlWrongType,
    TtlMsMagnitude,
    TtlMalformed,
    TtlPastFiveYears,
}

/// A single violation of one rule against one item.
#[derive(Debug, PartialEq)]
pub struct Violation {
    pub target: Target,
    pub category: ViolationCategory,
    pub attribute: Option<String>,
    pub actual_value: Option<String>,
    pub actual_type: Option<String>,
    pub expected_type: Option<TypeCode>,
    pub size_bytes: Option<usize>,
}

/// The mathematical value of a [`Violation`].
pub struct ViolationView {
    pub target: TargetView,
    pub category: ViolationCategory,
    pub attribute: Option<Seq<char>>,
    pub actual_value: Option<Seq<char>>,
    pub actual_type: Option<Seq<char>>,
    pub expected_type: Option<TypeCode>,
    pub size_bytes: Option<nat>,
}

impl View for Violation {
    type V = ViolationView;

    open spec fn view(&self) -> ViolationView {
        ViolationView {
            target: self.target@,
            category: self.category,
            attribute: text::opt_view(self.attribute),
            actual_value: text::opt_view(self.actual_value),
            actual_type: text::opt_view(self.actual_type),
            expected_type: self.expected_type,
            size_bytes: match self.size_bytes {
                Some(n) => Some(n as nat),
                None => None,
            },
        }
    }
}

impl Clone for Violation {
    fn clone(&self) -> (r: Self)
        ensures
            r == *self,
    {
        Violation {
            target: self.target.clone(),
            category: self.category,
            attribute: self.attribute.clone(),
            actual_value: self.actual_value.clone(),
            actual_type: self.actual_type.clone(),
            expected_type: self.expected_type,
            size_bytes: self.size_bytes,
        }
    }
}

/// The mathematical values of a list of violations.
pub open spec fn views(violations: Seq<Violation>) -> Seq<ViolationView> {
    violations.map_values(|v: Violation| v@)
}

/// All violations detected against one item, grouped for export.
///
/// Carries the table's own primary key, by which the item can be fetched again,
/// and the full item.
#[derive(Debug, PartialEq)]
pub struct ItemViolations {
    pub table: String,
    pub pk: KeyAttribute,
    pub sk: Option<KeyAttribute>,
    pub item: Item,
    pub violations: Vec<Violation>,
    pub detected_at: i64,
}

/// The resolved set of checks a single scan will run.
#[derive(Debug, PartialEq)]
pub struct RuleSet {
    pub table: String,
    pub gsis: Vec<GsiRule>,
    pub lsis: Vec<LsiRule>,
    pub ttl: Option<TtlRule>,
}

/// A GSI to check, existing or hypothetical, with its resolved key schema.
#[derive(Debug, PartialEq)]
pub struct GsiRule {
    pub name: String,
    pub hypothetical: bool,
    pub pk: KeySchemaElement,
    pub sk: Option<KeySchemaElement>,
    pub check_missing: bool,
}

/// An LSI to check. The partition key equals the table's; only the sort key can
/// be missing, so type and size checks do not apply.
#[derive(Debug, PartialEq)]
pub struct LsiRule {
    pub name: String,
    pub sort_key: KeySchemaElement,
    pub check_missing: bool,
}

/// TTL checks for the scan.
#[derive(Debug, PartialEq)]
pub struct TtlRule {
    pub attribute: String,
    pub check_missing: bool,
    pub check_wrong_type: bool,
    pub check_ms_magnitude: bool,
    pub check_malformed: bool,
    pub check_past_5_years: bool,
}

/// The largest partition key value of an index, in bytes.
pub const MAX_PARTITION_KEY_BYTES: usize = 2048;

/// The largest sort key value of an index, in bytes.
pub const MAX_SORT_KEY_BYTES: usize = 1024;

/// A TTL value above this is taken for milliseconds.
pub const MS_MAGNITUDE: u128 = 100_000_000_000;

/// Five years of 365 days, in seconds: DynamoDB ignores a TTL value further in
/// the past.
pub const FIVE_YEARS_SECS: i128 = 157_680_000;

/// The DynamoDB type code of a value.
pub open spec fn type_label(value: ValueView) -> Seq<char> {
    match value {
        ValueView::S(_) => "S"@,
        ValueView::N(_) => "N"@,
        ValueView::B(_) => "B"@,
        ValueView::Bool(_) => "BOOL"@,
        ValueView::Null(_) => "NULL"@,
        ValueView::M(_) => "M"@,
        ValueView::L(_) => "L"@,
        ValueView::Ss(_) => "SS"@,
        ValueView::Ns(_) => "NS"@,
        ValueView::Bs(_) => "BS"@,
    }
}

/// A scalar value as text, with binary in base64; other values have none.
pub open spec fn scalar_text(value: ValueView) -> Option<Seq<char>> {
    match value {
        ValueView::S(s) => Some(s),
        ValueView::N(n) => Some(n),
        ValueView::B(b) => Some(encode::base64_of(b)),
        _ => None,
    }
}

/// The value has the declared type.
pub open spec fn has_type(value: ValueView, code: TypeCode) -> bool {
    match code {
        TypeCode::S => value is S,
        TypeCode::N => value is N,
        TypeCode::B => value is B,
    }
}

/// The size of a string in UTF-8 or of binary, in bytes.
pub open spec fn byte_size(value: ValueView) -> Option<nat> {
    match value {
        ValueView::S(s) => Some(vstd::utf8::encode_utf8(s).len()),
        ValueView::B(b) => Some(b.len()),
        _ => None,
    }
}

/// A violation by a value that the item holds.
pub open spec fn held_violation(
    target: TargetView,
    category: ViolationCategory,
    attribute: Seq<char>,
    value: ValueView,
    expected_type: Option<TypeCode>,
    size_bytes: Option<nat>,
) -> ViolationView {
    ViolationView {
        target,
        category,
        attribute: Some(attribute),
        actual_value: scalar_text(value),
        actual_type: Some(type_label(value)),
        expected_type,
        size_bytes,
    }
}

/// A violation by a value that the item lacks.
pub open spec fn absent_violation(
    target: TargetView,
    category: ViolationCategory,
    attribute: Seq<char>,
    expected_type: Option<TypeCode>,
) -> ViolationView {
    ViolationView {
        target,
        category,
        attribute: Some(attribute),
        actual_value: None,
        actual_type: None,
        expected_type,
        size_bytes: None,
    }
}

/// One element if `found`, else none.
pub open spec fn when(found: bool, violation: ViolationView) -> Seq<ViolationView> {
    if found {
        seq![violation]
    } else {
        Seq::empty()
    }
}

/// The violations of one key attribute of a GSI: a missing value if that check is
/// on, else a value of another type and a value over the size limit.
pub open spec fn key_violations(
    target: TargetView,
    element: KeySchemaElement,
    limit: nat,
    check_missing: bool,
    item: Map<Seq<char>, ValueView>,
) -> Seq<ViolationView> {
    let name = element.name@;
    let code = Some(element.type_code);
    if item.contains_key(name) {
        let value = item[name];
        when(
            !has_type(value, element.type_code),
            held_violation(target, ViolationCategory::TypeMismatch, name, value, code, None),
        ) + when(
            byte_size(value) is Some && byte_size(value)->0 > limit,
            held_violation(
                target,
                ViolationCategory::SizeExceeded,
                name,
                value,
                None,
                byte_size(value),
            ),
        )
    } else {
        when(
            check_missing,
            absent_violation(target, ViolationCategory::MissingKey, name, code),
        )
    }
}

/// The violations of a GSI: those of its partition key, then those of its sort key.
pub open spec fn gsi_violations(
    rule: GsiRule,
    item: Map<Seq<char>, ValueView>,
) -> Seq<ViolationView> {
    let target = TargetView::Gsi(rule.name@);
    key_violations(target, rule.pk, MAX_PARTITION_KEY_BYTES as nat, rule.check_missing, item) + (
    match rule.sk {
        Some(sk) => key_violations(
            target,
            sk,
            MAX_SORT_KEY_BYTES as nat,
            rule.check_missing,
            item,
        ),
        None => Seq::empty(),
    })
}

/// The violations of an LSI: its sort key is missing and that check is on.
pub open spec fn lsi_violations(
    rule: LsiRule,
    item: Map<Seq<char>, ValueView>,
) -> Seq<ViolationView> {
    when(
        rule.check_missing && !item.contains_key(rule.sort_key.name@),
        absent_violation(
            TargetView::Lsi(rule.name@),
            ViolationCategory::MissingKey,
            rule.sort_key.name@,
            Some(rule.sort_key.type_code),
        ),
    )
}

/// A TTL number that DynamoDB cannot use: no whole number, zero or negative.
pub open spec fn ttl_malformed(number: Seq<char>) -> bool {
    match text::integer(number) {
        Some(n) => n <= 0,
        None => true,
    }
}

/// A TTL number of millisecond magnitude.
pub open spec fn ttl_in_ms(number: Seq<char>) -> bool {
    text::integer(number) matches Some(n) && n > MS_MAGNITUDE
}

/// A usable TTL number more than five years before `now`.
pub open spec fn ttl_past_five_years(number: Seq<char>, now: int) -> bool {
    text::integer(number) matches Some(n) && 0 < n < now - FIVE_YEARS_SECS
}

/// The TTL violations of an item.
pub open spec fn ttl_violations(
    rule: TtlRule,
    item: Map<Seq<char>, ValueView>,
    now: int,
) -> Seq<ViolationView> {
    let name = rule.attribute@;
    let target = TargetView::Ttl;
    if !item.contains_key(name) {
        when(
            rule.check_missing,
            absent_violation(target, ViolationCategory::TtlMissing, name, None),
        )
    } else {
        let value = item[name];
        match value {
            ValueView::N(n) => when(
                rule.check_ms_magnitude && ttl_in_ms(n),
                held_violation(target, ViolationCategory::TtlMsMagnitude, name, value, None, None),
            ) + when(
                rule.check_malformed && ttl_malformed(n),
                held_violation(target, ViolationCategory::TtlMalformed, name, value, None, None),
            ) + when(
                rule.check_past_5_years && ttl_past_five_years(n, now),
                held_violation(
                    target,
                    ViolationCategory::TtlPastFiveYears,
                    name,
                    value,
                    None,
                    None,
                ),
            ),
            _ => when(
                rule.check_wrong_type,
                held_violation(
                    target,
                    ViolationCategory::TtlWrongType,
                    name,
                    value,
                    Some(TypeCode::N),
                    None,
                ),
            ),
        }
    }
}

/// The violations of an item: those of every GSI, then of every LSI, in the order
/// of the rules, then those of its TTL attribute.
pub open spec fn item_violations(
    item: Map<Seq<char>, ValueView>,
    rules: RuleSet,
    now: int,
) -> Seq<ViolationView> {
    rules.gsis@.flat_map(|rule: GsiRule| gsi_violations(rule, item)) + rules.lsis@.flat_map(
        |rule: LsiRule| lsi_violations(rule, item),
    ) + (match rules.ttl {
        Some(rule) => ttl_violations(rule, item, now),
        None => Seq::empty(),
    })
}

/// The DynamoDB type code of a value.
pub fn type_code_label(value: &AttributeValue) -> (r: &'static str)
    ensures
        r@ == type_label(value@),
{
    match value {
        AttributeValue::S(_) => "S",
        AttributeValue::N(_) => "N",
        AttributeValue::B(_) => "B",
        AttributeValue::Bool(_) => "BOOL",
        AttributeValue::Null(_) => "NULL",
        AttributeValue::M(_) => "M",
        AttributeValue::L(_) => "L",
        AttributeValue::Ss(_) => "SS",
        AttributeValue::Ns(_) => "NS",
        AttributeValue::Bs(_) => "BS",
    }
}

/// A scalar value as text, with binary in base64; other values have none.
pub fn scalar_value_text(value: &AttributeValue) -> (r: Option<String>)
    ensures
        text::opt_view(r) == scalar_text(value@),
{
    match value {
        AttributeValue::S(s) => Some(s.clone()),
        AttributeValue::N(n) => Some(n.clone()),
        AttributeValue::B(b) => Some(encode::base64_text(b)),
        _ => None,
    }
}

/// The size of a string in UTF-8 or of binary, in bytes.
fn size_of_value(value: &AttributeValue) -> (r: Option<usize>)
    ensures
        match r {
            Some(n) => byte_size(value@) == Some(n as nat),
            None => byte_size(value@) is None,
        },
{
    match value {
        AttributeValue::S(s) => Some(s.as_str().as_bytes().len()),
        AttributeValue::B(b) => Some(b.len()),
        _ => None,
    }
}

fn type_matches(value: &AttributeValue, code: TypeCode) -> (r: bool)
    ensures
        r == has_type(value@, code),
{
    match (code, value) {
        (TypeCode::S, AttributeValue::S(_)) => true,
        (TypeCode::N, AttributeValue::N(_)) => true,
        (TypeCode::B, AttributeValue::B(_)) => true,
        _ => false,
    }
}

fn held(
    target: &Target,
    category: ViolationCategory,
    attribute: &String,
    value: &AttributeValue,
    expected_type: Option<TypeCode>,
    size_bytes: Option<usize>,
) -> (r: Violation)
    ensures
        r@ == held_violation(
            target@,
            category,
            attribute@,
            value@,
            expected_type,
            match size_bytes {
                Some(n) => Some(n as nat),
                None => None,
            },
        ),
{
    Violation {
        target: target.clone(),
        category,
        attribute: Some(attribute.clone()),
        actual_value: scalar_value_text(value),
        actual_type: Some(type_code_label(value).to_owned()),
        expected_type,
        size_bytes,
    }
}

fn absent(
    target: &Target,
    category: ViolationCategory,
    attribute: &String,
    expected_type: Option<TypeCode>,
) -> (r: Violation)
    ensures
        r@ == absent_violation(target@, category, attribute@, expected_type),
{
    Violation {
        target: target.clone(),
        category,
        attribute: Some(attribute.clone()),
        actual_value: None,
        actual_type: None,
        expected_type,
        size_bytes: None,
    }
}

fn check_key(
    target: &Target,
    element: &KeySchemaElement,
    limit: usize,
    check_missing: bool,
    item: &Item,
    out: &mut Vec<Violation>,
)
    ensures
        views(final(out)@) == views(old(out)@) + key_violations(
            target@,
            *element,
            limit as nat,
            check_missing,
            item@,
        ),
{
    let ghost before = views(out@);
    match item.get(element.name.as_str()) {
        Some(value) => {
            if !type_matches(value, element.type_code) {
                out.push(
                    held(
                        target,
                        ViolationCategory::TypeMismatch,
                        &element.name,
                        value,
                        Some(element.type_code),
                        None,
                    ),
                );
            }
            if let Some(size) = size_of_value(value) {
                if size > limit {
                    out.push(
                        held(
                            target,
                            ViolationCategory::SizeExceeded,
                            &element.name,
                            value,
                            None,
                            Some(size),
                        ),
                    );
                }
            }
        },
        None => {
            if check_missing {
                out.push(
                    absent(
                        target,
                        ViolationCategory::MissingKey,
                        &element.name,
                        Some(element.type_code),
                    ),
                );
            }
        },
    }
    assert(views(out@) =~= before + key_violations(
        target@,
        *element,
        limit as nat,
        check_missing,
        item@,
    ));
}

/// Adds the violations of a GSI to `out`.
pub fn check_gsi(rule: &GsiRule, item: &Item, out: &mut Vec<Violation>)
    ensures
        views(final(out)@) == views(old(out)@) + gsi_violations(*rule, item@),
{
    let target = Target::Gsi(rule.name.clone());
    check_key(&target, &rule.pk, MAX_PARTITION_KEY_BYTES, rule.check_missing, item, out);
    if let Some(sk) = &rule.sk {
        check_key(&target, sk, MAX_SORT_KEY_BYTES, rule.check_missing, item, out);
    }
    assert(views(out@) =~= views(old(out)@) + gsi_violations(*rule, item@));
}

/// Adds the violations of an LSI to `out`.
pub fn check_lsi(rule: &LsiRule, item: &Item, out: &mut Vec<Violation>)
    ensures
        views(final(out)@) == views(old(out)@) + lsi_violations(*rule, item@),
{
    let ghost before = views(out@);
    if rule.check_missing && item.get(rule.sort_key.name.as_str()).is_none() {
        let target = Target::Lsi(rule.name.clone());
        out.push(
            absent(
                &target,
                ViolationCategory::MissingKey,
                &rule.sort_key.name,
                Some(rule.sort_key.type_code),
            ),
        );
    }
    assert(views(out@) =~= before + lsi_violations(*rule, item@));
}

/// Adds the TTL violations to `out`, for a scan at the Unix time `now`.
pub fn check_ttl(rule: &TtlRule, item: &Item, now: i64, out: &mut Vec<Violation>)
    ensures
        views(final(out)@) == views(old(out)@) + ttl_violations(*rule, item@, now as int),
{
    let ghost before = views(out@);
    let name = &rule.attribute;
    let target = Target::Ttl;
    match item.get(name.as_str()) {
        None => {
            if rule.check_missing {
                out.push(absent(&target, ViolationCategory::TtlMissing, name, None));
            }
        },
        Some(value) => match value {
            AttributeValue::N(n) => {
                let number = text::parse_integer(n.as_str());
                let (ms, malformed, past) = match &number {
                    Some(x) => {
                        let positive = !x.negative && x.magnitude > 0;
                        let cutoff: i128 = now as i128 - FIVE_YEARS_SECS;
                        (
                            positive && x.magnitude > MS_MAGNITUDE,
                            !positive,
                            positive && cutoff > 0 && x.magnitude < cutoff as u128,
                        )
                    },
                    None => (false, true, false),
                };
                assert(ms == ttl_in_ms(n@));
                assert(malformed == ttl_malformed(n@));
                assert(past == ttl_past_five_years(n@, now as int));
                if rule.check_ms_magnitude && ms {
                    out.push(
                        held(&target, ViolationCategory::TtlMsMagnitude, name, value, None, None),
                    );
                }
                if rule.check_malformed && malformed {
                    out.push(
                        held(&target, ViolationCategory::TtlMalformed, name, value, None, None),
                    );
                }
                if rule.check_past_5_years && past {
                    out.push(
                        held(&target, ViolationCategory::TtlPastFiveYears, name, value, None, None),
                    );
                }
            },
            _ => {
                if rule.check_wrong_type {
                    out.push(
                        held(
                            &target,
                            ViolationCategory::TtlWrongType,
                            name,
                            value,
                            Some(TypeCode::N),
                            None,
                        ),
                    );
                }
            },
        },
    }
    assert(views(out@) =~= before + ttl_violations(*rule, item@, now as int));
}

/// Evaluates one item against every rule of a scan at the Unix time `now`.
pub fn check_item(item: &Item, rules: &RuleSet, now: i64) -> (r: Vec<Violation>)
    ensures
        views(r@) == item_violations(item@, *rules, now as int),
{
    let mut out: Vec<Violation> = Vec::new();
    let ghost gsi = |rule: GsiRule| gsi_violations(rule, item@);
    let ghost lsi = |rule: LsiRule| lsi_violations(rule, item@);
    assert(views(out@) =~= rules.gsis@.take(0).flat_map(gsi));
    let mut i: usize = 0;
    while i < rules.gsis.len()
        invariant
            i <= rules.gsis@.len(),
            gsi == (|rule: GsiRule| gsi_violations(rule, item@)),
            views(out@) == rules.gsis@.take(i as int).flat_map(gsi),
        decreases rules.gsis@.len() - i,
    {
        check_gsi(&rules.gsis[i], item, &mut out);
        proof {
            rules.gsis@.lemma_flat_map_take_append(gsi, i as int);
        }
        i += 1;
    }
    assert(rules.gsis@.take(i as int) =~= rules.gsis@);
    let ghost of_gsis = views(out@);
    assert(rules.lsis@.take(0).flat_map(lsi) =~= Seq::<ViolationView>::empty());
    assert(views(out@) =~= of_gsis + rules.lsis@.take(0).flat_map(lsi));
    let mut j: usize = 0;
    while j < rules.lsis.len()
        invariant
            j <= rules.lsis@.len(),
            lsi == (|rule: LsiRule| lsi_violations(rule, item@)),
            views(out@) == of_gsis + rules.lsis@.take(j as int).flat_map(lsi),
        decreases rules.lsis@.len() - j,
    {
        check_lsi(&rules.lsis[j], item, &mut out);
        proof {
            rules.lsis@.lemma_flat_map_take_append(lsi, j as int);
        }
        j += 1;
    }
    assert(rules.lsis@.take(j as int) =~= rules.lsis@);
    if let Some(rule) = &rules.ttl {
        check_ttl(rule, item, now, &mut out);
    }
    assert(views(out@) =~= item_violations(item@, *rules, now as int));
    out
}

/// An item is reported for a violation exactly if one of the rules, taken on its
/// own, finds it: no rule hides what another one finds.
pub proof fn law_rules_are_independent(
    item: Map<Seq<char>, ValueView>,
    rules: RuleSet,
    now: int,
    violation: ViolationView,
)
    ensures
        item_violations(item, rules, now).contains(violation) <==> {
            ||| exists|i: int|
                0 <= i < rules.gsis@.len() && gsi_violations(
                    #[trigger] rules.gsis@[i],
                    item,
                ).contains(violation)
            ||| exists|i: int|
                0 <= i < rules.lsis@.len() && lsi_violations(
                    #[trigger] rules.lsis@[i],
                    item,
                ).contains(violation)
            ||| rules.ttl matches Some(rule) && ttl_violations(rule, item, now).contains(violation)
        },
{
    let gsi = |rule: GsiRule| gsi_violations(rule, item);
    let lsi = |rule: LsiRule| lsi_violations(rule, item);
    text::lemma_flat_map_contains(rules.gsis@, gsi, violation);
    text::lemma_flat_map_contains(rules.lsis@, lsi, violation);
    let of_gsis = rules.gsis@.flat_map(gsi);
    let of_lsis = rules.lsis@.flat_map(lsi);
    let of_ttl = match rules.ttl {
        Some(rule) => ttl_violations(rule, item, now),
        None => Seq::empty(),
    };
    let all = item_violations(item, rules, now);
    assert(all == of_gsis + of_lsis + of_ttl);
    if all.contains(violation) {
        let k = choose|k: int| 0 <= k < all.len() && all[k] == violation;
        if k < of_gsis.len() {
            assert(of_gsis[k] == violation);
            let i = choose|i: int|
                0 <= i < rules.gsis@.len() && gsi(#[trigger] rules.gsis@[i]).contains(violation);
            assert(gsi_violations(rules.gsis@[i], item).contains(violation));
        } else if k < of_gsis.len() + of_lsis.len() {
            assert(of_lsis[k - of_gsis.len()] == violation);
            let i = choose|i: int|
                0 <= i < rules.lsis@.len() && lsi(#[trigger] rules.lsis@[i]).contains(violation);
            assert(lsi_violations(rules.lsis@[i], item).contains(violation));
        } else {
            assert(of_ttl[k - of_gsis.len() - of_lsis.len()] == violation);
        }
    }
    if exists|i: int|
        0 <= i < rules.gsis@.len() && gsi_violations(#[trigger] rules.gsis@[i], item).contains(
            violation,
        ) {
        let i = choose|i: int|
            0 <= i < rules.gsis@.len() && gsi_violations(#[trigger] rules.gsis@[i], item).contains(
                violation,
            );
        assert(gsi(rules.gsis@[i]).contains(violation));
        let k = choose|k: int| 0 <= k < of_gsis.len() && of_gsis[k] == violation;
        assert(all[k] == violation);
    }
    if exists|i: int|
        0 <= i < rules.lsis@.len() && lsi_violations(#[trigger] rules.lsis@[i], item).contains(
            violation,
        ) {
        let i = choose|i: int|
            0 <= i < rules.lsis@.len() && lsi_violations(#[trigger] rules.lsis@[i], item).contains(
                violation,
            );
        assert(lsi(rules.lsis@[i]).contains(violation));
        let k = choose|k: int| 0 <= k < of_lsis.len() && of_lsis[k] == violation;
        assert(all[of_gsis.len() + k] == violation);
    }
    if of_ttl.contains(violation) {
        let k = choose|k: int| 0 <= k < of_ttl.len() && of_ttl[k] == violation;
        assert(all[of_gsis.len() + of_lsis.len() + k] == violation);
    }
}

/// Sparse indexes are respected: an item that lacks every key attribute of a GSI
/// whose missing-key check is off is not reported for it.
pub proof fn law_sparse_gsi_is_respected(rule: GsiRule, item: Map<Seq<char>, ValueView>)
    requires
        !rule.check_missing,
        !item.contains_key(rule.pk.name@),
        rule.sk matches Some(sk) ==> !item.contains_key(sk.name@),
    ensures
        gsi_violations(rule, item) == Seq::<ViolationView>::empty(),
{
    assert(gsi_violations(rule, item) =~= Seq::<ViolationView>::empty());
}

/// With the missing-key check off no missing key is ever reported, of a GSI or of an
/// LSI.
pub proof fn law_missing_key_needs_its_toggle(
    gsi: GsiRule,
    lsi: LsiRule,
    item: Map<Seq<char>, ValueView>,
    violation: ViolationView,
)
    ensures
        !gsi.check_missing && gsi_violations(gsi, item).contains(violation)
            ==> violation.category != ViolationCategory::MissingKey,
        !lsi.check_missing ==> lsi_violations(lsi, item).len() == 0,
{
}

/// Type and size checks never apply to an LSI: all it reports is a missing sort key.
pub proof fn law_lsi_reports_only_missing_keys(
    rule: LsiRule,
    item: Map<Seq<char>, ValueView>,
    violation: ViolationView,
)
    requires
        lsi_violations(rule, item).contains(violation),
    ensures
        violation.category == ViolationCategory::MissingKey,
        violation.target == TargetView::Lsi(rule.name@),
{
}

/// A category that a key of a GSI can be reported for.
pub open spec fn is_gsi_category(category: ViolationCategory) -> bool {
    ||| category == ViolationCategory::TypeMismatch
    ||| category == ViolationCategory::SizeExceeded
    ||| category == ViolationCategory::MissingKey
}

/// A category that a TTL attribute can be reported for.
pub open spec fn is_ttl_category(category: ViolationCategory) -> bool {
    ||| category == ViolationCategory::TtlMissing
    ||| category == ViolationCategory::TtlWrongType
    ||| category == ViolationCategory::TtlMsMagnitude
    ||| category == ViolationCategory::TtlMalformed
    ||| category == ViolationCategory::TtlPastFiveYears
}

proof fn lemma_gsi_target(rule: GsiRule, item: Map<Seq<char>, ValueView>, violation: ViolationView)
    requires
        gsi_violations(rule, item).contains(violation),
    ensures
        violation.target == TargetView::Gsi(rule.name@),
        is_gsi_category(violation.category),
{
}

proof fn lemma_ttl_target(
    rule: TtlRule,
    item: Map<Seq<char>, ValueView>,
    now: int,
    violation: ViolationView,
)
    requires
        ttl_violations(rule, item, now).contains(violation),
    ensures
        violation.target == TargetView::Ttl,
        is_ttl_category(violation.category),
{
}

/// Every violation stands in the bucket of the rule that found it: key violations
/// under their index, TTL violations under TTL.
pub proof fn law_violations_stand_under_their_target(
    item: Map<Seq<char>, ValueView>,
    rules: RuleSet,
    now: int,
    violation: ViolationView,
)
    requires
        item_violations(item, rules, now).contains(violation),
    ensures
        match violation.target {
            TargetView::Gsi(name) => {
                &&& exists|i: int|
                    0 <= i < rules.gsis@.len() && (#[trigger] rules.gsis@[i]).name@ == name
                &&& is_gsi_category(violation.category)
            },
            TargetView::Lsi(name) => {
                &&& exists|i: int|
                    0 <= i < rules.lsis@.len() && (#[trigger] rules.lsis@[i]).name@ == name
                &&& violation.category == ViolationCategory::MissingKey
            },
            TargetView::Ttl => {
                &&& rules.ttl is Some
                &&& is_ttl_category(violation.category)
            },
        },
{
    law_rules_are_independent(item, rules, now, violation);
    if exists|i: int|
        0 <= i < rules.gsis@.len() && gsi_violations(#[trigger] rules.gsis@[i], item).contains(
            violation,
        ) {
        let i = choose|i: int|
            0 <= i < rules.gsis@.len() && gsi_violations(#[trigger] rules.gsis@[i], item).contains(
                violation,
            );
        lemma_gsi_target(rules.gsis@[i], item, violation);
    } else if exists|i: int|
        0 <= i < rules.lsis@.len() && lsi_violations(#[trigger] rules.lsis@[i], item).contains(
            violation,
        ) {
        let i = choose|i: int|
            0 <= i < rules.lsis@.len() && lsi_violations(#[trigger] rules.lsis@[i], item).contains(
                violation,
            );
        law_lsi_reports_only_missing_keys(rules.lsis@[i], item, violation);
    } else {
        lemma_ttl_target(rules.ttl->0, item, now, violation);
    }
}

/// A key attribute with a value of the declared type within the size limit.
pub open spec fn key_conforms(
    element: KeySchemaElement,
    limit: nat,
    item: Map<Seq<char>, ValueView>,
) -> bool {
    &&& item.contains_key(element.name@)
    &&& has_type(item[element.name@], element.type_code)
    &&& byte_size(item[element.name@]) matches Some(n) ==> n <= limit
}

/// An item whose keys fit every index and whose TTL is a usable number of seconds.
pub open spec fn conforms(item: Map<Seq<char>, ValueView>, rules: RuleSet, now: int) -> bool {
    &&& forall|i: int|
        0 <= i < rules.gsis@.len() ==> {
            &&& key_conforms(
                (#[trigger] rules.gsis@[i]).pk,
                MAX_PARTITION_KEY_BYTES as nat,
                item,
            )
            &&& rules.gsis@[i].sk matches Some(sk) ==> key_conforms(
                sk,
                MAX_SORT_KEY_BYTES as nat,
                item,
            )
        }
    &&& forall|i: int|
        0 <= i < rules.lsis@.len() ==> item.contains_key(
            (#[trigger] rules.lsis@[i]).sort_key.name@,
        )
    &&& rules.ttl matches Some(rule) ==> {
        &&& item.contains_key(rule.attribute@)
        &&& item[rule.attribute@] matches ValueView::N(n) && text::integer(n) matches Some(secs)
            && 0 < secs <= MS_MAGNITUDE && now - FIVE_YEARS_SECS <= secs
    }
}

/// An item that fits its indexes and has a usable TTL is never reported, whichever
/// checks are on.
pub proof fn law_conforming_item_is_not_reported(
    item: Map<Seq<char>, ValueView>,
    rules: RuleSet,
    now: int,
)
    requires
        conforms(item, rules, now),
    ensures
        item_violations(item, rules, now).len() == 0,
{
    let all = item_violations(item, rules, now);
    if all.len() > 0 {
        assert(all.contains(all[0]));
        law_rules_are_independent(item, rules, now, all[0]);
        assert(false);
    }
}

/// Only the five-year check looks at the clock: with it off, the time of the scan
/// makes no difference.
pub proof fn law_only_the_five_year_check_depends_on_time(
    item: Map<Seq<char>, ValueView>,
    rules: RuleSet,
    now: int,
    later: int,
)
    requires
        rules.ttl matches Some(rule) ==> !rule.check_past_5_years,
    ensures
        item_violations(item, rules, now) == item_violations(item, rules, later),
{
}

/// Without rules nothing is reported.
pub proof fn law_no_rules_no_violations(
    item: Map<Seq<char>, ValueView>,
    rules: RuleSet,
    now: int,
)
    requires
        rules.gsis@.len() == 0,
        rules.lsis@.len() == 0,
        rules.ttl is None,
    ensures
        item_violations(item, rules, now).len() == 0,
{
    law_conforming_item_is_not_reported(item, rules, now);
}

/// The value as a violation shows it: a string or number by its text, binary in
/// base64, and any other value not at all.
pub open spec fn shown_value(value: ValueView) -> Option<Seq<char>> {
    if value is S {
        Some(value->S_0)
    } else if value is N {
        Some(value->N_0)
    } else if value is B {
        Some(encode::base64_of(value->B_0))
    } else {
        None
    }
}

/// The type code of the value, as DynamoDB names it.
pub open spec fn shown_type(value: ValueView) -> Seq<char> {
    if value is S {
        "S"@
    } else if value is N {
        "N"@
    } else if value is B {
        "B"@
    } else if value is Bool {
        "BOOL"@
    } else if value is Null {
        "NULL"@
    } else if value is M {
        "M"@
    } else if value is L {
        "L"@
    } else if value is Ss {
        "SS"@
    } else if value is Ns {
        "NS"@
    } else {
        "BS"@
    }
}

/// The partition key of a GSI, or its sort key.
pub open spec fn key_of(rule: GsiRule, sort: bool) -> KeySchemaElement {
    if sort {
        rule.sk->0
    } else {
        rule.pk
    }
}

proof fn lemma_part_of_gsi(
    item: Map<Seq<char>, ValueView>,
    rules: RuleSet,
    now: int,
    g: int,
    sort: bool,
    k: int,
)
    requires
        0 <= g < rules.gsis@.len(),
        sort ==> rules.gsis@[g].sk is Some,
        0 <= k < key_violations(
            TargetView::Gsi(rules.gsis@[g].name@),
            key_of(rules.gsis@[g], sort),
            if sort {
                MAX_SORT_KEY_BYTES as nat
            } else {
                MAX_PARTITION_KEY_BYTES as nat
            },
            rules.gsis@[g].check_missing,
            item,
        ).len(),
    ensures
        item_violations(item, rules, now).contains(
            key_violations(
                TargetView::Gsi(rules.gsis@[g].name@),
                key_of(rules.gsis@[g], sort),
                if sort {
                    MAX_SORT_KEY_BYTES as nat
                } else {
                    MAX_PARTITION_KEY_BYTES as nat
                },
                rules.gsis@[g].check_missing,
                item,
            )[k],
        ),
{
    let rule = rules.gsis@[g];
    let target = TargetView::Gsi(rule.name@);
    let of_pk = key_violations(
        target,
        rule.pk,
        MAX_PARTITION_KEY_BYTES as nat,
        rule.check_missing,
        item,
    );
    let all = gsi_violations(rule, item);
    if sort {
        let of_sk = key_violations(
            target,
            rule.sk->0,
            MAX_SORT_KEY_BYTES as nat,
            rule.check_missing,
            item,
        );
        assert(all =~= of_pk + of_sk);
        assert(all[of_pk.len() + k] == of_sk[k]);
        law_rules_are_independent(item, rules, now, of_sk[k]);
    } else {
        assert(all[k] == of_pk[k]);
        law_rules_are_independent(item, rules, now, of_pk[k]);
    }
}

/// The type check is always on, for the partition key and the sort key of every GSI
/// alike: a key attribute that an item holds with a value of another type than the
/// declared one is reported, with the value, its type and the declared type.
pub proof fn law_key_of_another_type_is_reported(
    item: Map<Seq<char>, ValueView>,
    rules: RuleSet,
    now: int,
    g: int,
    sort: bool,
)
    requires
        0 <= g < rules.gsis@.len(),
        sort ==> rules.gsis@[g].sk is Some,
        item.contains_key(key_of(rules.gsis@[g], sort).name@),
        match key_of(rules.gsis@[g], sort).type_code {
            TypeCode::S => item[key_of(rules.gsis@[g], sort).name@] !is S,
            TypeCode::N => item[key_of(rules.gsis@[g], sort).name@] !is N,
            TypeCode::B => item[key_of(rules.gsis@[g], sort).name@] !is B,
        },
    ensures
        item_violations(item, rules, now).contains(
            ViolationView {
                target: TargetView::Gsi(rules.gsis@[g].name@),
                category: ViolationCategory::TypeMismatch,
                attribute: Some(key_of(rules.gsis@[g], sort).name@),
                actual_value: shown_value(item[key_of(rules.gsis@[g], sort).name@]),
                actual_type: Some(shown_type(item[key_of(rules.gsis@[g], sort).name@])),
                expected_type: Some(key_of(rules.gsis@[g], sort).type_code),
                size_bytes: None,
            },
        ),
{
    lemma_part_of_gsi(item, rules, now, g, sort, 0);
}

/// The size check is always on: a string or binary key over 2048 bytes for a
/// partition key, or over 1024 for a sort key, is reported with its size, whatever
/// else is wrong with it. A string is measured in UTF-8.
pub proof fn law_key_over_its_limit_is_reported(
    item: Map<Seq<char>, ValueView>,
    rules: RuleSet,
    now: int,
    g: int,
    sort: bool,
    size: nat,
)
    requires
        0 <= g < rules.gsis@.len(),
        sort ==> rules.gsis@[g].sk is Some,
        item.contains_key(key_of(rules.gsis@[g], sort).name@),
        match item[key_of(rules.gsis@[g], sort).name@] {
            ValueView::S(s) => size == vstd::utf8::encode_utf8(s).len(),
            ValueView::B(b) => size == b.len(),
            _ => false,
        },
        size > if sort {
            1024nat
        } else {
            2048nat
        },
    ensures
        item_violations(item, rules, now).contains(
            ViolationView {
                target: TargetView::Gsi(rules.gsis@[g].name@),
                category: ViolationCategory::SizeExceeded,
                attribute: Some(key_of(rules.gsis@[g], sort).name@),
                actual_value: shown_value(item[key_of(rules.gsis@[g], sort).name@]),
                actual_type: Some(shown_type(item[key_of(rules.gsis@[g], sort).name@])),
                expected_type: None,
                size_bytes: Some(size),
            },
        ),
{
    let key = key_of(rules.gsis@[g], sort);
    let k: int = if has_type(item[key.name@], key.type_code) {
        0
    } else {
        1
    };
    lemma_part_of_gsi(item, rules, now, g, sort, k);
}

/// With the check on, a key attribute that an item lacks is reported: of a GSI, its
/// partition key as well as its sort key, and of an LSI its sort key.
pub proof fn law_missing_key_is_reported(
    item: Map<Seq<char>, ValueView>,
    rules: RuleSet,
    now: int,
    g: int,
    sort: bool,
)
    ensures
        0 <= g < rules.gsis@.len() && rules.gsis@[g].check_missing && (sort
            ==> rules.gsis@[g].sk is Some) && !item.contains_key(
            key_of(rules.gsis@[g], sort).name@,
        ) ==> item_violations(item, rules, now).contains(
            ViolationView {
                target: TargetView::Gsi(rules.gsis@[g].name@),
                category: ViolationCategory::MissingKey,
                attribute: Some(key_of(rules.gsis@[g], sort).name@),
                actual_value: None,
                actual_type: None,
                expected_type: Some(key_of(rules.gsis@[g], sort).type_code),
                size_bytes: None,
            },
        ),
        0 <= g < rules.lsis@.len() && rules.lsis@[g].check_missing && !item.contains_key(
            rules.lsis@[g].sort_key.name@,
        ) ==> item_violations(item, rules, now).contains(
            ViolationView {
                target: TargetView::Lsi(rules.lsis@[g].name@),
                category: ViolationCategory::MissingKey,
                attribute: Some(rules.lsis@[g].sort_key.name@),
                actual_value: None,
                actual_type: None,
                expected_type: Some(rules.lsis@[g].sort_key.type_code),
                size_bytes: None,
            },
        ),
{
    if 0 <= g < rules.gsis@.len() && rules.gsis@[g].check_missing && (sort
        ==> rules.gsis@[g].sk is Some) && !item.contains_key(key_of(rules.gsis@[g], sort).name@) {
        lemma_part_of_gsi(item, rules, now, g, sort, 0);
    }
    if 0 <= g < rules.lsis@.len() && rules.lsis@[g].check_missing && !item.contains_key(
        rules.lsis@[g].sort_key.name@,
    ) {
        let found = lsi_violations(rules.lsis@[g], item);
        assert(found.contains(found[0]));
        law_rules_are_independent(item, rules, now, found[0]);
    }
}

/// What the violation says of a key of the GSI is so: the item lacks the key and that
/// is checked, or holds it with another type than declared, or over its limit.
pub open spec fn is_breach(
    item: Map<Seq<char>, ValueView>,
    rule: GsiRule,
    sort: bool,
    violation: ViolationView,
) -> bool {
    let key = key_of(rule, sort);
    let value = item[key.name@];
    &&& violation.target == TargetView::Gsi(rule.name@)
    &&& sort ==> rule.sk is Some
    &&& violation.attribute == Some(key.name@)
    &&& match violation.category {
        ViolationCategory::TypeMismatch => {
            &&& item.contains_key(key.name@)
            &&& match key.type_code {
                TypeCode::S => value !is S,
                TypeCode::N => value !is N,
                TypeCode::B => value !is B,
            }
            &&& violation.actual_value == shown_value(value)
            &&& violation.actual_type == Some(shown_type(value))
            &&& violation.expected_type == Some(key.type_code)
            &&& violation.size_bytes is None
        },
        ViolationCategory::SizeExceeded => {
            &&& item.contains_key(key.name@)
            &&& match value {
                ValueView::S(s) => violation.size_bytes == Some(vstd::utf8::encode_utf8(s).len()),
                ValueView::B(b) => violation.size_bytes == Some(b.len()),
                _ => false,
            }
            &&& violation.size_bytes->0 > if sort {
                1024nat
            } else {
                2048nat
            }
            &&& violation.actual_value == shown_value(value)
            &&& violation.actual_type == Some(shown_type(value))
            &&& violation.expected_type is None
        },
        ViolationCategory::MissingKey => {
            &&& rule.check_missing
            &&& !item.contains_key(key.name@)
            &&& violation.actual_value is None
            &&& violation.actual_type is None
            &&& violation.expected_type == Some(key.type_code)
            &&& violation.size_bytes is None
        },
        _ => false,
    }
}

proof fn lemma_gsi_cause(
    item: Map<Seq<char>, ValueView>,
    rule: GsiRule,
    violation: ViolationView,
) -> (sort: bool)
    requires
        gsi_violations(rule, item).contains(violation),
    ensures
        is_breach(item, rule, sort, violation),
{
    let target = TargetView::Gsi(rule.name@);
    let of_pk = key_violations(
        target,
        rule.pk,
        MAX_PARTITION_KEY_BYTES as nat,
        rule.check_missing,
        item,
    );
    let all = gsi_violations(rule, item);
    let k = choose|k: int| 0 <= k < all.len() && all[k] == violation;
    if k < of_pk.len() {
        assert(all[k] == of_pk[k]);
        false
    } else {
        let of_sk = key_violations(
            target,
            rule.sk->0,
            MAX_SORT_KEY_BYTES as nat,
            rule.check_missing,
            item,
        );
        assert(all[k] == of_sk[k - of_pk.len()]);
        true
    }
}

/// Nothing is reported of a GSI or an LSI without cause: every violation is a breach
/// of a key of an index of that name.
pub proof fn law_key_violations_have_cause(
    item: Map<Seq<char>, ValueView>,
    rules: RuleSet,
    now: int,
    violation: ViolationView,
)
    requires
        item_violations(item, rules, now).contains(violation),
    ensures
        violation.target is Gsi ==> exists|g: int, sort: bool|
            0 <= g < rules.gsis@.len() && #[trigger] is_breach(
                item,
                rules.gsis@[g],
                sort,
                violation,
            ),
        violation.target matches TargetView::Lsi(name) ==> exists|l: int|
            {
                &&& 0 <= l < rules.lsis@.len()
                &&& (#[trigger] rules.lsis@[l]).name@ == name
                &&& rules.lsis@[l].check_missing
                &&& !item.contains_key(rules.lsis@[l].sort_key.name@)
                &&& violation.category == ViolationCategory::MissingKey
                &&& violation.attribute == Some(rules.lsis@[l].sort_key.name@)
                &&& violation.expected_type == Some(rules.lsis@[l].sort_key.type_code)
            },
{
    law_rules_are_independent(item, rules, now, violation);
    if exists|i: int|
        0 <= i < rules.gsis@.len() && gsi_violations(#[trigger] rules.gsis@[i], item).contains(
            violation,
        ) {
        let g = choose|i: int|
            0 <= i < rules.gsis@.len() && gsi_violations(#[trigger] rules.gsis@[i], item).contains(
                violation,
            );
        let sort = lemma_gsi_cause(item, rules.gsis@[g], violation);
        assert(is_breach(item, rules.gsis@[g], sort, violation));
    } else if exists|i: int|
        0 <= i < rules.lsis@.len() && lsi_violations(#[trigger] rules.lsis@[i], item).contains(
            violation,
        ) {
        let l = choose|i: int|
            0 <= i < rules.lsis@.len() && lsi_violations(#[trigger] rules.lsis@[i], item).contains(
                violation,
            );
        assert(rules.lsis@[l].name@ == rules.lsis@[l].name@);
    } else {
        lemma_ttl_target(rules.ttl->0, item, now, violation);
    }
}

/// How often a key attribute of a GSI is reported: once if it is missing and that is
/// checked, else once for its type and once for its size, as far as they are wrong.
pub open spec fn breaches(item: Map<Seq<char>, ValueView>, rule: GsiRule, sort: bool) -> nat {
    let key = key_of(rule, sort);
    let value = item[key.name@];
    let limit = if sort {
        1024nat
    } else {
        2048nat
    };
    if sort && rule.sk is None {
        0
    } else if !item.contains_key(key.name@) {
        if rule.check_missing {
            1
        } else {
            0
        }
    } else {
        (if (value is S && key.type_code == TypeCode::S) || (value is N && key.type_code
            == TypeCode::N) || (value is B && key.type_code == TypeCode::B) {
            0nat
        } else {
            1nat
        }) + (if (value is S && vstd::utf8::encode_utf8(value->S_0).len() > limit) || (value is B
            && value->B_0.len() > limit) {
            1nat
        } else {
            0nat
        })
    }
}

/// No breach is reported twice: a scan against one GSI reports as many violations as
/// its keys have breaches, and a scan against one LSI at most one.
pub proof fn law_each_breach_is_reported_once(
    item: Map<Seq<char>, ValueView>,
    rules: RuleSet,
    now: int,
)
    requires
        rules.ttl is None,
    ensures
        rules.gsis@.len() == 1 && rules.lsis@.len() == 0 ==> item_violations(
            item,
            rules,
            now,
        ).len() == breaches(item, rules.gsis@[0], false) + breaches(item, rules.gsis@[0], true),
        rules.gsis@.len() == 0 && rules.lsis@.len() == 1 ==> item_violations(
            item,
            rules,
            now,
        ).len() <= 1,
{
    let gsi = |rule: GsiRule| gsi_violations(rule, item);
    let lsi = |rule: LsiRule| lsi_violations(rule, item);
    if rules.gsis@.len() == 1 && rules.lsis@.len() == 0 {
        rules.gsis@.lemma_flat_map_singleton(gsi);
        assert(rules.lsis@.flat_map(lsi) =~= Seq::empty());
    } else if rules.gsis@.len() == 0 && rules.lsis@.len() == 1 {
        rules.lsis@.lemma_flat_map_singleton(lsi);
        assert(rules.gsis@.flat_map(gsi) =~= Seq::empty());
    }
}

/// A rule more adds what it finds on its own and changes nothing else: GSIs come
/// before LSIs, and both in the order of the rules, before TTL.
pub proof fn law_rules_report_in_order(
    item: Map<Seq<char>, ValueView>,
    rules: RuleSet,
    gsi_more: RuleSet,
    lsi_more: RuleSet,
    gsi_alone: RuleSet,
    lsi_alone: RuleSet,
    gsi: GsiRule,
    lsi: LsiRule,
    now: int,
)
    requires
        rules.ttl is None,
        gsi_more.ttl is None,
        lsi_more.ttl is None,
        gsi_alone.ttl is None,
        lsi_alone.ttl is None,
        rules.lsis@.len() == 0,
        gsi_more.gsis@ == rules.gsis@.push(gsi),
        gsi_more.lsis@.len() == 0,
        gsi_alone.gsis@ == seq![gsi],
        gsi_alone.lsis@.len() == 0,
        lsi_more.gsis@ == rules.gsis@,
        lsi_more.lsis@ == seq![lsi],
        lsi_alone.gsis@.len() == 0,
        lsi_alone.lsis@ == seq![lsi],
    ensures
        item_violations(item, gsi_more, now) == item_violations(item, rules, now)
            + item_violations(item, gsi_alone, now),
        item_violations(item, lsi_more, now) == item_violations(item, rules, now)
            + item_violations(item, lsi_alone, now),
{
    let of_gsi = |rule: GsiRule| gsi_violations(rule, item);
    let of_lsi = |rule: LsiRule| lsi_violations(rule, item);
    rules.gsis@.lemma_flat_map_push(of_gsi, gsi);
    gsi_alone.gsis@.lemma_flat_map_singleton(of_gsi);
    lsi_alone.lsis@.lemma_flat_map_singleton(of_lsi);
    assert(rules.lsis@.flat_map(of_lsi) =~= Seq::empty());
    assert(gsi_more.lsis@.flat_map(of_lsi) =~= Seq::empty());
    assert(gsi_alone.lsis@.flat_map(of_lsi) =~= Seq::empty());
    assert(lsi_alone.gsis@.flat_map(of_gsi) =~= Seq::empty());
    assert(item_violations(item, gsi_more, now) =~= item_violations(item, rules, now)
        + item_violations(item, gsi_alone, now));
    assert(item_violations(item, lsi_more, now) =~= item_violations(item, rules, now)
        + item_violations(item, lsi_alone, now));
}

/// The TTL checks find what they are for, each if it is on: a missing attribute, a
/// value that is no number, a number over 100 billion, a number that is no positive
/// whole number, and a positive one more than 157680000 seconds before the scan.
pub proof fn law_ttl_breaches_are_reported(
    item: Map<Seq<char>, ValueView>,
    rules: RuleSet,
    now: int,
    violation: ViolationView,
)
    requires
        rules.ttl is Some,
        violation.target is Ttl,
        violation.attribute == Some(rules.ttl->0.attribute@),
        violation.size_bytes is None,
        ({
            let rule = rules.ttl->0;
            let held = item.contains_key(rule.attribute@);
            let value = item[rule.attribute@];
            let number = text::integer(value->N_0);
            &&& held ==> {
                &&& violation.actual_value == shown_value(value)
                &&& violation.actual_type == Some(shown_type(value))
            }
            &&& match violation.category {
                ViolationCategory::TtlMissing => {
                    &&& rule.check_missing
                    &&& !held
                    &&& violation.actual_value is None
                    &&& violation.actual_type is None
                    &&& violation.expected_type is None
                },
                ViolationCategory::TtlWrongType => {
                    &&& rule.check_wrong_type
                    &&& held
                    &&& value !is N
                    &&& violation.expected_type == Some(TypeCode::N)
                },
                ViolationCategory::TtlMsMagnitude => {
                    &&& rule.check_ms_magnitude
                    &&& held
                    &&& value is N
                    &&& number is Some
                    &&& number->0 > 100_000_000_000
                    &&& violation.expected_type is None
                },
                ViolationCategory::TtlMalformed => {
                    &&& rule.check_malformed
                    &&& held
                    &&& value is N
                    &&& number is None || number->0 <= 0
                    &&& violation.expected_type is None
                },
                ViolationCategory::TtlPastFiveYears => {
                    &&& rule.check_past_5_years
                    &&& held
                    &&& value is N
                    &&& number is Some
                    &&& 0 < number->0 < now - 157_680_000
                    &&& violation.expected_type is None
                },
                _ => false,
            }
        }),
    ensures
        item_violations(item, rules, now).contains(violation),
{
    let found = ttl_violations(rules.ttl->0, item, now);
    let rule = rules.ttl->0;
    let value = item[rule.attribute@];
    let k: int = if violation.category == ViolationCategory::TtlMalformed {
        0
    } else if violation.category == ViolationCategory::TtlPastFiveYears
        && rule.check_ms_magnitude && ttl_in_ms(value->N_0) {
        1
    } else {
        0
    };
    assert(found[k] == violation);
    assert(found.contains(violation));
    law_rules_are_independent(item, rules, now, violation);
}

/// Nothing is reported of TTL without cause: a violation is of the audited attribute,
/// its check is on, and what it says of the value is so.
pub proof fn law_ttl_violations_have_cause(
    item: Map<Seq<char>, ValueView>,
    rules: RuleSet,
    now: int,
    violation: ViolationView,
)
    requires
        item_violations(item, rules, now).contains(violation),
        violation.target is Ttl,
    ensures
        rules.ttl is Some,
        violation.attribute == Some(rules.ttl->0.attribute@),
        ({
            let rule = rules.ttl->0;
            let held = item.contains_key(rule.attribute@);
            let value = item[rule.attribute@];
            let number = text::integer(value->N_0);
            match violation.category {
                ViolationCategory::TtlMissing => rule.check_missing && !held,
                ViolationCategory::TtlWrongType => rule.check_wrong_type && held && value !is N,
                ViolationCategory::TtlMsMagnitude => rule.check_ms_magnitude && held && value is N
                    && number is Some && number->0 > 100_000_000_000,
                ViolationCategory::TtlMalformed => rule.check_malformed && held && value is N && (
                number is None || number->0 <= 0),
                ViolationCategory::TtlPastFiveYears => rule.check_past_5_years && held && value is N
                    && number is Some && 0 < number->0 < now - 157_680_000,
                _ => false,
            }
        }),
{
    law_rules_are_independent(item, rules, now, violation);
    if exists|i: int|
        0 <= i < rules.gsis@.len() && gsi_violations(#[trigger] rules.gsis@[i], item).contains(
            violation,
        ) {
        let i = choose|i: int|
            0 <= i < rules.gsis@.len() && gsi_violations(#[trigger] rules.gsis@[i], item).contains(
                violation,
            );
        lemma_gsi_target(rules.gsis@[i], item, violation);
    }
    lemma_ttl_cause(rules.ttl->0, item, now, violation);
}

proof fn lemma_ttl_cause(
    rule: TtlRule,
    item: Map<Seq<char>, ValueView>,
    now: int,
    violation: ViolationView,
)
    requires
        ttl_violations(rule, item, now).contains(violation),
    ensures
        violation.attribute == Some(rule.attribute@),
        ({
            let held = item.contains_key(rule.attribute@);
            let value = item[rule.attribute@];
            let number = text::integer(value->N_0);
            match violation.category {
                ViolationCategory::TtlMissing => rule.check_missing && !held,
                ViolationCategory::TtlWrongType => rule.check_wrong_type && held && value !is N,
                ViolationCategory::TtlMsMagnitude => rule.check_ms_magnitude && held && value is N
                    && number is Some && number->0 > 100_000_000_000,
                ViolationCategory::TtlMalformed => rule.check_malformed && held && value is N && (
                number is None || number->0 <= 0),
                ViolationCategory::TtlPastFiveYears => rule.check_past_5_years && held && value is N
                    && number is Some && 0 < number->0 < now - 157_680_000,
                _ => false,
            }
        }),
{
}

/// A TTL attribute is reported at most once, unless a number of millisecond magnitude
/// is more than five years in the past of a scan.
pub proof fn law_ttl_is_reported_once(
    item: Map<Seq<char>, ValueView>,
    rules: RuleSet,
    now: int,
)
    requires
        rules.gsis@.len() == 0,
        rules.lsis@.len() == 0,
        rules.ttl is Some,
        now <= 100_157_680_000,
    ensures
        item_violations(item, rules, now).len() <= 1,
{
    let gsi = |rule: GsiRule| gsi_violations(rule, item);
    let lsi = |rule: LsiRule| lsi_violations(rule, item);
    assert(rules.gsis@.flat_map(gsi) =~= Seq::empty());
    assert(rules.lsis@.flat_map(lsi) =~= Seq::empty());
}

/// An item that is not reported fits its indexes: each key that it holds has the
/// declared type and is within its limit, and it lacks a key only where that is not
/// checked.
pub proof fn law_unreported_item_fits_its_indexes(
    item: Map<Seq<char>, ValueView>,
    rules: RuleSet,
    now: int,
    g: int,
    sort: bool,
)
    requires
        forall|i: int|
            0 <= i < item_violations(item, rules, now).len() ==> (#[trigger] item_violations(
                item,
                rules,
                now,
            )[i]).target != TargetView::Gsi(rules.gsis@[g].name@),
        0 <= g < rules.gsis@.len(),
        sort ==> rules.gsis@[g].sk is Some,
    ensures
        ({
            let key = key_of(rules.gsis@[g], sort);
            let value = item[key.name@];
            let limit = if sort {
                1024nat
            } else {
                2048nat
            };
            if item.contains_key(key.name@) {
                match key.type_code {
                    TypeCode::S => value matches ValueView::S(s) && vstd::utf8::encode_utf8(s).len()
                        <= limit,
                    TypeCode::N => value is N,
                    TypeCode::B => value matches ValueView::B(b) && b.len() <= limit,
                }
            } else {
                !rules.gsis@[g].check_missing
            }
        }),
{
    let key = key_of(rules.gsis@[g], sort);
    let value = item[key.name@];
    let all = item_violations(item, rules, now);
    if item.contains_key(key.name@) {
        if match key.type_code {
            TypeCode::S => value !is S,
            TypeCode::N => value !is N,
            TypeCode::B => value !is B,
        } {
            law_key_of_another_type_is_reported(item, rules, now, g, sort);
            let v = choose|v: ViolationView|
                #[trigger] all.contains(v) && v.target == TargetView::Gsi(rules.gsis@[g].name@);
            let i = choose|i: int| 0 <= i < all.len() && all[i] == v;
            assert(all[i].target == TargetView::Gsi(rules.gsis@[g].name@));
        } else if value is S && vstd::utf8::encode_utf8(value->S_0).len() > (if sort {
            1024nat
        } else {
            2048nat
        }) {
            let size = vstd::utf8::encode_utf8(value->S_0).len();
            law_key_over_its_limit_is_reported(item, rules, now, g, sort, size);
            let v = choose|v: ViolationView|
                #[trigger] all.contains(v) && v.target == TargetView::Gsi(rules.gsis@[g].name@);
            let i = choose|i: int| 0 <= i < all.len() && all[i] == v;
            assert(all[i].target == TargetView::Gsi(rules.gsis@[g].name@));
        } else if value is B && value->B_0.len() > (if sort {
            1024nat
        } else {
            2048nat
        }) {
            law_key_over_its_limit_is_reported(item, rules, now, g, sort, value->B_0.len());
            let v = choose|v: ViolationView|
                #[trigger] all.contains(v) && v.target == TargetView::Gsi(rules.gsis@[g].name@);
            let i = choose|i: int| 0 <= i < all.len() && all[i] == v;
            assert(all[i].target == TargetView::Gsi(rules.gsis@[g].name@));
        }
    } else if rules.gsis@[g].check_missing {
        law_missing_key_is_reported(item, rules, now, g, sort);
        let v = choose|v: ViolationView|
            #[trigger] all.contains(v) && v.target == TargetView::Gsi(rules.gsis@[g].name@);
        let i = choose|i: int| 0 <= i < all.len() && all[i] == v;
        assert(all[i].target == TargetView::Gsi(rules.gsis@[g].name@));
    }
}

} // verus!
