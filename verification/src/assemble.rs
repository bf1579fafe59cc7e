//! Rule set assembly: the discovered schema merged with the configured intents.
//!
//! The config drives *which* targets are checked; the schema supplies the key shape
//! of existing indexes. Existing GSIs and LSIs named in the config are resolved
//! against the discovered schema (an unknown name is an error); hypothetical GSIs
//! carry their own key spec; the TTL attribute is always the discovered one.

use vstd::prelude::*;
use vstd::string::StringExecFns;
use crate::aws;
use crate::aws::{IndexSchema, TableDescription, TtlDescription};
use crate::config;
use crate::config::{GsiEntry, LsiEntry, ScanConfig, TtlSettings};
use crate::domain;
use crate::rules::{GsiRule, LsiRule, RuleSet, TtlRule};

verus! {

/// A failure to resolve a [`RuleSet`] from schema and config.
#[derive(Debug, Clone, PartialEq, Eq)]
pub enum AssembleError {
    /// A non-hypothetical GSI in the config has no counterpart in the schema.
    UnknownGsi(String),
    /// An LSI in the config has no counterpart in the schema.
    UnknownLsi(String),
    /// A hypothetical GSI reached assembly without a partition key spec.
    HypotheticalMissingPk(String),
    /// A discovered LSI has no sort key, so its missing-key check is meaningless.
    LsiMissingSortKey(String),
    /// TTL auditing is enabled but the table exposes no TTL attribute to audit.
    TtlNotConfigured,
}

/// The text that describes an assembly error to the user.
pub open spec fn error_text(error: AssembleError) -> Seq<char> {
    match error {
        AssembleError::UnknownGsi(name) => "config references GSI `"@ + name@
            + "`, which does not exist on the table; mark it `hypothetical = true` or correct the name"@,
        AssembleError::UnknownLsi(name) => "config references LSI `"@ + name@
            + "`, which does not exist on the table; correct the name"@,
        AssembleError::HypotheticalMissingPk(name) => "hypothetical GSI `"@ + name@
            + "` has no partition key spec"@,
        AssembleError::LsiMissingSortKey(name) => "LSI `"@ + name@
            + "` has no sort key in the discovered schema; the missing-key check cannot apply"@,
        AssembleError::TtlNotConfigured =>
            "TTL auditing is enabled but the table has no TTL attribute; disable the [ttl] block or configure TTL on the table"@,
    }
}

impl AssembleError {
    /// Describes the error to the user.
    pub fn message(&self) -> (r: String)
        ensures
            r@ == error_text(*self),
    {
        match self {
            AssembleError::UnknownGsi(name) => {
                let mut out = "config references GSI `".to_owned();
                out.append(name.as_str());
                out.append(
                    "`, which does not exist on the table; mark it `hypothetical = true` or correct the name",
                );
                out
            },
            AssembleError::UnknownLsi(name) => {
                let mut out = "config references LSI `".to_owned();
                out.append(name.as_str());
                out.append("`, which does not exist on the table; correct the name");
                out
            },
            AssembleError::HypotheticalMissingPk(name) => {
                let mut out = "hypothetical GSI `".to_owned();
                out.append(name.as_str());
                out.append("` has no partition key spec");
                out
            },
            AssembleError::LsiMissingSortKey(name) => {
                let mut out = "LSI `".to_owned();
                out.append(name.as_str());
                out.append(
                    "` has no sort key in the discovered schema; the missing-key check cannot apply",
                );
                out
            },
            AssembleError::TtlNotConfigured => {
                "TTL auditing is enabled but the table has no TTL attribute; disable the [ttl] block or configure TTL on the table".to_owned()
            },
        }
    }
}

/// Whether a missing TTL attribute is reported when the config leaves it open.
pub const TTL_DEFAULT_MISSING: bool = true;

/// Whether a TTL value of another type is reported when the config leaves it open.
pub const TTL_DEFAULT_WRONG_TYPE: bool = true;

/// Whether a TTL value in milliseconds is reported when the config leaves it open.
pub const TTL_DEFAULT_MS_MAGNITUDE: bool = true;

/// Whether a malformed TTL value is reported when the config leaves it open.
pub const TTL_DEFAULT_MALFORMED: bool = true;

/// Whether a TTL value over five years back is reported when the config leaves it
/// open.
pub const TTL_DEFAULT_PAST_FIVE_YEARS: bool = false;

/// The rule for one GSI entry against the discovered GSIs.
pub open spec fn gsi_rule(gsis: Seq<IndexSchema>, entry: GsiEntry) -> Result<
    GsiRule,
    AssembleError,
> {
    if entry.hypothetical {
        match entry.pk {
            Some(pk) => Ok(
                GsiRule {
                    name: entry.name,
                    hypothetical: true,
                    pk,
                    sk: entry.sk,
                    check_missing: entry.check_missing,
                },
            ),
            None => Err(AssembleError::HypotheticalMissingPk(entry.name)),
        }
    } else {
        match aws::index_named(gsis, entry.name@) {
            Some(i) => Ok(
                GsiRule {
                    name: gsis[i].name,
                    hypothetical: false,
                    pk: gsis[i].pk,
                    sk: gsis[i].sk,
                    check_missing: entry.check_missing,
                },
            ),
            None => Err(AssembleError::UnknownGsi(entry.name)),
        }
    }
}

/// The rule for one LSI entry against the discovered LSIs.
pub open spec fn lsi_rule(lsis: Seq<IndexSchema>, entry: LsiEntry) -> Result<
    LsiRule,
    AssembleError,
> {
    match aws::index_named(lsis, entry.name@) {
        Some(i) => match lsis[i].sk {
            Some(sort_key) => Ok(
                LsiRule { name: lsis[i].name, sort_key, check_missing: entry.check_missing },
            ),
            None => Err(AssembleError::LsiMissingSortKey(entry.name)),
        },
        None => Err(AssembleError::UnknownLsi(entry.name)),
    }
}

/// `setting` if it is set, else `default`.
pub open spec fn toggle(setting: Option<bool>, default: bool) -> bool {
    match setting {
        Some(b) => b,
        None => default,
    }
}

/// The TTL rule, if TTL is to be audited.
pub open spec fn ttl_rule(ttl: Option<TtlDescription>, settings: Option<TtlSettings>) -> Result<
    Option<TtlRule>,
    AssembleError,
> {
    match settings {
        Some(s) => if toggle(s.enabled, true) {
            match ttl {
                Some(t) => Ok(
                    Some(
                        TtlRule {
                            attribute: t.attribute,
                            check_missing: toggle(s.check_missing, TTL_DEFAULT_MISSING),
                            check_wrong_type: toggle(s.check_wrong_type, TTL_DEFAULT_WRONG_TYPE),
                            check_ms_magnitude: toggle(
                                s.check_ms_magnitude,
                                TTL_DEFAULT_MS_MAGNITUDE,
                            ),
                            check_malformed: toggle(s.check_malformed, TTL_DEFAULT_MALFORMED),
                            check_past_5_years: toggle(
                                s.check_past_5_years,
                                TTL_DEFAULT_PAST_FIVE_YEARS,
                            ),
                        },
                    ),
                ),
                None => Err(AssembleError::TtlNotConfigured),
            }
        } else {
            Ok(None)
        },
        None => Ok(None),
    }
}

/// The results of `f` over `entries` in their order, or the first failure.
pub open spec fn each<A, B>(
    entries: Seq<A>,
    f: spec_fn(A) -> Result<B, AssembleError>,
) -> Result<Seq<B>, AssembleError>
    decreases entries.len(),
{
    if entries.len() == 0 {
        Ok(Seq::empty())
    } else {
        match each(entries.drop_last(), f) {
            Err(e) => Err(e),
            Ok(done) => match f(entries.last()) {
                Err(e) => Err(e),
                Ok(b) => Ok(done.push(b)),
            },
        }
    }
}

/// A failure among the first entries is the failure of them all.
proof fn lemma_each_failure<A, B>(
    entries: Seq<A>,
    n: int,
    f: spec_fn(A) -> Result<B, AssembleError>,
)
    requires
        0 <= n <= entries.len(),
        each(entries.take(n), f) is Err,
    ensures
        each(entries, f) == each(entries.take(n), f),
    decreases entries.len(),
{
    if n == entries.len() {
        assert(entries.take(n) =~= entries);
    } else {
        assert(entries.drop_last().take(n) =~= entries.take(n));
        lemma_each_failure(entries.drop_last(), n, f);
    }
}

/// Without a failure, each entry has its result at its own position.
proof fn lemma_each_success<A, B>(entries: Seq<A>, f: spec_fn(A) -> Result<B, AssembleError>)
    requires
        each(entries, f) is Ok,
    ensures
        each(entries, f)->Ok_0.len() == entries.len(),
        forall|i: int|
            0 <= i < entries.len() ==> f(entries[i]) == Ok::<B, AssembleError>(
                #[trigger] each(entries, f)->Ok_0[i],
            ),
    decreases entries.len(),
{
    if entries.len() > 0 {
        lemma_each_success(entries.drop_last(), f);
        let done = each(entries.drop_last(), f)->Ok_0;
        assert forall|i: int| 0 <= i < entries.len() implies f(entries[i]) == Ok::<
            B,
            AssembleError,
        >(#[trigger] each(entries, f)->Ok_0[i]) by {
            if i < entries.len() - 1 {
                assert(each(entries, f)->Ok_0[i] == done[i]);
                assert(entries.drop_last()[i] == entries[i]);
            }
        }
    }
}

/// A failure of them all is the failure of one entry.
proof fn lemma_each_failure_source<A, B>(
    entries: Seq<A>,
    f: spec_fn(A) -> Result<B, AssembleError>,
) -> (i: int)
    requires
        each(entries, f) is Err,
    ensures
        0 <= i < entries.len(),
        f(entries[i]) is Err,
        f(entries[i])->Err_0 == each(entries, f)->Err_0,
    decreases entries.len(),
{
    if each(entries.drop_last(), f) is Err {
        lemma_each_failure_source(entries.drop_last(), f)
    } else {
        entries.len() - 1
    }
}

/// The rules for all GSI entries, or the first failure.
pub open spec fn gsi_rules(gsis: Seq<IndexSchema>, entries: Seq<GsiEntry>) -> Result<
    Seq<GsiRule>,
    AssembleError,
> {
    each(entries, |entry: GsiEntry| gsi_rule(gsis, entry))
}

/// The rules for all LSI entries, or the first failure.
pub open spec fn lsi_rules(lsis: Seq<IndexSchema>, entries: Seq<LsiEntry>) -> Result<
    Seq<LsiRule>,
    AssembleError,
> {
    each(entries, |entry: LsiEntry| lsi_rule(lsis, entry))
}

/// The first failure to assemble: of the GSI entries, the LSI entries, the TTL
/// settings.
pub open spec fn assemble_error(desc: TableDescription, config: ScanConfig) -> Option<
    AssembleError,
> {
    if gsi_rules(desc.gsis@, config.gsi@) is Err {
        Some(gsi_rules(desc.gsis@, config.gsi@)->Err_0)
    } else if lsi_rules(desc.lsis@, config.lsi@) is Err {
        Some(lsi_rules(desc.lsis@, config.lsi@)->Err_0)
    } else if ttl_rule(desc.ttl, config.ttl) is Err {
        Some(ttl_rule(desc.ttl, config.ttl)->Err_0)
    } else {
        None
    }
}

/// `r` is what assembling the schema and the config gives.
pub open spec fn assembled(
    r: Result<RuleSet, AssembleError>,
    desc: TableDescription,
    config: ScanConfig,
) -> bool {
    match r {
        Err(e) => assemble_error(desc, config) == Some(e),
        Ok(rules) => {
            &&& assemble_error(desc, config) is None
            &&& rules.table == desc.name
            &&& gsi_rules(desc.gsis@, config.gsi@) == Ok::<Seq<GsiRule>, AssembleError>(
                rules.gsis@,
            )
            &&& lsi_rules(desc.lsis@, config.lsi@) == Ok::<Seq<LsiRule>, AssembleError>(
                rules.lsis@,
            )
            &&& ttl_rule(desc.ttl, config.ttl) == Ok::<Option<TtlRule>, AssembleError>(rules.ttl)
        },
    }
}

/// Resolves a discovered schema and the configured intents into a [`RuleSet`].
///
/// Keeps the config's order within each target list.
pub fn assemble(desc: &TableDescription, config: &ScanConfig) -> (r: Result<
    RuleSet,
    AssembleError,
>)
    ensures
        assembled(r, *desc, *config),
{
    let ghost gsi_of = |entry: GsiEntry| gsi_rule(desc.gsis@, entry);
    let mut gsis: Vec<GsiRule> = Vec::new();
    let mut i: usize = 0;
    assert(config.gsi@.take(0) =~= Seq::<GsiEntry>::empty());
    while i < config.gsi.len()
        invariant
            i <= config.gsi@.len(),
            gsi_of == (|entry: GsiEntry| gsi_rule(desc.gsis@, entry)),
            each(config.gsi@.take(i as int), gsi_of) == Ok::<Seq<GsiRule>, AssembleError>(gsis@),
        decreases config.gsi@.len() - i,
    {
        proof {
            assert(config.gsi@.take(i + 1).drop_last() =~= config.gsi@.take(i as int));
        }
        match assemble_gsi(desc, &config.gsi[i]) {
            Ok(rule) => gsis.push(rule),
            Err(e) => {
                proof {
                    lemma_each_failure(config.gsi@, i + 1, gsi_of);
                }
                return Err(e);
            },
        }
        i += 1;
    }
    assert(config.gsi@.take(i as int) =~= config.gsi@);

    let ghost lsi_of = |entry: LsiEntry| lsi_rule(desc.lsis@, entry);
    let mut lsis: Vec<LsiRule> = Vec::new();
    let mut j: usize = 0;
    assert(config.lsi@.take(0) =~= Seq::<LsiEntry>::empty());
    while j < config.lsi.len()
        invariant
            j <= config.lsi@.len(),
            lsi_of == (|entry: LsiEntry| lsi_rule(desc.lsis@, entry)),
            gsi_rules(desc.gsis@, config.gsi@) is Ok,
            each(config.lsi@.take(j as int), lsi_of) == Ok::<Seq<LsiRule>, AssembleError>(lsis@),
        decreases config.lsi@.len() - j,
    {
        proof {
            assert(config.lsi@.take(j + 1).drop_last() =~= config.lsi@.take(j as int));
        }
        match assemble_lsi(desc, &config.lsi[j]) {
            Ok(rule) => lsis.push(rule),
            Err(e) => {
                proof {
                    lemma_each_failure(config.lsi@, j + 1, lsi_of);
                }
                return Err(e);
            },
        }
        j += 1;
    }
    assert(config.lsi@.take(j as int) =~= config.lsi@);

    match assemble_ttl(desc, &config.ttl) {
        Err(e) => Err(e),
        Ok(ttl) => Ok(RuleSet { table: desc.name.clone(), gsis, lsis, ttl }),
    }
}

fn assemble_gsi(desc: &TableDescription, entry: &GsiEntry) -> (r: Result<GsiRule, AssembleError>)
    ensures
        r == gsi_rule(desc.gsis@, *entry),
{
    if entry.hypothetical {
        return match &entry.pk {
            Some(pk) => Ok(
                GsiRule {
                    name: entry.name.clone(),
                    hypothetical: true,
                    pk: pk.clone(),
                    sk: domain::clone_element(&entry.sk),
                    check_missing: entry.check_missing,
                },
            ),
            None => Err(AssembleError::HypotheticalMissingPk(entry.name.clone())),
        };
    }
    match aws::find_index(&desc.gsis, &entry.name) {
        Some(schema) => Ok(
            GsiRule {
                name: schema.name.clone(),
                hypothetical: false,
                pk: schema.pk.clone(),
                sk: domain::clone_element(&schema.sk),
                check_missing: entry.check_missing,
            },
        ),
        None => Err(AssembleError::UnknownGsi(entry.name.clone())),
    }
}

fn assemble_lsi(desc: &TableDescription, entry: &LsiEntry) -> (r: Result<LsiRule, AssembleError>)
    ensures
        r == lsi_rule(desc.lsis@, *entry),
{
    match aws::find_index(&desc.lsis, &entry.name) {
        Some(schema) => match &schema.sk {
            Some(sort_key) => Ok(
                LsiRule {
                    name: schema.name.clone(),
                    sort_key: sort_key.clone(),
                    check_missing: entry.check_missing,
                },
            ),
            None => Err(AssembleError::LsiMissingSortKey(entry.name.clone())),
        },
        None => Err(AssembleError::UnknownLsi(entry.name.clone())),
    }
}

/// The TTL rule of a table under the given settings, if TTL is to be audited.
pub fn assemble_ttl(desc: &TableDescription, settings: &Option<TtlSettings>) -> (r: Result<
    Option<TtlRule>,
    AssembleError,
>)
    ensures
        r == ttl_rule(desc.ttl, *settings),
{
    let settings = match settings {
        Some(s) => s,
        None => return Ok(None),
    };
    if !settings.enabled.unwrap_or(true) {
        return Ok(None);
    }
    match &desc.ttl {
        Some(ttl) => Ok(
            Some(
                TtlRule {
                    attribute: ttl.attribute.clone(),
                    check_missing: settings.check_missing.unwrap_or(TTL_DEFAULT_MISSING),
                    check_wrong_type: settings.check_wrong_type.unwrap_or(TTL_DEFAULT_WRONG_TYPE),
                    check_ms_magnitude: settings.check_ms_magnitude.unwrap_or(
                        TTL_DEFAULT_MS_MAGNITUDE,
                    ),
                    check_malformed: settings.check_malformed.unwrap_or(TTL_DEFAULT_MALFORMED),
                    check_past_5_years: settings.check_past_5_years.unwrap_or(
                        TTL_DEFAULT_PAST_FIVE_YEARS,
                    ),
                },
            ),
        ),
        None => Err(AssembleError::TtlNotConfigured),
    }
}

/// The rule set holds exactly one rule per configured entry, in the config's order
/// and under its name and toggle.
pub proof fn law_config_order_is_kept(rules: RuleSet, desc: TableDescription, config: ScanConfig)
    requires
        assembled(Ok(rules), desc, config),
    ensures
        rules.gsis@.len() == config.gsi@.len(),
        forall|i: int|
            0 <= i < config.gsi@.len() ==> {
                &&& (#[trigger] rules.gsis@[i]).name@ == config.gsi@[i].name@
                &&& rules.gsis@[i].hypothetical == config.gsi@[i].hypothetical
                &&& rules.gsis@[i].check_missing == config.gsi@[i].check_missing
            },
        rules.lsis@.len() == config.lsi@.len(),
        forall|i: int|
            0 <= i < config.lsi@.len() ==> {
                &&& (#[trigger] rules.lsis@[i]).name@ == config.lsi@[i].name@
                &&& rules.lsis@[i].check_missing == config.lsi@[i].check_missing
            },
{
    let gsi_of = |entry: GsiEntry| gsi_rule(desc.gsis@, entry);
    let lsi_of = |entry: LsiEntry| lsi_rule(desc.lsis@, entry);
    lemma_each_success(config.gsi@, gsi_of);
    lemma_each_success(config.lsi@, lsi_of);
    assert forall|i: int| 0 <= i < config.gsi@.len() implies {
        &&& (#[trigger] rules.gsis@[i]).name@ == config.gsi@[i].name@
        &&& rules.gsis@[i].hypothetical == config.gsi@[i].hypothetical
        &&& rules.gsis@[i].check_missing == config.gsi@[i].check_missing
    } by {
        assert(gsi_of(config.gsi@[i]) == Ok::<GsiRule, AssembleError>(
            each(config.gsi@, gsi_of)->Ok_0[i],
        ));
        aws::lemma_index_named(desc.gsis@, config.gsi@[i].name@);
    }
    assert forall|i: int| 0 <= i < config.lsi@.len() implies {
        &&& (#[trigger] rules.lsis@[i]).name@ == config.lsi@[i].name@
        &&& rules.lsis@[i].check_missing == config.lsi@[i].check_missing
    } by {
        assert(lsi_of(config.lsi@[i]) == Ok::<LsiRule, AssembleError>(
            each(config.lsi@, lsi_of)->Ok_0[i],
        ));
        aws::lemma_index_named(desc.lsis@, config.lsi@[i].name@);
    }
}

/// A config without indexes and TTL checks nothing, whatever the table holds.
pub proof fn law_empty_config_checks_nothing(
    r: Result<RuleSet, AssembleError>,
    desc: TableDescription,
    config: ScanConfig,
)
    requires
        assembled(r, desc, config),
        config.gsi@.len() == 0,
        config.lsi@.len() == 0,
        config.ttl is None,
    ensures
        r matches Ok(rules) && rules.gsis@.len() == 0 && rules.lsis@.len() == 0 && rules.ttl is None,
{
}

/// After validation of the config file no hypothetical GSI lacks its partition key.
pub proof fn law_validated_config_has_hypothetical_keys(
    r: Result<RuleSet, AssembleError>,
    desc: TableDescription,
    config: ScanConfig,
)
    requires
        assembled(r, desc, config),
        config::gsi_error(config.gsi@, config.gsi@.len()) is None,
    ensures
        !(r matches Err(e) && e is HypotheticalMissingPk),
{
    let gsi_of = |entry: GsiEntry| gsi_rule(desc.gsis@, entry);
    let lsi_of = |entry: LsiEntry| lsi_rule(desc.lsis@, entry);
    config::law_validated_gsis(config.gsi@, config.gsi@.len());
    if gsi_rules(desc.gsis@, config.gsi@) is Err {
        let i = lemma_each_failure_source(config.gsi@, gsi_of);
        assert(!(gsi_of(config.gsi@[i])->Err_0 is HypotheticalMissingPk));
    } else if lsi_rules(desc.lsis@, config.lsi@) is Err {
        let i = lemma_each_failure_source(config.lsi@, lsi_of);
        assert(!(lsi_of(config.lsi@[i])->Err_0 is HypotheticalMissingPk));
    }
}

/// Assembly fails for an index exactly if one of the configured indexes cannot be
/// resolved, or for TTL exactly if TTL is to be audited and the table has none.
pub proof fn law_assembly_succeeds_iff_every_target_resolves(
    r: Result<RuleSet, AssembleError>,
    desc: TableDescription,
    config: ScanConfig,
)
    requires
        assembled(r, desc, config),
    ensures
        r is Ok <==> {
            &&& forall|i: int|
                0 <= i < config.gsi@.len() ==> gsi_rule(desc.gsis@, #[trigger] config.gsi@[i]) is Ok
            &&& forall|i: int|
                0 <= i < config.lsi@.len() ==> lsi_rule(desc.lsis@, #[trigger] config.lsi@[i]) is Ok
            &&& ttl_rule(desc.ttl, config.ttl) is Ok
        },
{
    let gsi_of = |entry: GsiEntry| gsi_rule(desc.gsis@, entry);
    let lsi_of = |entry: LsiEntry| lsi_rule(desc.lsis@, entry);
    if gsi_rules(desc.gsis@, config.gsi@) is Err {
        let i = lemma_each_failure_source(config.gsi@, gsi_of);
        assert(gsi_rule(desc.gsis@, config.gsi@[i]) is Err);
    } else {
        lemma_each_success(config.gsi@, gsi_of);
        assert forall|i: int| 0 <= i < config.gsi@.len() implies gsi_rule(
            desc.gsis@,
            #[trigger] config.gsi@[i],
        ) is Ok by {
            assert(gsi_of(config.gsi@[i]) == Ok::<GsiRule, AssembleError>(
                each(config.gsi@, gsi_of)->Ok_0[i],
            ));
        }
        if lsi_rules(desc.lsis@, config.lsi@) is Err {
            let i = lemma_each_failure_source(config.lsi@, lsi_of);
            assert(lsi_rule(desc.lsis@, config.lsi@[i]) is Err);
        } else {
            lemma_each_success(config.lsi@, lsi_of);
            assert forall|i: int| 0 <= i < config.lsi@.len() implies lsi_rule(
                desc.lsis@,
                #[trigger] config.lsi@[i],
            ) is Ok by {
                assert(lsi_of(config.lsi@[i]) == Ok::<LsiRule, AssembleError>(
                    each(config.lsi@, lsi_of)->Ok_0[i],
                ));
            }
        }
    }
}

/// The keys of the rules are those of the table: the rule of an existing GSI has the
/// partition key and the sort key of the first discovered GSI of its name, the rule of
/// a hypothetical one those that it declares, and the rule of an LSI the sort key of
/// the first discovered LSI of its name, whatever else the entry says.
pub proof fn law_rules_have_the_keys_of_the_table(
    rules: RuleSet,
    desc: TableDescription,
    config: ScanConfig,
    i: int,
)
    requires
        assembled(Ok(rules), desc, config),
    ensures
        rules.table == desc.name,
        0 <= i < config.gsi@.len() && config.gsi@[i].hypothetical ==> {
            &&& config.gsi@[i].pk == Some(rules.gsis@[i].pk)
            &&& rules.gsis@[i].sk == config.gsi@[i].sk
        },
        0 <= i < config.gsi@.len() && !config.gsi@[i].hypothetical ==> exists|k: int|
            {
                &&& 0 <= k < desc.gsis@.len()
                &&& (#[trigger] desc.gsis@[k]).name@ == config.gsi@[i].name@
                &&& forall|j: int|
                    0 <= j < k ==> (#[trigger] desc.gsis@[j]).name@ != config.gsi@[i].name@
                &&& rules.gsis@[i].pk == desc.gsis@[k].pk
                &&& rules.gsis@[i].sk == desc.gsis@[k].sk
            },
        0 <= i < config.lsi@.len() ==> exists|k: int|
            {
                &&& 0 <= k < desc.lsis@.len()
                &&& (#[trigger] desc.lsis@[k]).name@ == config.lsi@[i].name@
                &&& forall|j: int|
                    0 <= j < k ==> (#[trigger] desc.lsis@[j]).name@ != config.lsi@[i].name@
                &&& desc.lsis@[k].sk == Some(rules.lsis@[i].sort_key)
            },
{
    let gsi_of = |entry: GsiEntry| gsi_rule(desc.gsis@, entry);
    let lsi_of = |entry: LsiEntry| lsi_rule(desc.lsis@, entry);
    lemma_each_success(config.gsi@, gsi_of);
    lemma_each_success(config.lsi@, lsi_of);
    if 0 <= i < config.gsi@.len() {
        assert(gsi_of(config.gsi@[i]) == Ok::<GsiRule, AssembleError>(
            each(config.gsi@, gsi_of)->Ok_0[i],
        ));
        aws::lemma_index_named(desc.gsis@, config.gsi@[i].name@);
        if !config.gsi@[i].hypothetical {
            let k = aws::index_named(desc.gsis@, config.gsi@[i].name@)->0;
            assert(desc.gsis@[k].name@ == config.gsi@[i].name@);
        }
    }
    if 0 <= i < config.lsi@.len() {
        assert(lsi_of(config.lsi@[i]) == Ok::<LsiRule, AssembleError>(
            each(config.lsi@, lsi_of)->Ok_0[i],
        ));
        aws::lemma_index_named(desc.lsis@, config.lsi@[i].name@);
        let k = aws::index_named(desc.lsis@, config.lsi@[i].name@)->0;
        assert(desc.lsis@[k].name@ == config.lsi@[i].name@);
    }
}

/// TTL is audited exactly if the config has TTL settings that do not switch it off.
/// The audited attribute is the table's, and each check follows its own toggle, which
/// is on if unset, but for the five-year check, which is off.
pub proof fn law_ttl_rule_follows_the_settings(
    rules: RuleSet,
    desc: TableDescription,
    config: ScanConfig,
)
    requires
        assembled(Ok(rules), desc, config),
    ensures
        rules.ttl is Some <==> config.ttl is Some && config.ttl->0.enabled != Some(false),
        rules.ttl matches Some(rule) ==> {
            let settings = config.ttl->0;
            &&& desc.ttl is Some
            &&& rule.attribute == desc.ttl->0.attribute
            &&& rule.check_missing == (settings.check_missing != Some(false))
            &&& rule.check_wrong_type == (settings.check_wrong_type != Some(false))
            &&& rule.check_ms_magnitude == (settings.check_ms_magnitude != Some(false))
            &&& rule.check_malformed == (settings.check_malformed != Some(false))
            &&& rule.check_past_5_years == (settings.check_past_5_years == Some(true))
        },
{
}

/// Assembly fails only for a reason, and says which: an existing index that the table
/// lacks, a hypothetical GSI without a partition key, an LSI that has no sort key, or
/// TTL that is to be audited on a table without it.
pub proof fn law_assembly_errors_have_cause(
    error: AssembleError,
    desc: TableDescription,
    config: ScanConfig,
)
    requires
        assembled(Err(error), desc, config),
    ensures
        match error {
            AssembleError::UnknownGsi(name) => exists|i: int|
                {
                    &&& 0 <= i < config.gsi@.len()
                    &&& (#[trigger] config.gsi@[i]).name == name
                    &&& !config.gsi@[i].hypothetical
                    &&& forall|k: int|
                        0 <= k < desc.gsis@.len() ==> (#[trigger] desc.gsis@[k]).name@ != name@
                },
            AssembleError::HypotheticalMissingPk(name) => exists|i: int|
                {
                    &&& 0 <= i < config.gsi@.len()
                    &&& (#[trigger] config.gsi@[i]).name == name
                    &&& config.gsi@[i].hypothetical
                    &&& config.gsi@[i].pk is None
                },
            AssembleError::UnknownLsi(name) => exists|i: int|
                {
                    &&& 0 <= i < config.lsi@.len()
                    &&& (#[trigger] config.lsi@[i]).name == name
                    &&& forall|k: int|
                        0 <= k < desc.lsis@.len() ==> (#[trigger] desc.lsis@[k]).name@ != name@
                },
            AssembleError::LsiMissingSortKey(name) => exists|i: int, k: int|
                {
                    &&& 0 <= i < config.lsi@.len()
                    &&& (#[trigger] config.lsi@[i]).name == name
                    &&& 0 <= k < desc.lsis@.len()
                    &&& (#[trigger] desc.lsis@[k]).name@ == name@
                    &&& desc.lsis@[k].sk is None
                },
            AssembleError::TtlNotConfigured => desc.ttl is None && config.ttl is Some
                && config.ttl->0.enabled != Some(false),
        },
{
    let gsi_of = |entry: GsiEntry| gsi_rule(desc.gsis@, entry);
    let lsi_of = |entry: LsiEntry| lsi_rule(desc.lsis@, entry);
    if gsi_rules(desc.gsis@, config.gsi@) is Err {
        let i = lemma_each_failure_source(config.gsi@, gsi_of);
        aws::lemma_index_named(desc.gsis@, config.gsi@[i].name@);
    } else if lsi_rules(desc.lsis@, config.lsi@) is Err {
        let i = lemma_each_failure_source(config.lsi@, lsi_of);
        let name = config.lsi@[i].name;
        aws::lemma_index_named(desc.lsis@, name@);
        if aws::index_named(desc.lsis@, name@) is Some {
            let k = aws::index_named(desc.lsis@, name@)->0;
            assert(desc.lsis@[k].name@ == name@);
        }
    }
}

/// Assembly succeeds whenever it can: every existing index is one of the table's, every
/// LSI of that name has a sort key, every hypothetical GSI declares its partition key,
/// and TTL is audited only where the table has it.
pub proof fn law_resolvable_config_assembles(
    r: Result<RuleSet, AssembleError>,
    desc: TableDescription,
    config: ScanConfig,
)
    requires
        assembled(r, desc, config),
        forall|i: int|
            0 <= i < config.gsi@.len() ==> if (#[trigger] config.gsi@[i]).hypothetical {
                config.gsi@[i].pk is Some
            } else {
                exists|k: int|
                    0 <= k < desc.gsis@.len() && (#[trigger] desc.gsis@[k]).name@
                        == config.gsi@[i].name@
            },
        forall|i: int|
            0 <= i < config.lsi@.len() ==> exists|k: int|
                0 <= k < desc.lsis@.len() && (#[trigger] desc.lsis@[k]).name@ == (
                #[trigger] config.lsi@[i]).name@,
        forall|k: int| 0 <= k < desc.lsis@.len() ==> (#[trigger] desc.lsis@[k]).sk is Some,
        desc.ttl is Some || config.ttl is None || config.ttl->0.enabled == Some(false),
    ensures
        r is Ok,
{
    if r is Err {
        law_assembly_errors_have_cause(r->Err_0, desc, config);
    }
}

/// The message of an error names the index that it is about.
pub proof fn law_messages_name_the_index(error: AssembleError)
    ensures
        match error {
            AssembleError::UnknownGsi(name) => crate::text::holds(error_text(error), name@),
            AssembleError::UnknownLsi(name) => crate::text::holds(error_text(error), name@),
            AssembleError::HypotheticalMissingPk(name) => crate::text::holds(error_text(error), name@),
            AssembleError::LsiMissingSortKey(name) => crate::text::holds(error_text(error), name@),
            AssembleError::TtlNotConfigured => true,
        },
{
    match error {
        AssembleError::UnknownGsi(name) => crate::text::lemma_holds(
            "config references GSI `"@,
            name@,
            "`, which does not exist on the table; mark it `hypothetical = true` or correct the name"@,
        ),
        AssembleError::UnknownLsi(name) => crate::text::lemma_holds(
            "config references LSI `"@,
            name@,
            "`, which does not exist on the table; correct the name"@,
        ),
        AssembleError::HypotheticalMissingPk(name) => crate::text::lemma_holds(
            "hypothetical GSI `"@,
            name@,
            "` has no partition key spec"@,
        ),
        AssembleError::LsiMissingSortKey(name) => crate::text::lemma_holds(
            "LSI `"@,
            name@,
            "` has no sort key in the discovered schema; the missing-key check cannot apply"@,
        ),
        AssembleError::TtlNotConfigured => {},
    }
}

} // verus!
