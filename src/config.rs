//! The analyzer's configuration: per-collection index and predicate
//! guidance, and its validation.
use vstd::prelude::*;

use crate::text::str_eq;

verus! {

/// How serious a finding is.
#[derive(Debug, Clone, Copy, PartialEq, Eq, Structural)]
pub enum Severity {
    Info,
    Warning,
    Error,
}

impl Default for Severity {
    fn default() -> (r: Self)
        ensures
            r == Severity::Warning,
    {
        Severity::Warning
    }
}

/// The lower-case name of a severity.
pub open spec fn severity_name(s: Severity) -> Seq<char> {
    match s {
        Severity::Info => "info"@,
        Severity::Warning => "warning"@,
        Severity::Error => "error"@,
    }
}

impl Severity {
    /// The lower-case name of the severity.
    pub fn as_str(self) -> (r: &'static str)
        ensures
            r@ == severity_name(self),
    {
        match self {
            Severity::Info => "info",
            Severity::Warning => "warning",
            Severity::Error => "error",
        }
    }
}

/// The analyzer configuration.
#[derive(Debug, Clone)]
pub struct AnalyzerConfig {
    pub defaults: ConfigDefaults,
    pub collections: Vec<CollectionConfig>,
}

/// Severities that apply where a collection sets none.
#[derive(Debug, Clone, Copy, PartialEq, Eq)]
pub struct ConfigDefaults {
    pub unknown_collection_severity: Option<Severity>,
    pub recommended_predicate_miss_severity: Option<Severity>,
}

/// The severity that is set, or else the default severity.
pub open spec fn severity_or_default(s: Option<Severity>) -> Severity {
    match s {
        Some(v) => v,
        None => Severity::Warning,
    }
}

impl ConfigDefaults {
    /// The severity for a query on a collection that the configuration does
    /// not list.
    pub fn unknown_collection_severity(&self) -> (r: Severity)
        ensures
            r == severity_or_default(self.unknown_collection_severity),
    {
        match self.unknown_collection_severity {
            Some(s) => s,
            None => Severity::default(),
        }
    }

    /// The severity for a query that misses a recommended predicate field.
    pub fn recommended_predicate_miss_severity(&self) -> (r: Severity)
        ensures
            r == severity_or_default(self.recommended_predicate_miss_severity),
    {
        match self.recommended_predicate_miss_severity {
            Some(s) => s,
            None => Severity::default(),
        }
    }
}

/// What the configuration says of one collection.
#[derive(Debug, Clone)]
pub struct CollectionConfig {
    pub name: String,
    pub high_volume: bool,
    pub indexes: Vec<IndexConfig>,
    pub predicate_guidance: Option<PredicateGuidance>,
    pub performance: Option<PerformanceConfig>,
}

/// An existing index of a collection.
#[derive(Debug, Clone)]
pub struct IndexConfig {
    pub name: Option<String>,
    pub keys: Vec<IndexKey>,
    pub unique: Option<bool>,
}

/// One key of an index: a field and its order, 1 or -1.
#[derive(Debug, Clone)]
pub struct IndexKey {
    pub field: String,
    pub order: i32,
}

/// Fields that the queries on a collection should filter on.
#[derive(Debug, Clone)]
pub struct PredicateGuidance {
    pub recommended_fields: Vec<String>,
    pub severity: Option<Severity>,
    /// Per method name, the fields recommended for that method.
    pub methods: Vec<(String, Vec<String>)>,
}

/// Performance rules of a collection.
#[derive(Debug, Clone, Copy)]
pub struct PerformanceConfig {
    pub unbounded_find: Option<PerformanceRule>,
    pub sort_without_index: Option<PerformanceRule>,
    pub regex_without_prefix: Option<PerformanceRule>,
    pub max_fields_in_predicate: Option<ThresholdRule>,
}

/// A performance rule that is on, with its severity.
#[derive(Debug, Clone, Copy)]
pub struct PerformanceRule {
    pub severity: Option<Severity>,
}

/// A performance rule with a limit.
#[derive(Debug, Clone, Copy)]
pub struct ThresholdRule {
    pub value: usize,
    pub severity: Option<Severity>,
}

/// A configuration and the path it was read from.
#[derive(Debug, Clone)]
pub struct LoadedConfig {
    pub path: String,
    pub config: AnalyzerConfig,
}

/// A finding about the configuration or its use.
#[derive(Debug, Clone, PartialEq, Eq)]
pub struct ConfigWarning {
    pub severity: Severity,
    pub message: String,
    pub file: Option<String>,
    pub line: Option<usize>,
}

/// Why a configuration is invalid.
#[derive(Debug, Clone, PartialEq, Eq)]
pub enum ConfigError {
    /// A collection's name is empty or only whitespace.
    EmptyCollectionName,
    /// A collection is listed twice.
    DuplicateCollection { collection: String },
    /// An index of the collection has no keys.
    IndexWithoutKeys { collection: String },
    /// An index key of the collection names no field.
    EmptyKeyField { collection: String },
    /// An index key's order is neither 1 nor -1.
    InvalidOrder { collection: String, field: String, order: i32 },
}

/// The mathematical value of a `ConfigError`.
pub enum ConfigErrorView {
    EmptyCollectionName,
    DuplicateCollection { collection: Seq<char> },
    IndexWithoutKeys { collection: Seq<char> },
    EmptyKeyField { collection: Seq<char> },
    InvalidOrder { collection: Seq<char>, field: Seq<char>, order: i32 },
}

impl View for ConfigError {
    type V = ConfigErrorView;

    open spec fn view(&self) -> ConfigErrorView {
        match self {
            ConfigError::EmptyCollectionName => ConfigErrorView::EmptyCollectionName,
            ConfigError::DuplicateCollection { collection } => ConfigErrorView::DuplicateCollection {
                collection: collection@,
            },
            ConfigError::IndexWithoutKeys { collection } => ConfigErrorView::IndexWithoutKeys {
                collection: collection@,
            },
            ConfigError::EmptyKeyField { collection } => ConfigErrorView::EmptyKeyField {
                collection: collection@,
            },
            ConfigError::InvalidOrder { collection, field, order } => ConfigErrorView::InvalidOrder {
                collection: collection@,
                field: field@,
                order: *order,
            },
        }
    }
}

/// A character with Unicode's White_Space property: the whitespace that
/// `char::is_whitespace` accepts and `str::trim` removes.
pub open spec fn is_white_space(c: char) -> bool {
    ||| '\u{9}' <= c && c <= '\u{d}'
    ||| c == ' '
    ||| c == '\u{85}'
    ||| c == '\u{a0}'
    ||| c == '\u{1680}'
    ||| '\u{2000}' <= c && c <= '\u{200a}'
    ||| c == '\u{2028}'
    ||| c == '\u{2029}'
    ||| c == '\u{202f}'
    ||| c == '\u{205f}'
    ||| c == '\u{3000}'
}

/// Empty once surrounding whitespace is trimmed: every character is
/// whitespace.
pub open spec fn is_blank(s: Seq<char>) -> bool {
    forall|i: int| 0 <= i < s.len() ==> is_white_space(#[trigger] s[i])
}

fn white_space(c: char) -> (r: bool)
    ensures
        r == is_white_space(c),
{
    ('\u{9}' <= c && c <= '\u{d}') || c == ' ' || c == '\u{85}' || c == '\u{a0}' || c == '\u{1680}'
        || ('\u{2000}' <= c && c <= '\u{200a}') || c == '\u{2028}' || c == '\u{2029}' || c
        == '\u{202f}' || c == '\u{205f}' || c == '\u{3000}'
}

fn blank(s: &str) -> (r: bool)
    ensures
        r == is_blank(s@),
{
    let n = s.unicode_len();
    let mut i: usize = 0;
    while i < n
        invariant
            n == s@.len(),
            i <= n,
            forall|k: int| 0 <= k < i ==> is_white_space(#[trigger] s@[k]),
        decreases n - i,
    {
        if !white_space(s.get_char(i)) {
            return false;
        }
        i = i + 1;
    }
    true
}

/// The problem with one index key, if any.
pub open spec fn key_problem(coll: Seq<char>, k: IndexKey) -> Option<ConfigErrorView> {
    if is_blank(k.field@) {
        Some(ConfigErrorView::EmptyKeyField { collection: coll })
    } else if k.order != 1 && k.order != -1 {
        Some(ConfigErrorView::InvalidOrder { collection: coll, field: k.field@, order: k.order })
    } else {
        None
    }
}

/// The first problem among the first `n` keys of an index.
pub open spec fn keys_problem(coll: Seq<char>, ks: Seq<IndexKey>, n: int) -> Option<
    ConfigErrorView,
>
    decreases n,
{
    if n <= 0 || n > ks.len() {
        None
    } else {
        match keys_problem(coll, ks, n - 1) {
            Some(e) => Some(e),
            None => key_problem(coll, ks[n - 1]),
        }
    }
}

/// The problem with one index, if any.
pub open spec fn index_problem(coll: Seq<char>, ix: IndexConfig) -> Option<ConfigErrorView> {
    if ix.keys@.len() == 0 {
        Some(ConfigErrorView::IndexWithoutKeys { collection: coll })
    } else {
        keys_problem(coll, ix.keys@, ix.keys@.len() as int)
    }
}

/// The first problem among the first `n` indexes of a collection.
pub open spec fn indexes_problem(coll: Seq<char>, ixs: Seq<IndexConfig>, n: int) -> Option<
    ConfigErrorView,
>
    decreases n,
{
    if n <= 0 || n > ixs.len() {
        None
    } else {
        match indexes_problem(coll, ixs, n - 1) {
            Some(e) => Some(e),
            None => index_problem(coll, ixs[n - 1]),
        }
    }
}

/// The problem with the `i`-th collection, given those before it.
pub open spec fn collection_problem(cs: Seq<CollectionConfig>, i: int) -> Option<ConfigErrorView> {
    let c = cs[i];
    if is_blank(c.name@) {
        Some(ConfigErrorView::EmptyCollectionName)
    } else if exists|j: int| 0 <= j < i && (#[trigger] cs[j]).name@ == c.name@ {
        Some(ConfigErrorView::DuplicateCollection { collection: c.name@ })
    } else {
        indexes_problem(c.name@, c.indexes@, c.indexes@.len() as int)
    }
}

/// The first problem among the first `n` collections.
pub open spec fn config_problem(cs: Seq<CollectionConfig>, n: int) -> Option<ConfigErrorView>
    decreases n,
{
    if n <= 0 || n > cs.len() {
        None
    } else {
        match config_problem(cs, n - 1) {
            Some(e) => Some(e),
            None => collection_problem(cs, n - 1),
        }
    }
}

proof fn lemma_keys_first(coll: Seq<char>, ks: Seq<IndexKey>, a: int, b: int)
    requires
        0 <= a <= b <= ks.len(),
        keys_problem(coll, ks, a) is Some,
    ensures
        keys_problem(coll, ks, b) == keys_problem(coll, ks, a),
    decreases b - a,
{
    if a < b {
        lemma_keys_first(coll, ks, a, b - 1);
    }
}

proof fn lemma_indexes_first(coll: Seq<char>, ixs: Seq<IndexConfig>, a: int, b: int)
    requires
        0 <= a <= b <= ixs.len(),
        indexes_problem(coll, ixs, a) is Some,
    ensures
        indexes_problem(coll, ixs, b) == indexes_problem(coll, ixs, a),
    decreases b - a,
{
    if a < b {
        lemma_indexes_first(coll, ixs, a, b - 1);
    }
}

proof fn lemma_config_first(cs: Seq<CollectionConfig>, a: int, b: int)
    requires
        0 <= a <= b <= cs.len(),
        config_problem(cs, a) is Some,
    ensures
        config_problem(cs, b) == config_problem(cs, a),
    decreases b - a,
{
    if a < b {
        lemma_config_first(cs, a, b - 1);
    }
}

fn copy_string(s: &String) -> (r: String)
    ensures
        r@ == s@,
{
    s.clone()
}

fn check_index(coll: &String, ix: &IndexConfig) -> (r: Result<(), ConfigError>)
    ensures
        match r {
            Ok(()) => index_problem(coll@, *ix) is None,
            Err(e) => index_problem(coll@, *ix) == Some(e@),
        },
{
    if ix.keys.len() == 0 {
        return Err(ConfigError::IndexWithoutKeys { collection: copy_string(coll) });
    }
    let mut i: usize = 0;
    while i < ix.keys.len()
        invariant
            i <= ix.keys.len(),
            keys_problem(coll@, ix.keys@, i as int) is None,
        decreases ix.keys.len() - i,
    {
        let k = &ix.keys[i];
        if blank(k.field.as_str()) {
            proof {
                lemma_keys_first(coll@, ix.keys@, i + 1, ix.keys@.len() as int);
            }
            return Err(ConfigError::EmptyKeyField { collection: copy_string(coll) });
        }
        if k.order != 1 && k.order != -1 {
            proof {
                lemma_keys_first(coll@, ix.keys@, i + 1, ix.keys@.len() as int);
            }
            return Err(
                ConfigError::InvalidOrder {
                    collection: copy_string(coll),
                    field: copy_string(&k.field),
                    order: k.order,
                },
            );
        }
        i = i + 1;
    }
    Ok(())
}

/// Checks a configuration: every collection has a name that is not blank and
/// not listed before it, and every index of it has keys, each naming a
/// field that is not blank, in order 1 or -1. The first problem found, in
/// the order collections, indexes and keys are listed, is returned.
pub fn validate_config(config: &AnalyzerConfig) -> (r: Result<(), ConfigError>)
    ensures
        match r {
            Ok(()) => config_problem(
                config.collections@,
                config.collections@.len() as int,
            ) is None,
            Err(e) => config_problem(config.collections@, config.collections@.len() as int) == Some(
                e@,
            ),
        },
{
    let cs = &config.collections;
    let mut i: usize = 0;
    while i < cs.len()
        invariant
            i <= cs.len(),
            cs == config.collections,
            config_problem(cs@, i as int) is None,
        decreases cs.len() - i,
    {
        let c = &cs[i];
        if blank(c.name.as_str()) {
            proof {
                lemma_config_first(cs@, i + 1, cs@.len() as int);
            }
            return Err(ConfigError::EmptyCollectionName);
        }
        let mut j: usize = 0;
        while j < i
            invariant
                j <= i,
                i < cs.len(),
                cs == config.collections,
                c == cs@[i as int],
                !is_blank(c.name@),
                config_problem(cs@, i as int) is None,
                forall|m: int| 0 <= m < j ==> (#[trigger] cs@[m]).name@ != c.name@,
            decreases i - j,
        {
            if str_eq(cs[j].name.as_str(), c.name.as_str()) {
                assert(cs@[j as int].name@ == c.name@);
                proof {
                    lemma_config_first(cs@, i + 1, cs@.len() as int);
                }
                return Err(ConfigError::DuplicateCollection { collection: copy_string(&c.name) });
            }
            j = j + 1;
        }
        let mut k: usize = 0;
        while k < c.indexes.len()
            invariant
                k <= c.indexes.len(),
                i < cs.len(),
                cs == config.collections,
                c == cs@[i as int],
                !is_blank(c.name@),
                config_problem(cs@, i as int) is None,
                forall|m: int| 0 <= m < i ==> (#[trigger] cs@[m]).name@ != c.name@,
                indexes_problem(c.name@, c.indexes@, k as int) is None,
            decreases c.indexes.len() - k,
        {
            match check_index(&c.name, &c.indexes[k]) {
                Ok(()) => {},
                Err(e) => {
                    proof {
                        lemma_indexes_first(c.name@, c.indexes@, k + 1, c.indexes@.len() as int);
                        lemma_config_first(cs@, i + 1, cs@.len() as int);
                    }
                    return Err(e);
                },
            }
            k = k + 1;
        }
        i = i + 1;
    }
    Ok(())
}

} // verus!
