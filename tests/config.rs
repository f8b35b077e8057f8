use mongo_analyzer::config::{
    validate_config, AnalyzerConfig, CollectionConfig, ConfigDefaults, ConfigError, IndexConfig,
    IndexKey, Severity,
};
use mongo_analyzer::project::{determine_service, should_exclude_file, ProjectConfig, ServiceConfig};

fn s(x: &str) -> String {
    x.to_string()
}

fn collection(name: &str, indexes: Vec<IndexConfig>) -> CollectionConfig {
    CollectionConfig { name: s(name), high_volume: false, indexes, predicate_guidance: None, performance: None }
}

fn index(keys: Vec<(&str, i32)>) -> IndexConfig {
    IndexConfig {
        name: None,
        keys: keys.into_iter().map(|(f, o)| IndexKey { field: s(f), order: o }).collect(),
        unique: None,
    }
}

fn config(collections: Vec<CollectionConfig>) -> AnalyzerConfig {
    AnalyzerConfig {
        defaults: ConfigDefaults { unknown_collection_severity: None, recommended_predicate_miss_severity: None },
        collections,
    }
}

#[test]
fn severity_names_and_default() {
    assert_eq!(Severity::Info.as_str(), "info");
    assert_eq!(Severity::Warning.as_str(), "warning");
    assert_eq!(Severity::Error.as_str(), "error");
    assert_eq!(Severity::default(), Severity::Warning);
}

#[test]
fn defaults_fall_back_to_warning() {
    let d = ConfigDefaults { unknown_collection_severity: Some(Severity::Error), recommended_predicate_miss_severity: None };
    assert_eq!(d.unknown_collection_severity(), Severity::Error);
    assert_eq!(d.recommended_predicate_miss_severity(), Severity::Warning);
}

#[test]
fn valid_config_passes() {
    let c = config(vec![collection("users", vec![index(vec![("email", 1), ("createdAt", -1)])]), collection("orders", vec![])]);
    assert_eq!(validate_config(&c), Ok(()));
    assert_eq!(validate_config(&config(vec![])), Ok(()));
}

#[test]
fn blank_collection_name_rejected() {
    assert_eq!(validate_config(&config(vec![collection("  \t", vec![])])), Err(ConfigError::EmptyCollectionName));
}

#[test]
fn duplicate_collection_rejected() {
    let c = config(vec![collection("users", vec![]), collection("users", vec![])]);
    assert_eq!(validate_config(&c), Err(ConfigError::DuplicateCollection { collection: s("users") }));
}

#[test]
fn index_without_keys_rejected() {
    let c = config(vec![collection("users", vec![index(vec![])])]);
    assert_eq!(validate_config(&c), Err(ConfigError::IndexWithoutKeys { collection: s("users") }));
}

#[test]
fn blank_key_field_rejected() {
    let c = config(vec![collection("users", vec![index(vec![(" ", 1)])])]);
    assert_eq!(validate_config(&c), Err(ConfigError::EmptyKeyField { collection: s("users") }));
}

#[test]
fn invalid_order_rejected() {
    let c = config(vec![collection("users", vec![index(vec![("email", 1)]), index(vec![("age", 2)])])]);
    assert_eq!(
        validate_config(&c),
        Err(ConfigError::InvalidOrder { collection: s("users"), field: s("age"), order: 2 })
    );
}

#[test]
fn first_problem_is_reported() {
    let c = config(vec![collection("a", vec![index(vec![("x", 0)])]), collection("", vec![])]);
    assert_eq!(
        validate_config(&c),
        Err(ConfigError::InvalidOrder { collection: s("a"), field: s("x"), order: 0 })
    );
}

#[test]
fn service_from_configured_patterns() {
    let cfg = ProjectConfig::default();
    assert_eq!(determine_service("src/auth/login.ts", &cfg), "user-service");
    assert_eq!(determine_service("src/catalog.controller.ts", &cfg), "product-service");
    assert_eq!(determine_service("src/billing.ts", &cfg), "unknown-service");
}

#[test]
fn service_regex_patterns_apply() {
    let billing = ServiceConfig { name: s("billing"), patterns: vec![s("^src/(inv|pay)[a-z]+\\.ts$")], excluded_files: vec![] };
    let cfg = ProjectConfig { services: vec![(s("billing"), billing)] };
    assert_eq!(determine_service("src/invoice.ts", &cfg), "billing");
    assert_eq!(determine_service("src/payment.ts", &cfg), "billing");
    assert_eq!(determine_service("lib/src/invoice.ts", &cfg), "unknown-service");
    assert_eq!(determine_service("src/user-invoice.ts", &cfg), "user-service");
}

#[test]
fn invalid_regex_pattern_matches_literally() {
    let odd = ServiceConfig { name: s("odd"), patterns: vec![s("legacy(")], excluded_files: vec![] };
    let cfg = ProjectConfig { services: vec![(s("odd"), odd)] };
    assert_eq!(determine_service("src/legacy(old).ts", &cfg), "odd");
    assert_eq!(determine_service("src/legacy.ts", &cfg), "unknown-service");
}

#[test]
fn exclusion_patterns_ignore_stars() {
    let cfg = ProjectConfig::default();
    let user = &cfg.services[0].1;
    assert!(should_exclude_file("src/user.service.spec.ts", user));
    assert!(should_exclude_file("src/user.test.ts", user));
    assert!(!should_exclude_file("src/user.service.ts", user));
}

#[test]
fn unicode_whitespace_is_blank() {
    assert_eq!(validate_config(&config(vec![collection("\u{3000}\u{a0}\n", vec![])])), Err(ConfigError::EmptyCollectionName));
    assert_eq!(validate_config(&config(vec![collection("\u{200b}", vec![])])), Ok(()));
}

#[test]
fn service_keys_must_be_distinct() {
    assert!(ProjectConfig::default().has_distinct_keys());
    let svc = ServiceConfig { name: s("a"), patterns: vec![], excluded_files: vec![] };
    let twice = ProjectConfig { services: vec![(s("a"), svc.clone()), (s("a"), svc)] };
    assert!(!twice.has_distinct_keys());
}
