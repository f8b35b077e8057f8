use mongo_analyzer::breakdown::{field_pattern, get_detailed_field_analysis, tally, FieldUsageInfo};
use mongo_analyzer::MongoQuery;

fn s(x: &str) -> String {
    x.to_string()
}

fn q(file: &str, line: usize, service: &str, coll: &str, fields: &[&str]) -> MongoQuery {
    MongoQuery {
        file: s(file),
        line,
        service: s(service),
        collection: s(coll),
        method: s("find"),
        query_fields: fields.iter().map(|f| s(f)).collect(),
        raw_match: s("..."),
    }
}

#[test]
fn tally_counts_and_orders_keys() {
    let keys = vec![s("b"), s("a"), s("b"), s("c"), s("b")];
    assert_eq!(tally(&keys), vec![(s("a"), 1), (s("b"), 3), (s("c"), 1)]);
    assert!(tally(&vec![]).is_empty());
}

#[test]
fn field_pattern_normalizes_order() {
    assert_eq!(field_pattern(&vec![s("b"), s("a"), s("b")]), "a, b");
    assert_eq!(field_pattern(&vec![s("only")]), "only");
    assert_eq!(field_pattern(&vec![]), "");
}

#[test]
fn field_usage_info_starts_empty() {
    let u = FieldUsageInfo::new(s("email"));
    assert_eq!(u.field, "email");
    assert_eq!(u.total_usage, 0);
    assert!(u.usage_by_file.is_empty());
}

#[test]
fn breakdown_by_collection_file_and_pattern() {
    let input = vec![
        q("b.ts", 1, "s", "users", &["email"]),
        q("a.ts", 2, "s", "users", &["name", "email"]),
        q("a.ts", 3, "s", "users", &["email", "name"]),
        q("a.ts", 4, "s", "users", &["age"]),
        q("a.ts", 5, "s", "orders", &["total"]),
        q("c.ts", 6, "other", "users", &["hidden"]),
    ];
    let out = get_detailed_field_analysis(&input, Some("s"));
    assert_eq!(out.len(), 2);
    assert_eq!(out[0].collection, "orders");
    assert_eq!(out[0].total_queries, 1);
    let users = &out[1];
    assert_eq!(users.collection, "users");
    assert_eq!(users.total_queries, 4);
    assert_eq!(users.files_accessing, vec![(s("a.ts"), 3), (s("b.ts"), 1)]);
    let fields: Vec<(String, usize)> =
        users.field_usage.iter().map(|u| (u.field.clone(), u.total_usage)).collect();
    assert_eq!(fields, vec![(s("email"), 3), (s("name"), 2), (s("age"), 1)]);
    assert_eq!(users.field_usage[0].usage_by_file, vec![(s("a.ts"), 2), (s("b.ts"), 1)]);
    assert_eq!(users.query_patterns[0].file, "a.ts");
    assert_eq!(users.query_patterns[0].patterns, vec![(s("email, name"), 2), (s("age"), 1)]);
    assert_eq!(users.query_patterns[1].patterns, vec![(s("email"), 1)]);
    let all = get_detailed_field_analysis(&input, None);
    assert_eq!(all[1].total_queries, 5);
    assert_eq!(all[1].files_accessing.len(), 3);
}

#[test]
fn field_usage_ranked_by_total() {
    let input = vec![
        q("a.ts", 1, "s", "x", &["a"]),
        q("a.ts", 2, "s", "x", &["b"]),
        q("a.ts", 3, "s", "x", &["b", "d", "c"]),
    ];
    let out = get_detailed_field_analysis(&input, None);
    let fields: Vec<(String, usize)> =
        out[0].field_usage.iter().map(|u| (u.field.clone(), u.total_usage)).collect();
    assert_eq!(fields, vec![(s("b"), 2), (s("a"), 1), (s("c"), 1), (s("d"), 1)]);
}
