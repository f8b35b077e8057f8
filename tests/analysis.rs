use mongo_analyzer::analysis::{
    get_fields, get_indexes, get_methods, same_query, sort_and_dedup, IndexSuggestion,
};
use mongo_analyzer::project::{analyze_sources, ProjectConfig, SourceFile};
use mongo_analyzer::syntax::Node;
use mongo_analyzer::MongoQuery;

fn s(x: &str) -> String {
    x.to_string()
}

fn q(file: &str, line: usize, service: &str, coll: &str, method: &str, fields: &[&str]) -> MongoQuery {
    MongoQuery {
        file: s(file),
        line,
        service: s(service),
        collection: s(coll),
        method: s(method),
        query_fields: fields.iter().map(|f| s(f)).collect(),
        raw_match: format!("{}.{}(...)", coll, method),
    }
}

#[test]
fn sorted_by_file_line_method() {
    let input = vec![
        q("b.ts", 1, "s", "c", "find", &[]),
        q("a.ts", 9, "s", "c", "find", &[]),
        q("a.ts", 2, "s", "c", "updateOne", &[]),
        q("a.ts", 2, "s", "c", "count", &[]),
    ];
    let out = sort_and_dedup(&input);
    let keys: Vec<(String, usize, String)> =
        out.iter().map(|x| (x.file.clone(), x.line, x.method.clone())).collect();
    assert_eq!(
        keys,
        vec![
            (s("a.ts"), 2, s("count")),
            (s("a.ts"), 2, s("updateOne")),
            (s("a.ts"), 9, s("find")),
            (s("b.ts"), 1, s("find")),
        ]
    );
}

#[test]
fn dedup_removes_only_exact_duplicates() {
    let input = vec![
        q("a.ts", 3, "s", "c", "find", &["x"]),
        q("a.ts", 3, "s", "c", "find", &["y"]),
        q("a.ts", 3, "s", "c", "find", &["x"]),
    ];
    let out = sort_and_dedup(&input);
    assert_eq!(out.len(), 2);
    assert!(out.iter().any(|o| o.query_fields == vec![s("x")]));
    assert!(out.iter().any(|o| o.query_fields == vec![s("y")]));
    assert!(same_query(&input[0], &input[2]));
    assert!(!same_query(&input[0], &input[1]));
}

#[test]
fn dedup_of_empty_list() {
    assert!(sort_and_dedup(&vec![]).is_empty());
    assert!(get_fields(&vec![], None).is_empty());
    assert!(get_indexes(&vec![], None).is_empty());
}

#[test]
fn field_inventory_in_first_appearance_order() {
    let input = vec![
        q("a.ts", 1, "user-service", "users", "find", &["name", "email"]),
        q("a.ts", 2, "user-service", "orders", "find", &["total"]),
        q("a.ts", 3, "user-service", "users", "findOne", &["age", "email"]),
        q("a.ts", 4, "other", "users", "find", &["hidden"]),
    ];
    let all = get_fields(&input, None);
    assert_eq!(
        all,
        vec![
            (s("users"), vec![s("name"), s("email"), s("age"), s("hidden")]),
            (s("orders"), vec![s("total")]),
        ]
    );
    let filtered = get_fields(&input, Some("user-service"));
    assert_eq!(filtered[0], (s("users"), vec![s("name"), s("email"), s("age")]));
}

#[test]
fn method_inventory_in_first_appearance_order() {
    let input = vec![
        q("a.ts", 1, "s", "users", "find", &[]),
        q("a.ts", 2, "s", "users", "aggregate", &[]),
        q("a.ts", 3, "s", "users", "find", &[]),
        q("a.ts", 4, "s", "logs", "deleteMany", &[]),
    ];
    assert_eq!(
        get_methods(&input, None),
        vec![(s("users"), vec![s("find"), s("aggregate")]), (s("logs"), vec![s("deleteMany")])]
    );
}

#[test]
fn index_suggestion_counts() {
    // field counts a:5, b:4, c:1
    let mut input = Vec::new();
    for line in 0..4 {
        input.push(q("a.ts", line, "s", "coll", "find", &["a", "b"]));
    }
    input.push(q("a.ts", 10, "s", "coll", "find", &["a"]));
    input.push(q("a.ts", 11, "s", "coll", "find", &["c"]));
    let out = get_indexes(&input, None);
    assert_eq!(out.len(), 1);
    assert_eq!(out[0].0, "coll");
    assert_eq!(
        out[0].1,
        vec![
            IndexSuggestion::SingleField { field: s("a"), count: 5 },
            IndexSuggestion::Compound { fields: vec![s("a"), s("b"), s("c")] },
        ]
    );
}

#[test]
fn only_collections_with_suggestions_are_listed() {
    let input = vec![
        q("a.ts", 1, "s", "x", "find", &["a"]),
        q("a.ts", 2, "s", "y", "find", &["p", "q", "r"]),
        q("a.ts", 3, "s", "z", "find", &["k"]),
        q("a.ts", 4, "s", "z", "find", &["k"]),
        q("a.ts", 5, "s", "z", "find", &["k"]),
    ];
    let out = get_indexes(&input, None);
    let names: Vec<&str> = out.iter().map(|(c, _)| c.as_str()).collect();
    assert_eq!(names, vec!["y", "z"]);
    assert_eq!(out[1].1, vec![IndexSuggestion::SingleField { field: s("k"), count: 3 }]);
}

#[test]
fn index_ranking_ties_break_by_name() {
    let input = vec![
        q("a.ts", 1, "s", "coll", "find", &["zeta", "beta", "alpha", "gamma"]),
        q("a.ts", 2, "s", "coll", "find", &["zeta", "beta", "alpha", "gamma"]),
        q("a.ts", 3, "s", "coll", "find", &["zeta", "gamma", "beta", "alpha"]),
    ];
    let out = get_indexes(&input, None);
    assert_eq!(
        out[0].1,
        vec![
            IndexSuggestion::SingleField { field: s("alpha"), count: 3 },
            IndexSuggestion::Compound { fields: vec![s("alpha"), s("beta"), s("gamma")] },
        ]
    );
}

#[test]
fn no_single_field_at_threshold() {
    let input = vec![
        q("a.ts", 1, "s", "coll", "find", &["a"]),
        q("a.ts", 2, "s", "coll", "find", &["a"]),
    ];
    let out = get_indexes(&input, None);
    assert!(out.is_empty());
    let three = vec![
        q("a.ts", 1, "s", "coll", "find", &["a"]),
        q("a.ts", 2, "s", "coll", "find", &["a"]),
        q("a.ts", 3, "s", "coll", "find", &["a", "b"]),
    ];
    assert_eq!(
        get_indexes(&three, None)[0].1,
        vec![IndexSuggestion::SingleField { field: s("a"), count: 3 }]
    );
}

fn find_call(coll: &str, field: &str, line: usize) -> Node {
    let c = Node::Call {
        callee: Box::new(Node::Member { object: Box::new(Node::Ident(s("db"))), property: Some(s("collection")) }),
        args: vec![Node::Str(s(coll))],
        arg_text: vec![None],
        line,
    };
    Node::Call {
        callee: Box::new(Node::Member { object: Box::new(c), property: Some(s("find")) }),
        args: vec![Node::Object(vec![Node::KeyValue { key: Some(s(field)), value: Box::new(Node::Other(vec![])) }])],
        arg_text: vec![None],
        line,
    }
}

#[test]
fn unparsable_file_contributes_nothing() {
    let files = vec![
        SourceFile { path: s("src/user.service.ts"), module: Some(vec![find_call("users", "email", 4)]) },
        SourceFile { path: s("src/user.broken.ts"), module: None },
        SourceFile { path: s("src/product.service.ts"), module: Some(vec![find_call("products", "sku", 2), find_call("products", "sku", 8)]) },
    ];
    let out = analyze_sources(&files, &ProjectConfig::default());
    assert_eq!(out.len(), 3);
    assert_eq!(out[0].file, "src/product.service.ts");
    assert_eq!(out[0].line, 2);
    assert_eq!(out[0].service, "product-service");
    assert_eq!(out[1].line, 8);
    assert_eq!(out[2].file, "src/user.service.ts");
    assert_eq!(out[2].service, "user-service");
    assert!(out.iter().all(|o| o.file != "src/user.broken.ts"));
}

#[test]
fn excluded_and_unconfigured_files_are_skipped() {
    let files = vec![
        SourceFile { path: s("src/user.service.spec.ts"), module: Some(vec![find_call("users", "a", 1)]) },
        SourceFile { path: s("src/misc.ts"), module: Some(vec![find_call("misc", "b", 1)]) },
    ];
    assert!(analyze_sources(&files, &ProjectConfig::default()).is_empty());
}
