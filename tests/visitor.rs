use mongo_analyzer::syntax::Node;
use mongo_analyzer::visitor::{detect_queries, extract_fields, is_query_method, MongoQueryVisitor};

fn s(x: &str) -> String {
    x.to_string()
}

fn ident(x: &str) -> Node {
    Node::Ident(s(x))
}

fn string(x: &str) -> Node {
    Node::Str(s(x))
}

fn member(obj: Node, prop: &str) -> Node {
    Node::Member { object: Box::new(obj), property: Some(s(prop)) }
}

fn call(callee: Node, args: Vec<Node>, texts: Vec<Option<String>>, line: usize) -> Node {
    Node::Call { callee: Box::new(callee), args, arg_text: texts, line }
}

fn kv(key: &str, value: Node) -> Node {
    Node::KeyValue { key: Some(s(key)), value: Box::new(value) }
}

fn num() -> Node {
    Node::Other(vec![])
}

fn object(props: Vec<Node>) -> Node {
    Node::Object(props)
}

fn product_class() -> Vec<Node> {
    // class ProductService {
    //   constructor(@InjectModel(Product.name) private readonly productModel: Model<Product>) {}
    //   list() { return this.productModel.find({ category: 'x', price: { $gt: 5 } }); }
    // }
    let ctor = Node::Constructor {
        params: vec![Node::ParamProp {
            name: Some(s("productModel")),
            decorators: vec![call(
                ident("InjectModel"),
                vec![member(ident("Product"), "name")],
                vec![Some(s("Product.name"))],
                2,
            )],
        }],
        body: vec![],
    };
    let find = call(
        member(member(Node::This, "productModel"), "find"),
        vec![object(vec![
            kv("category", string("x")),
            kv("price", object(vec![kv("$gt", num())])),
        ])],
        vec![Some(s("{ category: 'x', price: { $gt: 5 } }"))],
        3,
    );
    vec![Node::Other(vec![ctor, Node::Other(vec![find])])]
}

#[test]
fn injected_model_find() {
    let qs = detect_queries(&product_class(), s("src/product.service.ts"), s("product-service"));
    assert_eq!(qs.len(), 1);
    assert_eq!(qs[0].collection, "product");
    assert_eq!(qs[0].method, "find");
    assert_eq!(qs[0].query_fields, vec![s("category"), s("price")]);
    assert_eq!(qs[0].line, 3);
    assert_eq!(qs[0].file, "src/product.service.ts");
    assert_eq!(qs[0].service, "product-service");
    assert_eq!(qs[0].raw_match, "product.find({ category: 'x', price: { $gt: 5 } })");
}

#[test]
fn injected_string_model_is_lower_cased() {
    let ctor = Node::Constructor {
        params: vec![Node::ParamProp {
            name: Some(s("repo")),
            decorators: vec![call(ident("InjectModel"), vec![string("OrderLine")], vec![None], 1)],
        }],
        body: vec![],
    };
    let find = call(member(member(Node::This, "repo"), "findOne"), vec![object(vec![kv("id", num())])], vec![None], 5);
    let qs = detect_queries(&vec![ctor, find], s("a.ts"), s("svc"));
    assert_eq!(qs.len(), 1);
    assert_eq!(qs[0].collection, "orderline");
    assert_eq!(qs[0].raw_match, "orderline.findOne(...)");
}

#[test]
fn model_suffix_fallback_without_binding() {
    let find = call(member(member(Node::This, "OrderItemModel"), "countDocuments"), vec![], vec![], 7);
    let qs = detect_queries(&vec![find], s("a.ts"), s("svc"));
    assert_eq!(qs.len(), 1);
    assert_eq!(qs[0].collection, "orderitem");
    assert_eq!(qs[0].method, "countDocuments");
    assert!(qs[0].query_fields.is_empty());
}

#[test]
fn collection_call_update_excludes_update_document() {
    // db.collection('orders').updateOne({ status: 'open' }, { $set: { total: 10 } })
    let coll = call(member(ident("db"), "collection"), vec![string("orders")], vec![Some(s("'orders'"))], 4);
    let update = call(
        member(coll, "updateOne"),
        vec![
            object(vec![kv("status", string("open"))]),
            object(vec![kv("$set", object(vec![kv("total", num())]))]),
        ],
        vec![Some(s("{ status: 'open' }")), Some(s("{ $set: { total: 10 } }"))],
        4,
    );
    let qs = detect_queries(&vec![update], s("orders.ts"), s("svc"));
    assert_eq!(qs.len(), 1);
    assert_eq!(qs[0].collection, "orders");
    assert_eq!(qs[0].method, "updateOne");
    assert_eq!(qs[0].query_fields, vec![s("status")]);
    assert_eq!(qs[0].raw_match, "orders.updateOne({ status: 'open' })");
}

#[test]
fn use_db_chain_resolves_through() {
    let conn = call(member(ident("connection"), "useDb"), vec![string("main")], vec![None], 1);
    let coll = call(member(conn, "collection"), vec![string("users")], vec![None], 1);
    let find = call(member(coll, "find"), vec![object(vec![kv("email", string("e"))])], vec![None], 1);
    let qs = detect_queries(&vec![find], s("a.ts"), s("svc"));
    assert_eq!(qs.len(), 1);
    assert_eq!(qs[0].collection, "users");
    assert_eq!(qs[0].query_fields, vec![s("email")]);
}

#[test]
fn local_object_binding_supplies_fields() {
    // const filter = { userId: id }; coll.find(filter)
    let decl = Node::VarDecl {
        name: Some(s("filter")),
        init: Some(Box::new(object(vec![kv("userId", ident("id"))]))),
    };
    let find = call(member(ident("coll"), "find"), vec![ident("filter")], vec![Some(s("filter"))], 2);
    let qs = detect_queries(&vec![decl, find], s("a.ts"), s("svc"));
    assert_eq!(qs.len(), 1);
    assert_eq!(qs[0].query_fields, vec![s("userId")]);
    assert_eq!(qs[0].collection, "unknown");
    assert_eq!(qs[0].raw_match, "unknown.find(filter)");
}

#[test]
fn later_binding_overwrites_earlier() {
    let d1 = Node::VarDecl { name: Some(s("f")), init: Some(Box::new(object(vec![kv("a", num())]))) };
    let d2 = Node::VarDecl { name: Some(s("f")), init: Some(Box::new(object(vec![kv("b", num())]))) };
    let find = call(member(ident("c"), "find"), vec![ident("f")], vec![None], 3);
    let qs = detect_queries(&vec![d1, d2, find], s("a.ts"), s("svc"));
    assert_eq!(qs[0].query_fields, vec![s("b")]);
}

#[test]
fn fields_sorted_and_unique() {
    // { zeta: 1, alpha: 2, $or: [{ zeta: 3 }, { mid: 4 }], alpha2 }
    let props = vec![
        kv("zeta", num()),
        kv("alpha", num()),
        kv("$or", Node::Array(vec![object(vec![kv("zeta", num())]), object(vec![kv("mid", num())])])),
        Node::Shorthand(s("alpha2")),
    ];
    assert_eq!(extract_fields(&props), vec![s("alpha"), s("alpha2"), s("mid"), s("zeta")]);
}

#[test]
fn operator_keys_unwrapped_at_any_depth() {
    // { $and: [{ $or: [{ a: 1 }, { b: { $in: [1] } }] }, { c: { $elemMatch: { d: 1 } } }], ...rest }
    let props = vec![
        kv(
            "$and",
            Node::Array(vec![
                object(vec![kv(
                    "$or",
                    Node::Array(vec![
                        object(vec![kv("a", num())]),
                        object(vec![kv("b", object(vec![kv("$in", Node::Array(vec![num()]))]))]),
                    ]),
                )]),
                object(vec![kv("c", object(vec![kv("$elemMatch", object(vec![kv("d", num())]))]))]),
            ]),
        ),
        Node::Other(vec![ident("rest")]),
        Node::KeyValue { key: None, value: Box::new(num()) },
    ];
    assert_eq!(extract_fields(&props), vec![s("a"), s("b"), s("c")]);
}

#[test]
fn nested_operator_document_fields() {
    let props = vec![kv("$expr", object(vec![kv("x", num()), kv("$nor", Node::Array(vec![object(vec![kv("y", num())])]))]))];
    assert_eq!(extract_fields(&props), vec![s("x"), s("y")]);
}

#[test]
fn only_recognized_methods_are_recorded() {
    let insert = call(member(member(Node::This, "userModel"), "insertOne"), vec![object(vec![kv("a", num())])], vec![None], 1);
    let map = call(member(ident("list"), "map"), vec![], vec![], 2);
    let plain = call(ident("find"), vec![], vec![], 3);
    let qs = detect_queries(&vec![insert, map, plain], s("a.ts"), s("svc"));
    assert!(qs.is_empty());
    assert!(is_query_method("aggregate"));
    assert!(is_query_method("findOneAndDelete"));
    assert!(!is_query_method("insertMany"));
    assert!(!is_query_method("Find"));
}

#[test]
fn distinct_predicate_is_second_argument() {
    let distinct = call(
        member(member(Node::This, "userModel"), "distinct"),
        vec![string("email"), object(vec![kv("active", num())])],
        vec![Some(s("'email'")), Some(s("{ active: true }"))],
        9,
    );
    let qs = detect_queries(&vec![distinct], s("a.ts"), s("svc"));
    assert_eq!(qs[0].query_fields, vec![s("active")]);
    assert_eq!(qs[0].raw_match, "user.distinct({ active: true })");
}

#[test]
fn aggregate_pipeline_stages() {
    let pipeline = Node::Array(vec![
        object(vec![kv("$match", object(vec![kv("status", num())]))]),
        object(vec![kv("$group", object(vec![kv("_id", num())]))]),
        ident("extraStage"),
    ]);
    let agg = call(member(member(Node::This, "orderModel"), "aggregate"), vec![pipeline], vec![None], 1);
    let qs = detect_queries(&vec![agg], s("a.ts"), s("svc"));
    assert_eq!(qs[0].collection, "order");
    assert_eq!(qs[0].query_fields, vec![s("_id"), s("status")]);
}

#[test]
fn nested_calls_recorded_before_enclosing_call() {
    // this.aModel.find({ x: 1 }, this.bModel.findOne({ y: 1 }))
    let inner = call(member(member(Node::This, "bModel"), "findOne"), vec![object(vec![kv("y", num())])], vec![None], 1);
    let outer = call(member(member(Node::This, "aModel"), "find"), vec![object(vec![kv("x", num())]), inner], vec![None, None], 1);
    let qs = detect_queries(&vec![outer], s("a.ts"), s("svc"));
    assert_eq!(qs.len(), 2);
    assert_eq!(qs[0].collection, "b");
    assert_eq!(qs[1].collection, "a");
}

#[test]
fn bindings_do_not_leak_between_files() {
    let decl = Node::VarDecl { name: Some(s("f")), init: Some(Box::new(object(vec![kv("a", num())]))) };
    let first = detect_queries(&vec![decl], s("one.ts"), s("svc"));
    assert!(first.is_empty());
    let find = call(member(ident("c"), "find"), vec![ident("f")], vec![None], 1);
    let second = detect_queries(&vec![find], s("two.ts"), s("svc"));
    assert!(second[0].query_fields.is_empty());
}

#[test]
fn visitor_starts_empty() {
    let mut v = MongoQueryVisitor::new(s("x.ts"), s("svc"));
    assert!(v.queries.is_empty() && v.model_map.is_empty() && v.object_map.is_empty());
    v.visit(&call(member(member(Node::This, "itemModel"), "deleteMany"), vec![object(vec![kv("k", num())])], vec![None], 4));
    assert_eq!(v.queries.len(), 1);
    assert_eq!(v.queries[0].collection, "item");
}

#[test]
fn dollar_names_only_from_shorthand() {
    // { $or: [{ $tag }, { a: 1 }], $nor: [] }
    let props = vec![
        kv("$or", Node::Array(vec![object(vec![Node::Shorthand(s("$tag"))]), object(vec![kv("a", num())])])),
        kv("$nor", Node::Array(vec![])),
    ];
    assert_eq!(extract_fields(&props), vec![s("$tag"), s("a")]);
}
