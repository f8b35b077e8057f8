//! The query visitor: a depth-first walk over one file's syntax tree that
//! keeps the file's binding tables and records every recognized query
//! call-site.
use vstd::prelude::*;

use crate::syntax::{opt_view, Node};
use crate::text::{insert_sorted, lemma_push_to_set, str_eq, strictly_sorted, strs};
use crate::MongoQuery;

verus! {

/// What `str::to_lowercase` returns for a character sequence.
pub uninterp spec fn lower_of(s: Seq<char>) -> Seq<char>;

/// Relies on `str::to_lowercase`, whose result depends on the characters alone.
#[verifier::external_body]
fn lowercase(s: &str) -> (r: String)
    ensures
        r@ == lower_of(s@),
{
    s.to_lowercase()
}

/// The recognized query methods.
pub open spec fn is_query_method_spec(m: Seq<char>) -> bool {
    ||| m == "find"@
    ||| m == "findOne"@
    ||| m == "findOneAndUpdate"@
    ||| m == "findOneAndDelete"@
    ||| m == "findOneAndReplace"@
    ||| m == "updateOne"@
    ||| m == "updateMany"@
    ||| m == "deleteOne"@
    ||| m == "deleteMany"@
    ||| m == "aggregate"@
    ||| m == "count"@
    ||| m == "countDocuments"@
    ||| m == "distinct"@
}

/// The position of the argument whose fields a recognized method filters on:
/// the second for `distinct`, none for `findOneAndDelete`, else the first.
pub open spec fn predicate_index_spec(m: Seq<char>) -> Option<usize> {
    if m == "distinct"@ {
        Some(1)
    } else if m == "findOneAndDelete"@ {
        None
    } else {
        Some(0)
    }
}

/// A document key that names an operator rather than a field.
pub open spec fn is_operator(k: Seq<char>) -> bool {
    k.len() > 0 && k[0] == '$'
}

/// The fields that one property of an object literal contributes.
pub open spec fn prop_fields(p: Node) -> Set<Seq<char>>
    decreases p, 0nat,
{
    match p {
        Node::KeyValue { key, value } => match key {
            Some(k) => if is_operator(k@) {
                operand_fields(*value)
            } else {
                set![k@]
            },
            None => Set::empty(),
        },
        Node::Shorthand(x) => set![x@],
        _ => Set::empty(),
    }
}

/// The fields nested under an operator key: those of an object literal, or of
/// each object literal in an array literal.
pub open spec fn operand_fields(v: Node) -> Set<Seq<char>>
    decreases v, 0nat,
{
    match v {
        Node::Object(ps) => props_fields(ps@, ps@.len() as int),
        Node::Array(es) => elems_fields(es@, es@.len() as int),
        _ => Set::empty(),
    }
}

/// The fields of an element of an array literal.
pub open spec fn elem_fields(e: Node) -> Set<Seq<char>>
    decreases e, 0nat,
{
    match e {
        Node::Object(ps) => props_fields(ps@, ps@.len() as int),
        _ => Set::empty(),
    }
}

/// The fields of the first `k` properties of an object literal.
pub open spec fn props_fields(ps: Seq<Node>, k: int) -> Set<Seq<char>>
    decreases ps, k,
{
    if k <= 0 || k > ps.len() {
        Set::empty()
    } else {
        props_fields(ps, k - 1).union(prop_fields(ps[k - 1]))
    }
}

/// The fields of the first `k` elements of an array literal.
pub open spec fn elems_fields(es: Seq<Node>, k: int) -> Set<Seq<char>>
    decreases es, k,
{
    if k <= 0 || k > es.len() {
        Set::empty()
    } else {
        elems_fields(es, k - 1).union(elem_fields(es[k - 1]))
    }
}

/// The most recent binding of `k` in a table.
pub open spec fn lookup<V>(t: Seq<(Seq<char>, V)>, k: Seq<char>) -> Option<V>
    decreases t.len(),
{
    if t.len() == 0 {
        None
    } else if t.last().0 == k {
        Some(t.last().1)
    } else {
        lookup(t.drop_last(), k)
    }
}

/// A property name ending in `Model`.
pub open spec fn ends_with_model(p: Seq<char>) -> bool {
    let n = p.len();
    n >= 5 && p[n - 5] == 'M' && p[n - 4] == 'o' && p[n - 3] == 'd' && p[n - 2] == 'e'
        && p[n - 1] == 'l'
}

/// The collection that an object expression designates, given the model
/// bindings of the file.
pub open spec fn resolve(e: Node, models: Seq<(Seq<char>, Seq<char>)>) -> Option<Seq<char>>
    decreases e,
{
    match e {
        Node::Call { callee, args, .. } => match *callee {
            Node::Member { object, property: Some(p) } => if p@ == "collection"@ {
                if args@.len() > 0 && args@[0] is Str {
                    Some(args@[0]->Str_0@)
                } else {
                    None
                }
            } else if p@ == "useDb"@ || p@ == "getConnection"@ {
                resolve(*object, models)
            } else {
                None
            },
            _ => None,
        },
        Node::Member { object, property: Some(p) } => if *object is This {
            match lookup(models, p@) {
                Some(c) => Some(lower_of(c)),
                None => if ends_with_model(p@) {
                    Some(lower_of(p@.subrange(0, p@.len() - 5)))
                } else {
                    None
                },
            }
        } else {
            None
        },
        _ => None,
    }
}

/// The fields of a predicate argument: an object literal, a variable bound to
/// one, or an array literal of object literals.
pub open spec fn predicate_fields(arg: Node, objects: Seq<(Seq<char>, Set<Seq<char>>)>) -> Set<
    Seq<char>,
> {
    match arg {
        Node::Object(ps) => props_fields(ps@, ps@.len() as int),
        Node::Ident(x) => match lookup(objects, x@) {
            Some(fs) => fs,
            None => Set::empty(),
        },
        Node::Array(es) => elems_fields(es@, es@.len() as int),
        _ => Set::empty(),
    }
}

/// The reconstructed source text of a call-site.
pub open spec fn raw_text(coll: Seq<char>, method: Seq<char>, snippet: Option<Seq<char>>) -> Seq<
    char,
> {
    let inner = match snippet {
        Some(t) => t,
        None => "..."@,
    };
    coll + "."@ + method + "("@ + inner + ")"@
}

/// A recorded call-site, with its fields as a set.
pub struct Occurrence {
    pub file: Seq<char>,
    pub line: usize,
    pub service: Seq<char>,
    pub collection: Seq<char>,
    pub method: Seq<char>,
    pub fields: Set<Seq<char>>,
    pub raw: Seq<char>,
}

/// The state of a walk over one file.
pub struct VisitorModel {
    pub file: Seq<char>,
    pub service: Seq<char>,
    pub queries: Seq<Occurrence>,
    pub models: Seq<(Seq<char>, Seq<char>)>,
    pub objects: Seq<(Seq<char>, Set<Seq<char>>)>,
}

/// The call-site that a call node is, if its callee is `object.method` with a
/// recognized method; an object that resolves to no collection gives the
/// collection `unknown`.
pub open spec fn occurrence(st: VisitorModel, n: Node) -> Option<Occurrence> {
    match n {
        Node::Call { callee, args, arg_text, line } => match *callee {
            Node::Member { object, property: Some(m) } => if is_query_method_spec(m@) {
                let coll = match resolve(*object, st.models) {
                    Some(c) => c,
                    None => "unknown"@,
                };
                let pi = predicate_index_spec(m@);
                let fields = if pi is Some && (pi->0 as int) < args@.len() {
                    predicate_fields(args@[pi->0 as int], st.objects)
                } else {
                    Set::empty()
                };
                let snippet = if pi is Some && (pi->0 as int) < arg_text@.len() {
                    opt_view(arg_text@[pi->0 as int])
                } else {
                    None
                };
                Some(
                    Occurrence {
                        file: st.file,
                        line: line,
                        service: st.service,
                        collection: coll,
                        method: m@,
                        fields: fields,
                        raw: raw_text(coll, m@, snippet),
                    },
                )
            } else {
                None
            },
            _ => None,
        },
        _ => None,
    }
}

/// The model name that one decorator injects, if it is `InjectModel(X.p)` or
/// `InjectModel('name')`.
pub open spec fn injected_model(d: Node) -> Option<Seq<char>> {
    match d {
        Node::Call { callee, args, .. } => if *callee is Ident && callee->Ident_0@ == "InjectModel"@
            && args@.len() > 0 {
            match args@[0] {
                Node::Member { object, .. } => match *object {
                    Node::Ident(o) => Some(o@),
                    _ => None,
                },
                Node::Str(s) => Some(s@),
                _ => None,
            }
        } else {
            None
        },
        _ => None,
    }
}

/// The model bindings after the first `k` decorators of property `name`.
pub open spec fn bind_decorators(
    models: Seq<(Seq<char>, Seq<char>)>,
    name: Seq<char>,
    ds: Seq<Node>,
    k: int,
) -> Seq<(Seq<char>, Seq<char>)>
    decreases k,
{
    if k <= 0 || k > ds.len() {
        models
    } else {
        let m = bind_decorators(models, name, ds, k - 1);
        match injected_model(ds[k - 1]) {
            Some(c) => m.push((name, c)),
            None => m,
        }
    }
}

/// The model bindings after the first `k` constructor parameters.
pub open spec fn bind_params(models: Seq<(Seq<char>, Seq<char>)>, ps: Seq<Node>, k: int) -> Seq<
    (Seq<char>, Seq<char>),
>
    decreases k,
{
    if k <= 0 || k > ps.len() {
        models
    } else {
        let m = bind_params(models, ps, k - 1);
        match ps[k - 1] {
            Node::ParamProp { name: Some(x), decorators } => bind_decorators(
                m,
                x@,
                decorators@,
                decorators@.len() as int,
            ),
            _ => m,
        }
    }
}

/// The state after a call node has been classified.
pub open spec fn record(st: VisitorModel, n: Node) -> VisitorModel {
    match occurrence(st, n) {
        Some(q) => VisitorModel { queries: st.queries.push(q), ..st },
        None => st,
    }
}

/// The state after a variable declaration: a simple name initialized with an
/// object literal is bound to that literal's fields.
pub open spec fn bind_var(st: VisitorModel, name: Option<String>, init: Node) -> VisitorModel {
    match name {
        Some(x) => match init {
            Node::Object(ps) => VisitorModel {
                objects: st.objects.push((x@, props_fields(ps@, ps@.len() as int))),
                ..st
            },
            _ => st,
        },
        None => st,
    }
}

/// The state after walking one node: children first, in source order, then
/// the node itself.
pub open spec fn walk(st: VisitorModel, n: Node) -> VisitorModel
    decreases n, 0int,
{
    match n {
        Node::Member { object, .. } => walk(st, *object),
        Node::Call { callee, args, .. } => record(
            walk_seq(walk(st, *callee), args@, args@.len() as int),
            n,
        ),
        Node::Object(cs) => walk_seq(st, cs@, cs@.len() as int),
        Node::Array(cs) => walk_seq(st, cs@, cs@.len() as int),
        Node::Other(cs) => walk_seq(st, cs@, cs@.len() as int),
        Node::KeyValue { value, .. } => walk(st, *value),
        Node::VarDecl { name, init } => match init {
            Some(e) => bind_var(walk(st, *e), name, *e),
            None => st,
        },
        Node::Constructor { params, body } => {
            let bound = VisitorModel {
                models: bind_params(st.models, params@, params@.len() as int),
                ..st
            };
            walk_seq(walk_seq(bound, params@, params@.len() as int), body@, body@.len() as int)
        },
        Node::ParamProp { decorators, .. } => walk_seq(
            st,
            decorators@,
            decorators@.len() as int,
        ),
        _ => st,
    }
}

/// The state after walking the first `k` nodes of a sequence.
pub open spec fn walk_seq(st: VisitorModel, ns: Seq<Node>, k: int) -> VisitorModel
    decreases ns, k,
{
    if k <= 0 || k > ns.len() {
        st
    } else {
        walk(walk_seq(st, ns, k - 1), ns[k - 1])
    }
}

/// The traversal state of one file: the call-sites recorded so far and the
/// file's binding tables. A fresh one is made for each file, so no binding
/// outlives the file it was made in.
pub struct MongoQueryVisitor {
    pub queries: Vec<MongoQuery>,
    pub file_path: String,
    pub service: String,
    /// Constructor-injected property name to model name, latest last.
    pub model_map: Vec<(String, String)>,
    /// Variable name to the fields of the object literal it was initialized
    /// with (ascending), latest last.
    pub object_map: Vec<(String, Vec<String>)>,
}

/// A recorded call-site as an `Occurrence`.
pub open spec fn occurrence_of(q: MongoQuery) -> Occurrence {
    Occurrence {
        file: q.file@,
        line: q.line,
        service: q.service@,
        collection: q.collection@,
        method: q.method@,
        fields: strs(q.query_fields@).to_set(),
        raw: q.raw_match@,
    }
}

impl View for MongoQueryVisitor {
    type V = VisitorModel;

    open spec fn view(&self) -> VisitorModel {
        VisitorModel {
            file: self.file_path@,
            service: self.service@,
            queries: self.queries@.map_values(|q: MongoQuery| occurrence_of(q)),
            models: self.model_map@.map_values(|p: (String, String)| (p.0@, p.1@)),
            objects: self.object_map@.map_values(
                |p: (String, Vec<String>)| (p.0@, strs(p.1@).to_set()),
            ),
        }
    }
}

/// A recorded call-site whose fields are ascending and free of duplicates and
/// whose method is a recognized one.
pub open spec fn query_well_formed(q: MongoQuery) -> bool {
    strictly_sorted(strs(q.query_fields@)) && is_query_method_spec(q.method@)
}

/// Whether `m` is a recognized query method.
pub fn is_query_method(m: &str) -> (r: bool)
    ensures
        r == is_query_method_spec(m@),
{
    str_eq(m, "find") || str_eq(m, "findOne") || str_eq(m, "findOneAndUpdate") || str_eq(
        m,
        "findOneAndDelete",
    ) || str_eq(m, "findOneAndReplace") || str_eq(m, "updateOne") || str_eq(m, "updateMany")
        || str_eq(m, "deleteOne") || str_eq(m, "deleteMany") || str_eq(m, "aggregate") || str_eq(
        m,
        "count",
    ) || str_eq(m, "countDocuments") || str_eq(m, "distinct")
}

/// The position of the predicate argument of a recognized method.
pub fn predicate_index(m: &str) -> (r: Option<usize>)
    ensures
        r == predicate_index_spec(m@),
{
    if str_eq(m, "distinct") {
        Some(1)
    } else if str_eq(m, "findOneAndDelete") {
        None
    } else {
        Some(0)
    }
}

fn is_operator_key(k: &str) -> (r: bool)
    ensures
        r == is_operator(k@),
{
    k.unicode_len() > 0 && k.get_char(0) == '$'
}

fn copy_string(s: &String) -> (r: String)
    ensures
        r@ == s@,
{
    s.clone()
}

/// Adds to `fields` the fields of an object literal's properties.
fn add_props_fields(props: &Vec<Node>, fields: &mut Vec<String>)
    requires
        strictly_sorted(strs(old(fields)@)),
    ensures
        strictly_sorted(strs(final(fields)@)),
        strs(final(fields)@).to_set() == strs(old(fields)@).to_set().union(
            props_fields(props@, props@.len() as int),
        ),
    decreases props@,
{
    let ghost start = strs(fields@).to_set();
    let mut i: usize = 0;
    while i < props.len()
        invariant
            i <= props.len(),
            strictly_sorted(strs(fields@)),
            strs(fields@).to_set() == start.union(props_fields(props@, i as int)),
        decreases props.len() - i,
    {
        let ghost before = strs(fields@).to_set();
        let p = &props[i];
        match p {
            Node::KeyValue { key: Some(k), value } => {
                if is_operator_key(k.as_str()) {
                    add_operand_fields(value, fields);
                } else {
                    insert_sorted(fields, copy_string(k));
                }
            },
            Node::Shorthand(x) => {
                insert_sorted(fields, copy_string(x));
            },
            _ => {},
        }
        assert(strs(fields@).to_set() =~= before.union(prop_fields(props@[i as int])));
        assert(start.union(props_fields(props@, i + 1)) =~= start.union(
            props_fields(props@, i as int),
        ).union(prop_fields(props@[i as int])));
        i = i + 1;
    }
}

/// Adds to `fields` the fields nested under an operator key.
fn add_operand_fields(v: &Node, fields: &mut Vec<String>)
    requires
        strictly_sorted(strs(old(fields)@)),
    ensures
        strictly_sorted(strs(final(fields)@)),
        strs(final(fields)@).to_set() == strs(old(fields)@).to_set().union(operand_fields(*v)),
    decreases v,
{
    match v {
        Node::Object(ps) => {
            add_props_fields(ps, fields);
        },
        Node::Array(es) => {
            add_elems_fields(es, fields);
        },
        _ => {
            assert(strs(fields@).to_set() =~= strs(fields@).to_set().union(Set::empty()));
        },
    }
}

/// Adds to `fields` the fields of each object literal in an array literal.
fn add_elems_fields(es: &Vec<Node>, fields: &mut Vec<String>)
    requires
        strictly_sorted(strs(old(fields)@)),
    ensures
        strictly_sorted(strs(final(fields)@)),
        strs(final(fields)@).to_set() == strs(old(fields)@).to_set().union(
            elems_fields(es@, es@.len() as int),
        ),
    decreases es@,
{
    let ghost start = strs(fields@).to_set();
    let mut i: usize = 0;
    while i < es.len()
        invariant
            i <= es.len(),
            strictly_sorted(strs(fields@)),
            strs(fields@).to_set() == start.union(elems_fields(es@, i as int)),
        decreases es.len() - i,
    {
        let ghost before = strs(fields@).to_set();
        match &es[i] {
            Node::Object(ps) => {
                add_props_fields(ps, fields);
            },
            _ => {},
        }
        assert(strs(fields@).to_set() =~= before.union(elem_fields(es@[i as int])));
        assert(start.union(elems_fields(es@, i + 1)) =~= start.union(
            elems_fields(es@, i as int),
        ).union(elem_fields(es@[i as int])));
        i = i + 1;
    }
}

/// The fields of an object literal's properties, ascending and without
/// duplicates. Operator keys (starting with `$`) are not fields; the fields
/// nested under them, at any depth, are.
pub fn extract_fields(props: &Vec<Node>) -> (r: Vec<String>)
    ensures
        strictly_sorted(strs(r@)),
        strs(r@).to_set() == props_fields(props@, props@.len() as int),
{
    let mut fields: Vec<String> = Vec::new();
    assert(strs(fields@).to_set() =~= Set::empty());
    add_props_fields(props, &mut fields);
    assert(strs(fields@).to_set() =~= props_fields(props@, props@.len() as int));
    fields
}

impl MongoQueryVisitor {
    /// Every recorded call-site is well formed.
    pub open spec fn well_formed(&self) -> bool {
        forall|i: int| 0 <= i < self.queries@.len() ==> query_well_formed(#[trigger] self.queries@[i])
    }

    /// A visitor for one file, with empty binding tables.
    pub fn new(file_path: String, service: String) -> (r: Self)
        ensures
            r@.file == file_path@,
            r@.service == service@,
            r@.queries == Seq::<Occurrence>::empty(),
            r@.models == Seq::<(Seq<char>, Seq<char>)>::empty(),
            r@.objects == Seq::<(Seq<char>, Set<Seq<char>>)>::empty(),
            r.well_formed(),
    {
        let r = MongoQueryVisitor {
            queries: Vec::new(),
            file_path,
            service,
            model_map: Vec::new(),
            object_map: Vec::new(),
        };
        assert(r@.queries =~= Seq::<Occurrence>::empty());
        assert(r@.models =~= Seq::<(Seq<char>, Seq<char>)>::empty());
        assert(r@.objects =~= Seq::<(Seq<char>, Set<Seq<char>>)>::empty());
        r
    }

    /// The model name most recently bound to property `k`.
    fn lookup_model(&self, k: &str) -> (r: Option<String>)
        ensures
            opt_view(r) == lookup(self@.models, k@),
    {
        let ghost t = self@.models;
        let mut i: usize = self.model_map.len();
        assert(t.take(i as int) =~= t);
        while i > 0
            invariant
                i <= self.model_map.len(),
                t == self@.models,
                lookup(t, k@) == lookup(t.take(i as int), k@),
            decreases i,
        {
            let ghost ti = t.take(i as int);
            assert(ti.drop_last() =~= t.take(i - 1));
            if str_eq(self.model_map[i - 1].0.as_str(), k) {
                return Some(copy_string(&self.model_map[i - 1].1));
            }
            i = i - 1;
        }
        None
    }

    /// The position in `object_map` of the latest binding of variable `k`.
    fn lookup_object(&self, k: &str) -> (r: Option<usize>)
        ensures
            match r {
                Some(i) => i < self.object_map@.len() && lookup(self@.objects, k@) == Some(
                    self@.objects[i as int].1,
                ),
                None => lookup(self@.objects, k@) is None,
            },
    {
        let ghost t = self@.objects;
        let mut i: usize = self.object_map.len();
        assert(t.take(i as int) =~= t);
        while i > 0
            invariant
                i <= self.object_map.len(),
                t == self@.objects,
                lookup(t, k@) == lookup(t.take(i as int), k@),
            decreases i,
        {
            let ghost ti = t.take(i as int);
            assert(ti.drop_last() =~= t.take(i - 1));
            if str_eq(self.object_map[i - 1].0.as_str(), k) {
                return Some(i - 1);
            }
            i = i - 1;
        }
        None
    }

    /// The fields of a predicate argument, ascending and without duplicates:
    /// an object literal, a variable bound to one, or an array literal of
    /// object literals (pipeline stages).
    pub fn predicate_field_list(&self, arg: &Node) -> (r: Vec<String>)
        ensures
            strictly_sorted(strs(r@)),
            strs(r@).to_set() == predicate_fields(*arg, self@.objects),
    {
        let mut fields: Vec<String> = Vec::new();
        assert(strs(fields@).to_set() =~= Set::empty());
        match arg {
            Node::Object(ps) => {
                add_props_fields(ps, &mut fields);
            },
            Node::Ident(x) => {
                match self.lookup_object(x.as_str()) {
                    Some(j) => {
                        let bound = &self.object_map[j].1;
                        let mut i: usize = 0;
                        while i < bound.len()
                            invariant
                                i <= bound.len(),
                                j < self.object_map@.len(),
                                bound == self.object_map@[j as int].1,
                                strictly_sorted(strs(fields@)),
                                strs(fields@).to_set() == strs(bound@).take(i as int).to_set(),
                            decreases bound.len() - i,
                        {
                            insert_sorted(&mut fields, copy_string(&bound[i]));
                            assert(strs(bound@).take(i + 1) =~= strs(bound@).take(i as int).push(
                                bound@[i as int]@,
                            ));
                            proof {
                                lemma_push_to_set(strs(bound@).take(i as int), bound@[i as int]@);
                            }
                            i = i + 1;
                        }
                        assert(strs(bound@).take(i as int) =~= strs(bound@));
                    },
                    None => {},
                }
            },
            Node::Array(es) => {
                add_elems_fields(es, &mut fields);
            },
            _ => {},
        }
        assert(strs(fields@).to_set() =~= predicate_fields(*arg, self@.objects));
        fields
    }

    /// The collection that an object expression designates: the literal
    /// argument of `.collection('name')`, through any `useDb(..)` or
    /// `getConnection(..)` links; or, for `this.p`, the lower-cased model
    /// bound to `p`, or else, for `p` named `<x>Model`, `x` lower-cased.
    pub fn resolve_collection(&self, e: &Node) -> (r: Option<String>)
        ensures
            opt_view(r) == resolve(*e, self@.models),
        decreases e,
    {
        match e {
            Node::Call { callee, args, .. } => {
                match &**callee {
                    Node::Member { object, property: Some(p) } => {
                        if str_eq(p.as_str(), "collection") {
                            if args.len() > 0 {
                                match &args[0] {
                                    Node::Str(s) => Some(copy_string(s)),
                                    _ => None,
                                }
                            } else {
                                None
                            }
                        } else if str_eq(p.as_str(), "useDb") || str_eq(
                            p.as_str(),
                            "getConnection",
                        ) {
                            self.resolve_collection(object)
                        } else {
                            None
                        }
                    },
                    _ => None,
                }
            },
            Node::Member { object, property: Some(p) } => {
                match &**object {
                    Node::This => {
                        match self.lookup_model(p.as_str()) {
                            Some(c) => Some(lowercase(c.as_str())),
                            None => {
                                let s = p.as_str();
                                let n = s.unicode_len();
                                if n >= 5 && s.get_char(n - 5) == 'M' && s.get_char(n - 4) == 'o'
                                    && s.get_char(n - 3) == 'd' && s.get_char(n - 2) == 'e'
                                    && s.get_char(n - 1) == 'l' {
                                    Some(lowercase(s.substring_char(0, n - 5)))
                                } else {
                                    None
                                }
                            },
                        }
                    },
                    _ => None,
                }
            },
            _ => None,
        }
    }

    /// Records the call-site that a call node is, if any.
    fn record_call(&mut self, n: &Node)
        requires
            old(self).well_formed(),
        ensures
            final(self)@ == record(old(self)@, *n),
            final(self).well_formed(),
    {
        let ghost st = self@;
        match n {
            Node::Call { callee, args, arg_text, line } => {
                match &**callee {
                    Node::Member { object, property: Some(m) } => {
                        if is_query_method(m.as_str()) {
                            let collection = match self.resolve_collection(object) {
                                Some(c) => c,
                                None => String::from_str("unknown"),
                            };
                            let pi = predicate_index(m.as_str());
                            let mut fields: Vec<String> = Vec::new();
                            assert(strs(fields@).to_set() =~= Set::<Seq<char>>::empty());
                            assert(strictly_sorted(strs(fields@)));
                            let mut raw = copy_string(&collection);
                            raw.append(".");
                            raw.append(m.as_str());
                            raw.append("(");
                            match pi {
                                Some(i) => {
                                    if i < args.len() {
                                        fields = self.predicate_field_list(&args[i]);
                                    }
                                    if i < arg_text.len() {
                                        match &arg_text[i] {
                                            Some(text) => raw.append(text.as_str()),
                                            None => raw.append("..."),
                                        }
                                    } else {
                                        raw.append("...");
                                    }
                                },
                                None => raw.append("..."),
                            }
                            raw.append(")");
                            let q = MongoQuery {
                                file: copy_string(&self.file_path),
                                line: *line,
                                service: copy_string(&self.service),
                                collection,
                                method: copy_string(m),
                                query_fields: fields,
                                raw_match: raw,
                            };
                            let ghost occ = occurrence(st, *n)->0;
                            assert(occurrence_of(q) == occ);
                            self.queries.push(q);
                            assert(self@.queries =~= st.queries.push(occ));
                            assert forall|k: int| 0 <= k < self.queries@.len() implies query_well_formed(
                                #[trigger] self.queries@[k],
                            ) by {
                                if k < st.queries.len() {
                                    assert(self.queries@[k] == old(self).queries@[k]);
                                }
                            }
                        }
                    },
                    _ => {},
                }
            },
            _ => {},
        }
    }

    /// The model name that a decorator injects, if any.
    fn injected_model_name(d: &Node) -> (r: Option<String>)
        ensures
            opt_view(r) == injected_model(*d),
    {
        match d {
            Node::Call { callee, args, .. } => {
                match &**callee {
                    Node::Ident(f) => {
                        if str_eq(f.as_str(), "InjectModel") && args.len() > 0 {
                            match &args[0] {
                                Node::Member { object, .. } => match &**object {
                                    Node::Ident(o) => Some(copy_string(o)),
                                    _ => None,
                                },
                                Node::Str(s) => Some(copy_string(s)),
                                _ => None,
                            }
                        } else {
                            None
                        }
                    },
                    _ => None,
                }
            },
            _ => None,
        }
    }

    /// Binds each decorated constructor parameter property to the model that
    /// its decorator injects.
    fn bind_constructor_params(&mut self, params: &Vec<Node>)
        ensures
            final(self)@ == (VisitorModel {
                models: bind_params(old(self)@.models, params@, params@.len() as int),
                ..old(self)@
            }),
            final(self).queries@ == old(self).queries@,
    {
        let ghost st = self@;
        let mut i: usize = 0;
        while i < params.len()
            invariant
                i <= params.len(),
                self@ == (VisitorModel { models: bind_params(st.models, params@, i as int), ..st }),
                self.queries@ == old(self).queries@,
            decreases params.len() - i,
        {
            match &params[i] {
                Node::ParamProp { name: Some(x), decorators } => {
                    let ghost m0 = self@.models;
                    let mut j: usize = 0;
                    while j < decorators.len()
                        invariant
                            j <= decorators.len(),
                            self@ == (VisitorModel {
                                models: bind_decorators(m0, x@, decorators@, j as int),
                                ..st
                            }),
                            self.queries@ == old(self).queries@,
                        decreases decorators.len() - j,
                    {
                        match Self::injected_model_name(&decorators[j]) {
                            Some(c) => {
                                let ghost before = self@.models;
                                self.model_map.push((copy_string(x), c));
                                assert(self@.models =~= before.push((x@, c@)));
                            },
                            None => {},
                        }
                        j = j + 1;
                    }
                },
                _ => {},
            }
            i = i + 1;
        }
    }

    /// Walks one node: its children first, in source order, then the node
    /// itself. A constructor's parameter properties are bound before its
    /// children are walked; a variable initialized with an object literal is
    /// bound after its initializer is walked.
    pub fn visit(&mut self, n: &Node)
        requires
            old(self).well_formed(),
        ensures
            final(self)@ == walk(old(self)@, *n),
            final(self).well_formed(),
        decreases n,
    {
        match n {
            Node::Member { object, .. } => self.visit(object),
            Node::Call { callee, args, .. } => {
                self.visit(callee);
                self.visit_all(args);
                self.record_call(n);
            },
            Node::Object(cs) => self.visit_all(cs),
            Node::Array(cs) => self.visit_all(cs),
            Node::Other(cs) => self.visit_all(cs),
            Node::KeyValue { value, .. } => self.visit(value),
            Node::VarDecl { name, init } => {
                match init {
                    Some(e) => {
                        self.visit(e);
                        let ghost mid = self@;
                        match name {
                            Some(x) => {
                                match &**e {
                                    Node::Object(ps) => {
                                        let f = extract_fields(ps);
                                        self.object_map.push((copy_string(x), f));
                                        assert(self@.objects =~= mid.objects.push(
                                            (x@, props_fields(ps@, ps@.len() as int)),
                                        ));
                                    },
                                    _ => {},
                                }
                            },
                            None => {},
                        }
                    },
                    None => {},
                }
            },
            Node::Constructor { params, body } => {
                self.bind_constructor_params(params);
                self.visit_all(params);
                self.visit_all(body);
            },
            Node::ParamProp { decorators, .. } => self.visit_all(decorators),
            _ => {},
        }
    }

    /// Walks a sequence of nodes in order.
    pub fn visit_all(&mut self, ns: &Vec<Node>)
        requires
            old(self).well_formed(),
        ensures
            final(self)@ == walk_seq(old(self)@, ns@, ns@.len() as int),
            final(self).well_formed(),
        decreases ns@,
    {
        let ghost st = self@;
        let mut i: usize = 0;
        while i < ns.len()
            invariant
                i <= ns.len(),
                self@ == walk_seq(st, ns@, i as int),
                self.well_formed(),
            decreases ns.len() - i,
        {
            self.visit(&ns[i]);
            i = i + 1;
        }
    }
}

/// The state in which the walk of a file begins.
pub open spec fn initial_model(file: Seq<char>, service: Seq<char>) -> VisitorModel {
    VisitorModel {
        file: file,
        service: service,
        queries: Seq::empty(),
        models: Seq::empty(),
        objects: Seq::empty(),
    }
}

/// The call-sites that one file's top-level nodes hold, in the order in which
/// the walk completes them.
pub open spec fn file_occurrences(module: Seq<Node>, file: Seq<char>, service: Seq<char>) -> Seq<
    Occurrence,
> {
    walk_seq(initial_model(file, service), module, module.len() as int).queries
}

/// Detects the query call-sites of one parsed file. Each has its fields
/// ascending and free of duplicates, and a recognized method.
pub fn detect_queries(module: &Vec<Node>, file_path: String, service: String) -> (r: Vec<
    MongoQuery,
>)
    ensures
        r@.map_values(|q: MongoQuery| occurrence_of(q)) == file_occurrences(
            module@,
            file_path@,
            service@,
        ),
        forall|i: int| 0 <= i < r@.len() ==> query_well_formed(#[trigger] r@[i]),
{
    let ghost file = file_path@;
    let ghost svc = service@;
    let mut v = MongoQueryVisitor::new(file_path, service);
    assert(v@ == initial_model(file, svc));
    v.visit_all(module);
    assert(forall|i: int| 0 <= i < v.queries@.len() ==> query_well_formed(#[trigger] v.queries@[i]));
    v.queries
}

/// Collection resolution is a function of the expression and the model
/// bindings alone: the same shape under the same bindings resolves alike,
/// whatever else the traversal has recorded.
pub proof fn lemma_resolution_deterministic(e: Node, s1: VisitorModel, s2: VisitorModel)
    requires
        s1.models == s2.models,
    ensures
        resolve(e, s1.models) == resolve(e, s2.models),
{
}

/// `this.p` resolves to the (lower-cased) model bound to `p` whenever there
/// is one; the `...Model` name fallback applies only to unbound properties.
pub proof fn lemma_binding_precedes_fallback(
    e: Node,
    p: String,
    models: Seq<(Seq<char>, Seq<char>)>,
)
    requires
        e == (Node::Member { object: Box::new(Node::This), property: Some(p) }),
    ensures
        lookup(models, p@) is Some ==> resolve(e, models) == Some(lower_of(lookup(models, p@)->0)),
        lookup(models, p@) is None && !ends_with_model(p@) ==> resolve(e, models) is None,
{
}

/// An operator-keyed property contributes exactly the fields nested under it,
/// never its own key, and those fields are among the fields of the enclosing
/// literal; a property with any other key contributes that key.
pub proof fn lemma_operator_keys(ps: Seq<Node>, i: int)
    requires
        0 <= i < ps.len(),
        ps[i] is KeyValue,
        ps[i]->KeyValue_key is Some,
    ensures
        ({
            let k = ps[i]->KeyValue_key->0@;
            let v = *ps[i]->KeyValue_value;
            &&& is_operator(k) ==> prop_fields(ps[i]) == operand_fields(v)
            &&& !is_operator(k) ==> prop_fields(ps[i]) == set![k]
            &&& prop_fields(ps[i]).subset_of(props_fields(ps, ps.len() as int))
        }),
{
    lemma_props_fields_mono(ps, i + 1, ps.len() as int);
}

proof fn lemma_props_fields_mono(ps: Seq<Node>, j: int, k: int)
    requires
        0 < j <= k <= ps.len(),
    ensures
        prop_fields(ps[j - 1]).subset_of(props_fields(ps, k)),
    decreases k - j,
{
    if j < k {
        lemma_props_fields_mono(ps, j, k - 1);
    }
}

/// `w` is `st` with call-sites appended and nothing else of the file
/// changed: each appended call-site has a recognized method and names the
/// walked file and service.
pub open spec fn extends(st: VisitorModel, w: VisitorModel) -> bool {
    &&& w.file == st.file
    &&& w.service == st.service
    &&& st.queries.len() <= w.queries.len()
    &&& forall|i: int| 0 <= i < st.queries.len() ==> w.queries[i] == st.queries[i]
    &&& forall|i: int|
        st.queries.len() <= i < w.queries.len() ==> {
            let q = #[trigger] w.queries[i];
            &&& is_query_method_spec(q.method)
            &&& q.file == st.file
            &&& q.service == st.service
        }
}

proof fn lemma_extends_trans(a: VisitorModel, b: VisitorModel, c: VisitorModel)
    requires
        extends(a, b),
        extends(b, c),
    ensures
        extends(a, c),
{
    assert forall|i: int| a.queries.len() <= i < c.queries.len() implies {
        let q = #[trigger] c.queries[i];
        &&& is_query_method_spec(q.method)
        &&& q.file == a.file
        &&& q.service == a.service
    } by {
        if i < b.queries.len() {
            assert(c.queries[i] == b.queries[i]);
        }
    }
}

/// A call whose callee is not `object.method` with a recognized method
/// records nothing: no other call is ever emitted.
pub proof fn lemma_unrecognized_call(st: VisitorModel, n: Node)
    requires
        n is Call,
        !(*n->Call_callee is Member && n->Call_callee->Member_property is Some
            && is_query_method_spec(n->Call_callee->Member_property->0@)),
    ensures
        record(st, n) == st,
{
}

/// Walking a node only appends call-sites, each from a recognized query
/// method and in the walked file; the bindings are the only other change.
pub proof fn lemma_walk_extends(st: VisitorModel, n: Node)
    ensures
        extends(st, walk(st, n)),
    decreases n, 0int,
{
    match n {
        Node::Member { object, .. } => {
            lemma_walk_extends(st, *object);
        },
        Node::Call { callee, args, .. } => {
            lemma_walk_extends(st, *callee);
            let a = walk(st, *callee);
            lemma_walk_seq_extends(a, args@, args@.len() as int);
            let b = walk_seq(a, args@, args@.len() as int);
            lemma_extends_trans(st, a, b);
            assert(extends(b, record(b, n)));
            lemma_extends_trans(st, b, record(b, n));
        },
        Node::Object(cs) => {
            lemma_walk_seq_extends(st, cs@, cs@.len() as int);
        },
        Node::Array(cs) => {
            lemma_walk_seq_extends(st, cs@, cs@.len() as int);
        },
        Node::Other(cs) => {
            lemma_walk_seq_extends(st, cs@, cs@.len() as int);
        },
        Node::KeyValue { value, .. } => {
            lemma_walk_extends(st, *value);
        },
        Node::VarDecl { name, init } => {
            match init {
                Some(e) => {
                    lemma_walk_extends(st, *e);
                },
                None => {},
            }
        },
        Node::Constructor { params, body } => {
            let bound = VisitorModel {
                models: bind_params(st.models, params@, params@.len() as int),
                ..st
            };
            lemma_walk_seq_extends(bound, params@, params@.len() as int);
            let a = walk_seq(bound, params@, params@.len() as int);
            lemma_walk_seq_extends(a, body@, body@.len() as int);
            lemma_extends_trans(st, bound, a);
            lemma_extends_trans(st, a, walk_seq(a, body@, body@.len() as int));
        },
        Node::ParamProp { decorators, .. } => {
            lemma_walk_seq_extends(st, decorators@, decorators@.len() as int);
        },
        _ => {},
    }
}

/// Walking a sequence of nodes only appends call-sites, as for one node.
pub proof fn lemma_walk_seq_extends(st: VisitorModel, ns: Seq<Node>, k: int)
    ensures
        extends(st, walk_seq(st, ns, k)),
    decreases ns, k,
{
    if 0 < k <= ns.len() {
        lemma_walk_seq_extends(st, ns, k - 1);
        let a = walk_seq(st, ns, k - 1);
        lemma_walk_extends(a, ns[k - 1]);
        lemma_extends_trans(st, a, walk(a, ns[k - 1]));
    }
}

/// Every call-site found in a file has a recognized method and names that
/// file and service.
pub proof fn lemma_file_occurrences(module: Seq<Node>, file: Seq<char>, service: Seq<char>)
    ensures
        forall|i: int|
            0 <= i < file_occurrences(module, file, service).len() ==> {
                let o = #[trigger] file_occurrences(module, file, service)[i];
                &&& is_query_method_spec(o.method)
                &&& o.file == file
                &&& o.service == service
            },
{
    lemma_walk_seq_extends(initial_model(file, service), module, module.len() as int);
}

/// A variable bound to an object literal supplies that literal's fields when
/// it is the predicate argument.
pub proof fn lemma_local_binding(st: VisitorModel, x: String, ps: Vec<Node>)
    ensures
        predicate_fields(
            Node::Ident(x),
            bind_var(st, Some(x), Node::Object(ps)).objects,
        ) == props_fields(ps@, ps@.len() as int),
{
}

/// The properties of the object literal reached from properties `ps` by
/// following `path` through operator-keyed values. Each step `(i, j)` takes
/// property `i`, whose key must be an operator, and then its object-literal
/// value (`j < 0`) or the object literal at position `j` of its array value.
pub open spec fn under_operators(ps: Seq<Node>, path: Seq<(int, int)>) -> Option<Seq<Node>>
    decreases path.len(),
{
    if path.len() == 0 {
        Some(ps)
    } else {
        let i = path[0].0;
        let j = path[0].1;
        if 0 <= i < ps.len() && ps[i] is KeyValue && ps[i]->KeyValue_key is Some && is_operator(
            ps[i]->KeyValue_key->0@,
        ) {
            match *ps[i]->KeyValue_value {
                Node::Object(qs) => if j < 0 {
                    under_operators(qs@, path.drop_first())
                } else {
                    None
                },
                Node::Array(es) => if 0 <= j < es@.len() && es@[j] is Object {
                    under_operators(es@[j]->Object_0@, path.drop_first())
                } else {
                    None
                },
                _ => None,
            }
        } else {
            None
        }
    }
}

proof fn lemma_elems_fields_mono(es: Seq<Node>, j: int, k: int)
    requires
        0 < j <= k <= es.len(),
    ensures
        elem_fields(es[j - 1]).subset_of(elems_fields(es, k)),
    decreases k - j,
{
    if j < k {
        lemma_elems_fields_mono(es, j, k - 1);
    }
}

/// The fields of an object literal nested under operator keys, at any
/// depth, are all among the fields extracted from the enclosing literal.
pub proof fn lemma_nested_fields_extracted(ps: Seq<Node>, path: Seq<(int, int)>)
    requires
        under_operators(ps, path) is Some,
    ensures
        ({
            let qs = under_operators(ps, path)->0;
            props_fields(qs, qs.len() as int).subset_of(props_fields(ps, ps.len() as int))
        }),
    decreases path.len(),
{
    if path.len() > 0 {
        let i = path[0].0;
        let j = path[0].1;
        let v = *ps[i]->KeyValue_value;
        lemma_props_fields_mono(ps, i + 1, ps.len() as int);
        match v {
            Node::Object(qs) => {
                lemma_nested_fields_extracted(qs@, path.drop_first());
            },
            Node::Array(es) => {
                lemma_elems_fields_mono(es@, j + 1, es@.len() as int);
                lemma_nested_fields_extracted(es@[j]->Object_0@, path.drop_first());
            },
            _ => {},
        }
    }
}

/// The shorthand names among the fields that one property contributes.
pub open spec fn prop_shorthands(p: Node) -> Set<Seq<char>>
    decreases p, 0nat,
{
    match p {
        Node::KeyValue { key, value } => match key {
            Some(k) => if is_operator(k@) {
                operand_shorthands(*value)
            } else {
                Set::empty()
            },
            None => Set::empty(),
        },
        Node::Shorthand(x) => set![x@],
        _ => Set::empty(),
    }
}

/// The shorthand names nested under an operator key.
pub open spec fn operand_shorthands(v: Node) -> Set<Seq<char>>
    decreases v, 0nat,
{
    match v {
        Node::Object(ps) => props_shorthands(ps@, ps@.len() as int),
        Node::Array(es) => elems_shorthands(es@, es@.len() as int),
        _ => Set::empty(),
    }
}

/// The shorthand names of an element of an array literal.
pub open spec fn elem_shorthands(e: Node) -> Set<Seq<char>>
    decreases e, 0nat,
{
    match e {
        Node::Object(ps) => props_shorthands(ps@, ps@.len() as int),
        _ => Set::empty(),
    }
}

/// The shorthand names among the fields of the first `k` properties.
pub open spec fn props_shorthands(ps: Seq<Node>, k: int) -> Set<Seq<char>>
    decreases ps, k,
{
    if k <= 0 || k > ps.len() {
        Set::empty()
    } else {
        props_shorthands(ps, k - 1).union(prop_shorthands(ps[k - 1]))
    }
}

/// The shorthand names among the fields of the first `k` array elements.
pub open spec fn elems_shorthands(es: Seq<Node>, k: int) -> Set<Seq<char>>
    decreases es, k,
{
    if k <= 0 || k > es.len() {
        Set::empty()
    } else {
        elems_shorthands(es, k - 1).union(elem_shorthands(es[k - 1]))
    }
}

/// An operator key is never a field because of its own property: a field
/// that starts with `$` can only come from a shorthand property `{ $name }`.
pub proof fn lemma_operator_key_not_field(ps: Seq<Node>, k: int, x: Seq<char>)
    requires
        props_fields(ps, k).contains(x),
        is_operator(x),
    ensures
        props_shorthands(ps, k).contains(x),
    decreases ps, k,
{
    if 0 < k <= ps.len() {
        if props_fields(ps, k - 1).contains(x) {
            lemma_operator_key_not_field(ps, k - 1, x);
        } else {
            lemma_prop_operator_not_field(ps[k - 1], x);
        }
    }
}

proof fn lemma_prop_operator_not_field(p: Node, x: Seq<char>)
    requires
        prop_fields(p).contains(x),
        is_operator(x),
    ensures
        prop_shorthands(p).contains(x),
    decreases p, 0nat,
{
    match p {
        Node::KeyValue { key, value } => {
            if key is Some && is_operator(key->0@) {
                lemma_operand_operator_not_field(*value, x);
            }
        },
        _ => {},
    }
}

proof fn lemma_operand_operator_not_field(v: Node, x: Seq<char>)
    requires
        operand_fields(v).contains(x),
        is_operator(x),
    ensures
        operand_shorthands(v).contains(x),
    decreases v, 0nat,
{
    match v {
        Node::Object(ps) => {
            lemma_operator_key_not_field(ps@, ps@.len() as int, x);
        },
        Node::Array(es) => {
            lemma_elems_operator_not_field(es@, es@.len() as int, x);
        },
        _ => {},
    }
}

proof fn lemma_elems_operator_not_field(es: Seq<Node>, k: int, x: Seq<char>)
    requires
        elems_fields(es, k).contains(x),
        is_operator(x),
    ensures
        elems_shorthands(es, k).contains(x),
    decreases es, k,
{
    if 0 < k <= es.len() {
        if elems_fields(es, k - 1).contains(x) {
            lemma_elems_operator_not_field(es, k - 1, x);
        } else {
            assert(elem_fields(es[k - 1]).contains(x));
            match es[k - 1] {
                Node::Object(ps) => {
                    assert(elem_fields(es[k - 1]) == props_fields(ps@, ps@.len() as int));
                    lemma_operator_key_not_field(ps@, ps@.len() as int, x);
                    assert(elem_shorthands(es[k - 1]) == props_shorthands(ps@, ps@.len() as int));
                },
                _ => {},
            }
        }
    }
}

} // verus!
