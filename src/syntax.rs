//! The closed set of syntax shapes that query detection looks at. A parser
//! front end lowers its own tree into these; every shape that detection does
//! not inspect becomes `Other`, keeping its sub-nodes in source order.
use vstd::prelude::*;

verus! {

/// One node of a TypeScript syntax tree.
#[derive(Debug)]
pub enum Node {
    /// `this`
    This,
    /// An identifier reference.
    Ident(String),
    /// A string literal, by its value.
    Str(String),
    /// `object.property`; `property` is `None` when it is not a plain name.
    Member { object: Box<Node>, property: Option<String> },
    /// `callee(args)`, with the source text of each argument where it could be
    /// recovered, and the 1-based line on which the call starts.
    Call { callee: Box<Node>, args: Vec<Node>, arg_text: Vec<Option<String>>, line: usize },
    /// An object literal; its properties are `KeyValue`, `Shorthand` or `Other`.
    Object(Vec<Node>),
    /// `key: value`; `key` is `None` unless it is a name, a string, or a computed
    /// string literal.
    KeyValue { key: Option<String>, value: Box<Node> },
    /// `{ name }`
    Shorthand(String),
    /// An array literal; holes and spread elements are `Other`.
    Array(Vec<Node>),
    /// `let name = init`; `name` is `None` for a destructuring pattern.
    VarDecl { name: Option<String>, init: Option<Box<Node>> },
    /// A class constructor.
    Constructor { params: Vec<Node>, body: Vec<Node> },
    /// A constructor parameter property, with its decorators; `name` is `None`
    /// for a pattern.
    ParamProp { name: Option<String>, decorators: Vec<Node> },
    /// Any other shape, with its sub-nodes in source order.
    Other(Vec<Node>),
}

/// The view of an optional string.
pub open spec fn opt_view(o: Option<String>) -> Option<Seq<char>> {
    match o {
        Some(s) => Some(s@),
        None => None,
    }
}

} // verus!
