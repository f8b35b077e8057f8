//! Static detection of database query call-sites in TypeScript syntax trees,
//! and aggregation of the detected call-sites into usage statistics and
//! index suggestions.
use vstd::prelude::*;

pub mod analysis;
pub mod breakdown;
pub mod config;
pub mod project;
pub mod syntax;
pub mod text;
pub mod visitor;

verus! {

/// A detected query call-site.
#[derive(Debug, Clone, PartialEq)]
pub struct MongoQuery {
    pub file: String,
    pub line: usize,
    pub service: String,
    pub collection: String,
    pub method: String,
    pub query_fields: Vec<String>,
    pub raw_match: String,
}

/// The mathematical value of a `MongoQuery`.
pub struct QueryView {
    pub file: Seq<char>,
    pub line: usize,
    pub service: Seq<char>,
    pub collection: Seq<char>,
    pub method: Seq<char>,
    pub fields: Seq<Seq<char>>,
    pub raw: Seq<char>,
}

impl View for MongoQuery {
    type V = QueryView;

    open spec fn view(&self) -> QueryView {
        QueryView {
            file: self.file@,
            line: self.line,
            service: self.service@,
            collection: self.collection@,
            method: self.method@,
            fields: text::strs(self.query_fields@),
            raw: self.raw_match@,
        }
    }
}

/// The views of a sequence of queries.
pub open spec fn query_views(qs: Seq<MongoQuery>) -> Seq<QueryView> {
    qs.map_values(|q: MongoQuery| q@)
}

} // verus!
