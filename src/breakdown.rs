//! The per-collection breakdown of call-sites: by file, by field, and by the
//! exact set of fields a call-site filters on.
use vstd::prelude::*;

use crate::analysis::{
    contains_string, filter_view, insert_ranked, items_of, passes, rank_sorted, ranking_view,
    selected, usage_count,
};
use crate::text::{lemma_lt_total, lemma_lt_trans, seq_lt, str_eq, str_lt, strictly_sorted, strs};
use crate::{query_views, MongoQuery, QueryView};

verus! {

/// The number of times `x` occurs in `keys`.
pub open spec fn count_in(keys: Seq<Seq<char>>, x: Seq<char>) -> nat
    decreases keys.len(),
{
    if keys.len() == 0 {
        0
    } else {
        count_in(keys.drop_last(), x) + if keys.last() == x {
            1nat
        } else {
            0nat
        }
    }
}

/// The names of a tally.
pub open spec fn tally_names(t: Seq<(Seq<char>, nat)>) -> Seq<Seq<char>> {
    t.map_values(|e: (Seq<char>, nat)| e.0)
}

/// `t` lists each distinct key once, in ascending order, with the number of
/// times it occurs.
pub open spec fn is_tally(t: Seq<(Seq<char>, nat)>, keys: Seq<Seq<char>>) -> bool {
    &&& strictly_sorted(tally_names(t))
    &&& tally_names(t).to_set() == keys.to_set()
    &&& forall|i: int| 0 <= i < t.len() ==> (#[trigger] t[i]).1 == count_in(keys, t[i].0)
}

proof fn lemma_count_le(keys: Seq<Seq<char>>, x: Seq<char>)
    ensures
        count_in(keys, x) <= keys.len(),
    decreases keys.len(),
{
    if keys.len() > 0 {
        lemma_count_le(keys.drop_last(), x);
    }
}

/// Each distinct key once, ascending, with the number of times it occurs.
pub fn tally(keys: &Vec<String>) -> (r: Vec<(String, usize)>)
    ensures
        is_tally(ranking_view(r@), strs(keys@)),
{
    let ghost ks = strs(keys@);
    let mut r: Vec<(String, usize)> = Vec::new();
    let mut i: usize = 0;
    assert(tally_names(ranking_view(r@)).to_set() =~= ks.take(0).to_set());
    while i < keys.len()
        invariant
            i <= keys.len(),
            ks == strs(keys@),
            is_tally(ranking_view(r@), ks.take(i as int)),
        decreases keys.len() - i,
    {
        let key = &keys[i];
        let ghost pre = ks.take(i as int);
        let ghost post = ks.take(i + 1);
        assert(post.drop_last() =~= pre);
        assert(post.last() == key@);
        assert(post =~= pre.push(key@));
        let ghost rv = ranking_view(r@);
        let ghost names = tally_names(rv);
        let mut p: usize = 0;
        while p < r.len() && str_lt(r[p].0.as_str(), key.as_str())
            invariant
                p <= r.len(),
                rv == ranking_view(r@),
                names == tally_names(rv),
                forall|m: int| 0 <= m < p ==> seq_lt(#[trigger] names[m], key@),
            decreases r.len() - p,
        {
            assert(names[p as int] == r@[p as int].0@);
            p = p + 1;
        }
        proof {
            lemma_count_le(pre, key@);
            crate::text::lemma_push_to_set(pre, key@);
        }
        if p < r.len() && str_eq(r[p].0.as_str(), key.as_str()) {
            assert(names[p as int] == key@);
            assert(rv[p as int].1 == count_in(pre, key@));
            let c = r[p].1;
            r[p].1 = c + 1;
            let ghost nv = ranking_view(r@);
            assert(tally_names(nv) =~= names);
            assert forall|m: int| 0 <= m < nv.len() implies (#[trigger] nv[m]).1 == count_in(
                post,
                nv[m].0,
            ) by {
                if m != p {
                    assert(nv[m] == rv[m]);
                    assert(names[m] != names[p as int]);
                }
            }
            assert(pre.to_set().insert(key@) =~= pre.to_set()) by {
                assert(names.to_set().contains(key@)) by {
                    assert(names[p as int] == key@);
                }
            }
        } else {
            proof {
                if p < r.len() {
                    lemma_lt_total(names[p as int], key@);
                }
            }
            r.insert(p, (key.clone(), 1));
            let ghost nv = ranking_view(r@);
            let ghost nn = tally_names(nv);
            assert(nv =~= rv.insert(p as int, (key@, 1nat)));
            assert(nn =~= names.insert(p as int, key@));
            assert forall|a: int, b: int| 0 <= a < b < nn.len() implies seq_lt(
                #[trigger] nn[a],
                #[trigger] nn[b],
            ) by {
                if a < p && b == p {
                } else if a == p && b > p {
                    if b - 1 > p {
                        assert(seq_lt(names[p as int], names[b - 1]));
                        lemma_lt_trans(key@, names[p as int], names[b - 1]);
                    }
                } else if a < p && b > p {
                    if b - 1 > p {
                        assert(seq_lt(names[p as int], names[b - 1]));
                        lemma_lt_trans(key@, names[p as int], names[b - 1]);
                    }
                    lemma_lt_trans(names[a], key@, names[b - 1]);
                } else if a > p {
                    assert(seq_lt(names[a - 1], names[b - 1]));
                } else {
                    assert(seq_lt(names[a], names[b]));
                }
            }
            assert(!names.contains(key@)) by {
                if names.contains(key@) {
                    let m = choose|m: int| 0 <= m < names.len() && names[m] == key@;
                    lemma_lt_total(key@, key@);
                    if m >= p {
                        if m > p {
                            assert(seq_lt(names[p as int], names[m]));
                            lemma_lt_trans(key@, names[p as int], names[m]);
                        }
                    }
                }
            }
            assert(!pre.to_set().contains(key@));
            assert(!pre.contains(key@));
            assert forall|m: int| 0 <= m < nv.len() implies (#[trigger] nv[m]).1 == count_in(
                post,
                nv[m].0,
            ) by {
                if m < p {
                    assert(nv[m] == rv[m]);
                    assert(names[m] != key@);
                } else if m > p {
                    assert(nv[m] == rv[m - 1]);
                    assert(names[m - 1] != key@);
                } else {
                    lemma_count_absent(pre, key@);
                }
            }
            assert forall|x: Seq<char>| nn.to_set().contains(x) <==> names.to_set().insert(
                key@,
            ).contains(x) by {
                if names.contains(x) {
                    let m = choose|m: int| 0 <= m < names.len() && names[m] == x;
                    if m < p {
                        assert(nn[m] == x);
                    } else {
                        assert(nn[m + 1] == x);
                    }
                }
                if nn.contains(x) {
                    let m = choose|m: int| 0 <= m < nn.len() && nn[m] == x;
                    if m < p {
                        assert(names[m] == x);
                    } else if m > p {
                        assert(names[m - 1] == x);
                    }
                }
                assert(nn[p as int] == key@);
            }
            assert(nn.to_set() =~= names.to_set().insert(key@));
        }
        i = i + 1;
    }
    assert(ks.take(i as int) =~= ks);
    r
}

proof fn lemma_count_absent(keys: Seq<Seq<char>>, x: Seq<char>)
    requires
        !keys.contains(x),
    ensures
        count_in(keys, x) == 0,
    decreases keys.len(),
{
    if keys.len() > 0 {
        assert(!keys.drop_last().contains(x)) by {
            if keys.drop_last().contains(x) {
                let m = choose|m: int| 0 <= m < keys.len() - 1 && keys.drop_last()[m] == x;
                assert(keys[m] == x);
            }
        }
        assert(keys.last() != x) by {
            assert(keys[keys.len() - 1] == keys.last());
        }
        lemma_count_absent(keys.drop_last(), x);
    }
}

/// In call-site order, the collection of each selected call-site.
pub open spec fn selected_collections(qs: Seq<QueryView>, filter: Option<Seq<char>>) -> Seq<Seq<char>>
    decreases qs.len(),
{
    if qs.len() == 0 {
        Seq::empty()
    } else {
        let s = selected_collections(qs.drop_last(), filter);
        let q = qs.last();
        if selected(q, filter) {
            s.push(q.collection)
        } else {
            s
        }
    }
}

fn gather_selected_collections(queries: &Vec<MongoQuery>, filter: Option<&str>, ) -> (r: Vec<String>)
    ensures
        strs(r@) == selected_collections(query_views(queries@), filter_view(filter)),
{
    let ghost qv = query_views(queries@);
    let mut r: Vec<String> = Vec::new();
    let mut i: usize = 0;
    assert(strs(r@) =~= selected_collections(qv.take(0), filter_view(filter)));
    while i < queries.len()
        invariant
            i <= queries.len(),
            qv == query_views(queries@),
            strs(r@) == selected_collections(qv.take(i as int), filter_view(filter)),
        decreases queries.len() - i,
    {
        let q = &queries[i];
        assert(qv.take(i + 1).drop_last() =~= qv.take(i as int));
        assert(qv.take(i + 1).last() == q@);
        if passes(q, filter) {
            r.push(q.collection.clone());
            assert(strs(r@) =~= selected_collections(qv.take(i + 1), filter_view(filter)));
        }
        i = i + 1;
    }
    assert(qv.take(i as int) =~= qv);
    r
}

/// In call-site order, the file of each selected call-site on collection `coll`.
pub open spec fn files_on(qs: Seq<QueryView>, filter: Option<Seq<char>>, coll: Seq<char>) -> Seq<Seq<char>>
    decreases qs.len(),
{
    if qs.len() == 0 {
        Seq::empty()
    } else {
        let s = files_on(qs.drop_last(), filter, coll);
        let q = qs.last();
        if selected(q, filter) && q.collection == coll {
            s.push(q.file)
        } else {
            s
        }
    }
}

fn gather_files_on(queries: &Vec<MongoQuery>, filter: Option<&str>, coll: &str, ) -> (r: Vec<String>)
    ensures
        strs(r@) == files_on(query_views(queries@), filter_view(filter), coll@),
{
    let ghost qv = query_views(queries@);
    let mut r: Vec<String> = Vec::new();
    let mut i: usize = 0;
    assert(strs(r@) =~= files_on(qv.take(0), filter_view(filter), coll@));
    while i < queries.len()
        invariant
            i <= queries.len(),
            qv == query_views(queries@),
            strs(r@) == files_on(qv.take(i as int), filter_view(filter), coll@),
        decreases queries.len() - i,
    {
        let q = &queries[i];
        assert(qv.take(i + 1).drop_last() =~= qv.take(i as int));
        assert(qv.take(i + 1).last() == q@);
        if passes(q, filter) && str_eq(q.collection.as_str(), coll) {
            r.push(q.file.clone());
            assert(strs(r@) =~= files_on(qv.take(i + 1), filter_view(filter), coll@));
        }
        i = i + 1;
    }
    assert(qv.take(i as int) =~= qv);
    r
}

/// In call-site order, the file of each selected call-site on collection `coll` that references `field`.
pub open spec fn files_using(qs: Seq<QueryView>, filter: Option<Seq<char>>, coll: Seq<char>, field: Seq<char>) -> Seq<Seq<char>>
    decreases qs.len(),
{
    if qs.len() == 0 {
        Seq::empty()
    } else {
        let s = files_using(qs.drop_last(), filter, coll, field);
        let q = qs.last();
        if selected(q, filter) && q.collection == coll && q.fields.contains(field) {
            s.push(q.file)
        } else {
            s
        }
    }
}

fn gather_files_using(queries: &Vec<MongoQuery>, filter: Option<&str>, coll: &str, field: &str, ) -> (r: Vec<String>)
    ensures
        strs(r@) == files_using(query_views(queries@), filter_view(filter), coll@, field@),
{
    let ghost qv = query_views(queries@);
    let mut r: Vec<String> = Vec::new();
    let mut i: usize = 0;
    assert(strs(r@) =~= files_using(qv.take(0), filter_view(filter), coll@, field@));
    while i < queries.len()
        invariant
            i <= queries.len(),
            qv == query_views(queries@),
            strs(r@) == files_using(qv.take(i as int), filter_view(filter), coll@, field@),
        decreases queries.len() - i,
    {
        let q = &queries[i];
        assert(qv.take(i + 1).drop_last() =~= qv.take(i as int));
        assert(qv.take(i + 1).last() == q@);
        if passes(q, filter) && str_eq(q.collection.as_str(), coll) && contains_string(&q.query_fields, field) {
            r.push(q.file.clone());
            assert(strs(r@) =~= files_using(qv.take(i + 1), filter_view(filter), coll@, field@));
        }
        i = i + 1;
    }
    assert(qv.take(i as int) =~= qv);
    r
}

/// The fields of a call-site in ascending order, without duplicates.
pub open spec fn normal_fields(fs: Seq<Seq<char>>) -> Seq<Seq<char>> {
    choose|t: Seq<Seq<char>>| strictly_sorted(t) && t.to_set() == fs.to_set()
}

/// Field names joined with `", "`.
pub open spec fn join_fields(t: Seq<Seq<char>>) -> Seq<char>
    decreases t.len(),
{
    if t.len() == 0 {
        Seq::empty()
    } else if t.len() == 1 {
        t[0]
    } else {
        join_fields(t.drop_last()) + ", "@ + t.last()
    }
}

/// The key of a call-site's field set: its fields, ascending and without
/// duplicates, joined with `", "`. Call-sites with the same set of fields
/// share a key.
pub open spec fn pattern_key(fs: Seq<Seq<char>>) -> Seq<char> {
    join_fields(normal_fields(fs))
}

/// The key of a call-site's field set.
pub fn field_pattern(fields: &Vec<String>) -> (r: String)
    ensures
        r@ == pattern_key(strs(fields@)),
{
    let mut sorted: Vec<String> = Vec::new();
    let mut i: usize = 0;
    assert(strs(sorted@).to_set() =~= strs(fields@).take(0).to_set());
    while i < fields.len()
        invariant
            i <= fields.len(),
            strictly_sorted(strs(sorted@)),
            strs(sorted@).to_set() == strs(fields@).take(i as int).to_set(),
        decreases fields.len() - i,
    {
        crate::text::insert_sorted(&mut sorted, fields[i].clone());
        proof {
            assert(strs(fields@).take(i + 1) =~= strs(fields@).take(i as int).push(fields@[i as int]@));
            crate::text::lemma_push_to_set(strs(fields@).take(i as int), fields@[i as int]@);
        }
        i = i + 1;
    }
    assert(strs(fields@).take(i as int) =~= strs(fields@));
    proof {
        let t = normal_fields(strs(fields@));
        assert(strictly_sorted(t) && t.to_set() == strs(fields@).to_set());
        crate::text::lemma_sorted_unique(strs(sorted@), t);
    }
    let ghost ts = strs(sorted@);
    let mut key = String::new();
    let mut k: usize = 0;
    assert(key@ =~= join_fields(ts.take(0)));
    while k < sorted.len()
        invariant
            k <= sorted.len(),
            ts == strs(sorted@),
            key@ == join_fields(ts.take(k as int)),
        decreases sorted.len() - k,
    {
        assert(ts.take(k + 1).drop_last() =~= ts.take(k as int));
        if k > 0 {
            key.append(", ");
        }
        key.append(sorted[k].as_str());
        proof {
            if k == 0 {
                assert(key@ =~= ts.take(1)[0]);
            }
        }
        k = k + 1;
    }
    assert(ts.take(k as int) =~= ts);
    key
}

/// In call-site order, the field-set key of each selected call-site on
/// collection `coll` in file `file`.
pub open spec fn patterns_in(
    qs: Seq<QueryView>,
    filter: Option<Seq<char>>,
    coll: Seq<char>,
    file: Seq<char>,
) -> Seq<Seq<char>>
    decreases qs.len(),
{
    if qs.len() == 0 {
        Seq::empty()
    } else {
        let s = patterns_in(qs.drop_last(), filter, coll, file);
        let q = qs.last();
        if selected(q, filter) && q.collection == coll && q.file == file {
            s.push(pattern_key(q.fields))
        } else {
            s
        }
    }
}

fn gather_patterns_in(queries: &Vec<MongoQuery>, filter: Option<&str>, coll: &str, file: &str) -> (r:
    Vec<String>)
    ensures
        strs(r@) == patterns_in(query_views(queries@), filter_view(filter), coll@, file@),
{
    let ghost qv = query_views(queries@);
    let mut r: Vec<String> = Vec::new();
    let mut i: usize = 0;
    assert(strs(r@) =~= patterns_in(qv.take(0), filter_view(filter), coll@, file@));
    while i < queries.len()
        invariant
            i <= queries.len(),
            qv == query_views(queries@),
            strs(r@) == patterns_in(qv.take(i as int), filter_view(filter), coll@, file@),
        decreases queries.len() - i,
    {
        let q = &queries[i];
        assert(qv.take(i + 1).drop_last() =~= qv.take(i as int));
        assert(qv.take(i + 1).last() == q@);
        if passes(q, filter) && str_eq(q.collection.as_str(), coll) && str_eq(q.file.as_str(), file) {
            r.push(field_pattern(&q.query_fields));
            assert(strs(r@) =~= patterns_in(qv.take(i + 1), filter_view(filter), coll@, file@));
        }
        i = i + 1;
    }
    assert(qv.take(i as int) =~= qv);
    r
}

/// How often one field of a collection is referenced, in all and per file.
#[derive(Debug, Clone, PartialEq)]
pub struct FieldUsageInfo {
    pub field: String,
    pub total_usage: usize,
    /// Per file, ascending by path, the number of call-sites there that
    /// reference the field.
    pub usage_by_file: Vec<(String, usize)>,
}

impl FieldUsageInfo {
    /// A field not yet seen in any call-site.
    pub fn new(field: String) -> (r: Self)
        ensures
            r.field@ == field@,
            r.total_usage == 0,
            r.usage_by_file@.len() == 0,
    {
        FieldUsageInfo { field, total_usage: 0, usage_by_file: Vec::new() }
    }
}

/// The field-set patterns of one file, most frequent first.
#[derive(Debug, Clone, PartialEq)]
pub struct FilePatterns {
    pub file: String,
    /// Each distinct field-set key with the number of call-sites that have
    /// it; by count descending, ties by key ascending.
    pub patterns: Vec<(String, usize)>,
}

/// The breakdown of one collection's call-sites.
#[derive(Debug, Clone, PartialEq)]
pub struct CollectionFieldAnalysis {
    pub collection: String,
    pub total_queries: usize,
    /// Per file, ascending by path, the number of call-sites there.
    pub files_accessing: Vec<(String, usize)>,
    /// Per distinct field, its usage; by total usage descending, ties by
    /// field name ascending.
    pub field_usage: Vec<FieldUsageInfo>,
    /// Per file, in the order of `files_accessing`, its field-set patterns.
    pub query_patterns: Vec<FilePatterns>,
}

/// `t` lists each distinct key once with the number of times it occurs, by
/// count descending, ties by key ascending.
pub open spec fn is_ranked_tally(t: Seq<(Seq<char>, nat)>, keys: Seq<Seq<char>>) -> bool {
    &&& rank_sorted(t)
    &&& tally_names(t).to_set() == keys.to_set()
    &&& forall|i: int| 0 <= i < t.len() ==> (#[trigger] t[i]).1 == count_in(keys, t[i].0)
}

/// The usage of field `field` of collection `coll`.
pub open spec fn field_usage_ok(
    u: FieldUsageInfo,
    qs: Seq<QueryView>,
    filter: Option<Seq<char>>,
    coll: Seq<char>,
    field: Seq<char>,
) -> bool {
    &&& u.field@ == field
    &&& u.total_usage == usage_count(qs, filter, coll, field)
    &&& is_tally(ranking_view(u.usage_by_file@), files_using(qs, filter, coll, field))
}

/// The fields of a usage list.
pub open spec fn usage_names(u: Seq<FieldUsageInfo>) -> Seq<Seq<char>> {
    u.map_values(|x: FieldUsageInfo| x.field@)
}

/// A usage list as (field, total usage) pairs.
pub open spec fn usage_ranking(u: Seq<FieldUsageInfo>) -> Seq<(Seq<char>, nat)> {
    u.map_values(|x: FieldUsageInfo| (x.field@, x.total_usage as nat))
}

/// The breakdown of collection `coll`: its fields are ranked by usage, most
/// used first, ties by name.
pub open spec fn analysis_ok(
    a: CollectionFieldAnalysis,
    qs: Seq<QueryView>,
    filter: Option<Seq<char>>,
    coll: Seq<char>,
) -> bool {
    let fs = items_of(qs, filter, coll, false);
    &&& a.collection@ == coll
    &&& a.total_queries == count_in(selected_collections(qs, filter), coll)
    &&& is_tally(ranking_view(a.files_accessing@), files_on(qs, filter, coll))
    &&& a.field_usage@.len() == fs.len()
    &&& usage_names(a.field_usage@).to_set() == fs.to_set()
    &&& rank_sorted(usage_ranking(a.field_usage@))
    &&& forall|k: int|
        0 <= k < a.field_usage@.len() ==> field_usage_ok(
            #[trigger] a.field_usage@[k],
            qs,
            filter,
            coll,
            a.field_usage@[k].field@,
        )
    &&& a.query_patterns@.len() == a.files_accessing@.len()
    &&& forall|j: int|
        0 <= j < a.query_patterns@.len() ==> {
            let fp = #[trigger] a.query_patterns@[j];
            &&& fp.file@ == a.files_accessing@[j].0@
            &&& is_ranked_tally(
                ranking_view(fp.patterns@),
                patterns_in(qs, filter, coll, fp.file@),
            )
        }
}

fn rank_tally(t: &Vec<(String, usize)>) -> (r: Vec<(String, usize)>)
    requires
        strictly_sorted(tally_names(ranking_view(t@))),
    ensures
        rank_sorted(ranking_view(r@)),
        ranking_view(r@).to_set() == ranking_view(t@).to_set(),
{
    let ghost tv = ranking_view(t@);
    let mut r: Vec<(String, usize)> = Vec::new();
    let mut i: usize = 0;
    assert(ranking_view(r@).to_set() =~= tv.take(0).to_set());
    while i < t.len()
        invariant
            i <= t.len(),
            tv == ranking_view(t@),
            strictly_sorted(tally_names(tv)),
            rank_sorted(ranking_view(r@)),
            ranking_view(r@).to_set() == tv.take(i as int).to_set(),
        decreases t.len() - i,
    {
        let ghost x = tv[i as int];
        assert(x == (t@[i as int].0@, t@[i as int].1 as nat));
        assert(!ranking_view(r@).contains(x)) by {
            if ranking_view(r@).contains(x) {
                assert(ranking_view(r@).to_set().contains(x));
                assert(tv.take(i as int).to_set().contains(x));
                let m = choose|m: int| 0 <= m < i && tv.take(i as int)[m] == x;
                assert(tally_names(tv)[m] == tally_names(tv)[i as int]);
                lemma_lt_total(tally_names(tv)[m], tally_names(tv)[m]);
            }
        }
        insert_ranked(&mut r, (t[i].0.clone(), t[i].1));
        proof {
            assert(tv.take(i + 1) =~= tv.take(i as int).push(x));
            crate::text::lemma_push_to_set(tv.take(i as int), x);
        }
        i = i + 1;
    }
    assert(tv.take(i as int) =~= tv);
    r
}

proof fn lemma_ranked_tally(r: Seq<(Seq<char>, nat)>, t: Seq<(Seq<char>, nat)>, keys: Seq<Seq<char>>)
    requires
        is_tally(t, keys),
        rank_sorted(r),
        r.to_set() == t.to_set(),
    ensures
        is_ranked_tally(r, keys),
{
    assert forall|x: Seq<char>| tally_names(r).to_set().contains(x) <==> keys.to_set().contains(x) by {
        if tally_names(r).contains(x) {
            let m = choose|m: int| 0 <= m < r.len() && tally_names(r)[m] == x;
            assert(r.to_set().contains(r[m]));
            assert(t.to_set().contains(r[m]));
            let j = choose|j: int| 0 <= j < t.len() && t[j] == r[m];
            assert(tally_names(t)[j] == x);
            assert(tally_names(t).to_set().contains(x));
        }
        if keys.to_set().contains(x) {
            assert(tally_names(t).to_set().contains(x));
            let j = choose|j: int| 0 <= j < t.len() && tally_names(t)[j] == x;
            assert(t.to_set().contains(t[j]));
            assert(r.to_set().contains(t[j]));
            let m = choose|m: int| 0 <= m < r.len() && r[m] == t[j];
            assert(tally_names(r)[m] == x);
        }
    }
    assert(tally_names(r).to_set() =~= keys.to_set());
    assert forall|i: int| 0 <= i < r.len() implies (#[trigger] r[i]).1 == count_in(keys, r[i].0) by {
        assert(r.to_set().contains(r[i]));
        assert(t.to_set().contains(r[i]));
        let j = choose|j: int| 0 <= j < t.len() && t[j] == r[i];
        assert(t[j].1 == count_in(keys, t[j].0));
    }
}

fn analyze_collection(
    queries: &Vec<MongoQuery>,
    filter: Option<&str>,
    coll: &String,
    total: usize,
) -> (r: CollectionFieldAnalysis)
    requires
        total == count_in(selected_collections(query_views(queries@), filter_view(filter)), coll@),
    ensures
        analysis_ok(r, query_views(queries@), filter_view(filter), coll@),
{
    let ghost qv = query_views(queries@);
    let ghost f = filter_view(filter);
    let files = tally(&gather_files_on(queries, filter, coll.as_str()));
    let fields = crate::analysis::get_fields_of(queries, filter, coll);
    let ghost fs = items_of(qv, f, coll@, false);
    let ranking = crate::analysis::rank_fields(queries, filter, coll, &fields);
    let ghost rv = ranking_view(ranking@);
    let ghost all = crate::analysis::ranked_all(fs, qv, f, coll@);
    let mut usage: Vec<FieldUsageInfo> = Vec::new();
    let mut k: usize = 0;
    while k < ranking.len()
        invariant
            k <= ranking.len(),
            qv == query_views(queries@),
            f == filter_view(filter),
            rv == ranking_view(ranking@),
            all == crate::analysis::ranked_all(fs, qv, f, coll@),
            rv.to_set() == all.to_set(),
            usage@.len() == k,
            forall|m: int|
                0 <= m < k ==> (#[trigger] usage@[m]).field@ == rv[m].0 && usage@[m].total_usage
                    == rv[m].1,
            forall|m: int|
                0 <= m < k ==> field_usage_ok(#[trigger] usage@[m], qv, f, coll@, usage@[m].field@),
        decreases ranking.len() - k,
    {
        let field = &ranking[k].0;
        assert(rv[k as int] == (field@, ranking@[k as int].1 as nat));
        assert(rv[k as int].1 == usage_count(qv, f, coll@, field@)) by {
            assert(rv.to_set().contains(rv[k as int]));
            assert(all.to_set().contains(rv[k as int]));
            let j = choose|j: int| 0 <= j < all.len() && all[j] == rv[k as int];
        }
        let mut info = FieldUsageInfo::new(field.clone());
        info.total_usage = ranking[k].1;
        info.usage_by_file = tally(&gather_files_using(queries, filter, coll.as_str(), field.as_str()));
        usage.push(info);
        k = k + 1;
    }
    assert(usage_ranking(usage@) =~= rv);
    assert forall|x: Seq<char>| usage_names(usage@).to_set().contains(x) <==> fs.to_set().contains(x) by {
        if usage_names(usage@).contains(x) {
            let m = choose|m: int| 0 <= m < usage@.len() && usage_names(usage@)[m] == x;
            assert(rv.to_set().contains(rv[m]));
            assert(all.to_set().contains(rv[m]));
            let j = choose|j: int| 0 <= j < all.len() && all[j] == rv[m];
            assert(fs[j] == x);
            assert(fs.contains(x));
        }
        if fs.contains(x) {
            let j = choose|j: int| 0 <= j < fs.len() && fs[j] == x;
            assert(all.to_set().contains(all[j]));
            assert(rv.to_set().contains(all[j]));
            let m = choose|m: int| 0 <= m < rv.len() && rv[m] == all[j];
            assert(usage_names(usage@)[m] == x);
            assert(usage_names(usage@).contains(x));
        }
    }
    assert(usage_names(usage@).to_set() =~= fs.to_set());
    let mut patterns: Vec<FilePatterns> = Vec::new();
    let mut j: usize = 0;
    while j < files.len()
        invariant
            j <= files.len(),
            qv == query_views(queries@),
            f == filter_view(filter),
            patterns@.len() == j,
            forall|m: int|
                0 <= m < j ==> {
                    let fp = #[trigger] patterns@[m];
                    &&& fp.file@ == files@[m].0@
                    &&& is_ranked_tally(ranking_view(fp.patterns@), patterns_in(qv, f, coll@, fp.file@))
                },
        decreases files.len() - j,
    {
        let file = &files[j].0;
        let t = tally(&gather_patterns_in(queries, filter, coll.as_str(), file.as_str()));
        let ranked = rank_tally(&t);
        proof {
            lemma_ranked_tally(ranking_view(ranked@), ranking_view(t@), patterns_in(qv, f, coll@, file@));
        }
        patterns.push(FilePatterns { file: file.clone(), patterns: ranked });
        j = j + 1;
    }
    CollectionFieldAnalysis {
        collection: coll.clone(),
        total_queries: total,
        files_accessing: files,
        field_usage: usage,
        query_patterns: patterns,
    }
}

/// The breakdown of the call-sites that pass the service filter, one entry
/// per collection in ascending order of name, each with its number of
/// call-sites; per collection, its files in ascending order with their
/// call-site counts, the usage of each of its fields, and per file the
/// distinct field sets, most frequent first.
pub fn get_detailed_field_analysis(queries: &Vec<MongoQuery>, service_filter: Option<&str>) -> (r:
    Vec<CollectionFieldAnalysis>)
    ensures
        is_tally(
            r@.map_values(|a: CollectionFieldAnalysis| (a.collection@, a.total_queries as nat)),
            selected_collections(query_views(queries@), filter_view(service_filter)),
        ),
        forall|i: int|
            0 <= i < r@.len() ==> analysis_ok(
                #[trigger] r@[i],
                query_views(queries@),
                filter_view(service_filter),
                r@[i].collection@,
            ),
{
    let ghost qv = query_views(queries@);
    let ghost f = filter_view(service_filter);
    let ghost keys = selected_collections(qv, f);
    let colls = tally(&gather_selected_collections(queries, service_filter));
    let mut r: Vec<CollectionFieldAnalysis> = Vec::new();
    let mut i: usize = 0;
    while i < colls.len()
        invariant
            i <= colls.len(),
            qv == query_views(queries@),
            f == filter_view(service_filter),
            keys == selected_collections(qv, f),
            is_tally(ranking_view(colls@), keys),
            r@.len() == i,
            forall|m: int|
                0 <= m < i ==> (#[trigger] r@[m]).collection@ == colls@[m].0@ && r@[m].total_queries
                    == colls@[m].1,
            forall|m: int| 0 <= m < i ==> analysis_ok(#[trigger] r@[m], qv, f, r@[m].collection@),
        decreases colls.len() - i,
    {
        assert(ranking_view(colls@)[i as int] == (colls@[i as int].0@, colls@[i as int].1 as nat));
        let a = analyze_collection(queries, service_filter, &colls[i].0, colls[i].1);
        r.push(a);
        i = i + 1;
    }
    assert(r@.map_values(|a: CollectionFieldAnalysis| (a.collection@, a.total_queries as nat))
        =~= ranking_view(colls@));
    r
}

} // verus!
