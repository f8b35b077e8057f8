//! Pure functions over detected call-sites: the global ordering, and the
//! per-collection inventories and index suggestions.
use vstd::prelude::*;

use crate::text::{lemma_lt_total, lemma_lt_trans, seq_lt, str_eq, str_lt, strs};
use crate::{query_views, MongoQuery, QueryView};

verus! {

/// Order by file, then line, then method.
pub open spec fn key_le(a: QueryView, b: QueryView) -> bool {
    ||| seq_lt(a.file, b.file)
    ||| a.file == b.file && a.line < b.line
    ||| a.file == b.file && a.line == b.line && (seq_lt(a.method, b.method) || a.method == b.method)
}

/// Any two call-sites are ordered one way or the other.
pub proof fn lemma_key_total(a: QueryView, b: QueryView)
    ensures
        key_le(a, b) || key_le(b, a),
{
    lemma_lt_total(a.file, b.file);
    lemma_lt_total(a.method, b.method);
}

/// The order is transitive.
pub proof fn lemma_key_trans(a: QueryView, b: QueryView, c: QueryView)
    requires
        key_le(a, b),
        key_le(b, c),
    ensures
        key_le(a, c),
{
    lemma_lt_total(a.file, b.file);
    lemma_lt_total(b.file, c.file);
    lemma_lt_total(a.file, c.file);
    if seq_lt(a.file, b.file) && seq_lt(b.file, c.file) {
        lemma_lt_trans(a.file, b.file, c.file);
    }
    if seq_lt(a.method, b.method) && seq_lt(b.method, c.method) {
        lemma_lt_trans(a.method, b.method, c.method);
    }
}

fn query_key_le(a: &MongoQuery, b: &MongoQuery) -> (r: bool)
    ensures
        r == key_le(a@, b@),
{
    if str_lt(a.file.as_str(), b.file.as_str()) {
        return true;
    }
    if !str_eq(a.file.as_str(), b.file.as_str()) {
        return false;
    }
    if a.line != b.line {
        return a.line < b.line;
    }
    str_lt(a.method.as_str(), b.method.as_str()) || str_eq(a.method.as_str(), b.method.as_str())
}

fn copy_string(s: &String) -> (r: String)
    ensures
        r@ == s@,
{
    s.clone()
}

/// A copy of a vector of strings.
fn copy_strings(v: &Vec<String>) -> (r: Vec<String>)
    ensures
        strs(r@) == strs(v@),
{
    let mut r: Vec<String> = Vec::new();
    let mut i: usize = 0;
    while i < v.len()
        invariant
            i <= v.len(),
            r@.len() == i,
            forall|k: int| 0 <= k < i ==> (#[trigger] r@[k])@ == v@[k]@,
        decreases v.len() - i,
    {
        r.push(copy_string(&v[i]));
        i = i + 1;
    }
    assert(strs(r@) =~= strs(v@));
    r
}

fn strings_eq(a: &Vec<String>, b: &Vec<String>) -> (r: bool)
    ensures
        r == (strs(a@) == strs(b@)),
{
    if a.len() != b.len() {
        assert(strs(a@).len() != strs(b@).len());
        return false;
    }
    let mut i: usize = 0;
    while i < a.len()
        invariant
            i <= a.len(),
            a.len() == b.len(),
            strs(a@).take(i as int) == strs(b@).take(i as int),
        decreases a.len() - i,
    {
        if !str_eq(a[i].as_str(), b[i].as_str()) {
            assert(strs(a@)[i as int] != strs(b@)[i as int]);
            return false;
        }
        assert(strs(a@).take(i + 1) =~= strs(b@).take(i + 1)) by {
            assert(strs(a@).take(i as int)[i - 1] == strs(b@).take(i as int)[i - 1]) by {}
        }
        i = i + 1;
    }
    assert(strs(a@).take(i as int) =~= strs(a@));
    assert(strs(b@).take(i as int) =~= strs(b@));
    true
}

/// A copy of a call-site.
fn copy_query(q: &MongoQuery) -> (r: MongoQuery)
    ensures
        r@ == q@,
{
    MongoQuery {
        file: copy_string(&q.file),
        line: q.line,
        service: copy_string(&q.service),
        collection: copy_string(&q.collection),
        method: copy_string(&q.method),
        query_fields: copy_strings(&q.query_fields),
        raw_match: copy_string(&q.raw_match),
    }
}

/// Whether two call-sites are exact duplicates.
pub fn same_query(a: &MongoQuery, b: &MongoQuery) -> (r: bool)
    ensures
        r == (a@ == b@),
{
    str_eq(a.file.as_str(), b.file.as_str()) && a.line == b.line && str_eq(
        a.service.as_str(),
        b.service.as_str(),
    ) && str_eq(a.collection.as_str(), b.collection.as_str()) && str_eq(
        a.method.as_str(),
        b.method.as_str(),
    ) && strings_eq(&a.query_fields, &b.query_fields) && str_eq(
        a.raw_match.as_str(),
        b.raw_match.as_str(),
    )
}

/// Ordered by file, line and method.
pub open spec fn key_sorted(s: Seq<QueryView>) -> bool {
    forall|i: int, j: int| 0 <= i < j < s.len() ==> key_le(#[trigger] s[i], #[trigger] s[j])
}

/// No two elements are equal.
pub open spec fn no_duplicates<A>(s: Seq<A>) -> bool {
    forall|i: int, j: int| 0 <= i < j < s.len() ==> #[trigger] s[i] != #[trigger] s[j]
}

/// The call-sites ordered by file, line and method, with exact duplicates
/// removed: every call-site of the input is kept unless an identical one is
/// kept already, so call-sites that differ in any part (their fields
/// included) all remain.
pub fn sort_and_dedup(queries: &Vec<MongoQuery>) -> (r: Vec<MongoQuery>)
    ensures
        key_sorted(query_views(r@)),
        no_duplicates(query_views(r@)),
        query_views(r@).to_set() == query_views(queries@).to_set(),
{
    let ghost qv = query_views(queries@);
    let mut r: Vec<MongoQuery> = Vec::new();
    let mut i: usize = 0;
    assert(query_views(r@).to_set() =~= qv.take(0).to_set());
    while i < queries.len()
        invariant
            i <= queries.len(),
            qv == query_views(queries@),
            key_sorted(query_views(r@)),
            no_duplicates(query_views(r@)),
            query_views(r@).to_set() == qv.take(i as int).to_set(),
        decreases queries.len() - i,
    {
        let q = &queries[i];
        let ghost rv = query_views(r@);
        proof {
            assert(qv.take(i + 1) =~= qv.take(i as int).push(q@));
            crate::text::lemma_push_to_set(qv.take(i as int), q@);
        }
        let mut k: usize = 0;
        let mut dup = false;
        while k < r.len()
            invariant
                k <= r.len(),
                rv == query_views(r@),
                dup ==> rv.contains(q@),
                !dup ==> forall|m: int| 0 <= m < k ==> rv[m] != q@,
            decreases r.len() - k,
        {
            if same_query(&r[k], q) {
                dup = true;
                assert(rv[k as int] == q@);
            }
            k = k + 1;
        }
        if dup {
            assert(rv.to_set().insert(q@) =~= rv.to_set());
        } else {
            let mut p: usize = 0;
            while p < r.len() && query_key_le(&r[p], q)
                invariant
                    p <= r.len(),
                    rv == query_views(r@),
                    forall|m: int| 0 <= m < p ==> key_le(#[trigger] rv[m], q@),
                decreases r.len() - p,
            {
                p = p + 1;
            }
            proof {
                if p < r.len() {
                    lemma_key_total(rv[p as int], q@);
                }
            }
            r.insert(p, copy_query(q));
            let ghost nv = query_views(r@);
            assert(nv =~= rv.insert(p as int, q@));
            assert forall|a: int, b: int| 0 <= a < b < nv.len() implies key_le(
                #[trigger] nv[a],
                #[trigger] nv[b],
            ) by {
                if a < p && b == p {
                } else if a == p && b > p {
                    if b - 1 > p {
                        assert(key_le(rv[p as int], rv[b - 1]));
                        lemma_key_trans(q@, rv[p as int], rv[b - 1]);
                    }
                } else if a < p && b > p {
                    if b - 1 > p {
                        assert(key_le(rv[p as int], rv[b - 1]));
                        lemma_key_trans(q@, rv[p as int], rv[b - 1]);
                    }
                    lemma_key_trans(rv[a], q@, rv[b - 1]);
                } else if a > p {
                    assert(key_le(rv[a - 1], rv[b - 1]));
                } else {
                    assert(key_le(rv[a], rv[b]));
                }
            }
            assert forall|a: int, b: int| 0 <= a < b < nv.len() implies #[trigger] nv[a]
                != #[trigger] nv[b] by {
                if a == p {
                    assert(nv[b] == rv[b - 1]);
                } else if b == p {
                    assert(nv[a] == rv[a]);
                } else if a < p && b > p {
                    assert(rv[a] != rv[b - 1]);
                } else if a > p {
                    assert(rv[a - 1] != rv[b - 1]);
                }
            }
            assert forall|x: QueryView| nv.to_set().contains(x) <==> rv.to_set().insert(
                q@,
            ).contains(x) by {
                if rv.contains(x) {
                    let m = choose|m: int| 0 <= m < rv.len() && rv[m] == x;
                    if m < p {
                        assert(nv[m] == x);
                    } else {
                        assert(nv[m + 1] == x);
                    }
                }
                if nv.contains(x) {
                    let m = choose|m: int| 0 <= m < nv.len() && nv[m] == x;
                    if m < p {
                        assert(rv[m] == x);
                    } else if m > p {
                        assert(rv[m - 1] == x);
                    }
                }
                assert(nv[p as int] == q@);
            }
            assert(nv.to_set() =~= rv.to_set().insert(q@));
        }
        i = i + 1;
    }
    assert(qv.take(i as int) =~= qv);
    r
}

/// Identical call-sites collapse to one, and call-sites that differ in any
/// part all survive: two distinct call-sites of the input, even at the same
/// file, line and method with different fields, both stand in the output.
pub proof fn lemma_dedup_keeps_distinct(
    input: Seq<QueryView>,
    output: Seq<QueryView>,
    a: QueryView,
    b: QueryView,
)
    requires
        no_duplicates(output),
        output.to_set() == input.to_set(),
        input.contains(a),
        input.contains(b),
        a != b,
    ensures
        exists|i: int, j: int|
            0 <= i < output.len() && 0 <= j < output.len() && i != j && output[i] == a
                && output[j] == b,
        forall|i: int, j: int| 0 <= i < j < output.len() ==> output[i] != output[j],
{
    assert(input.to_set().contains(a));
    assert(input.to_set().contains(b));
    assert(output.to_set().contains(a));
    assert(output.to_set().contains(b));
    let i = choose|i: int| 0 <= i < output.len() && output[i] == a;
    let j = choose|j: int| 0 <= j < output.len() && output[j] == b;
    assert(output[i] == a && output[j] == b && i != j);
}

/// Whether a call-site passes an optional service filter.
pub open spec fn selected(q: QueryView, filter: Option<Seq<char>>) -> bool {
    filter is None || q.service == filter->0
}

/// `s` with `x` appended unless it is already there.
pub open spec fn add_distinct(s: Seq<Seq<char>>, x: Seq<char>) -> Seq<Seq<char>> {
    if s.contains(x) {
        s
    } else {
        s.push(x)
    }
}

/// `s` with each element of `xs` added in turn by `add_distinct`.
pub open spec fn add_all_distinct(s: Seq<Seq<char>>, xs: Seq<Seq<char>>) -> Seq<Seq<char>>
    decreases xs.len(),
{
    if xs.len() == 0 {
        s
    } else {
        add_distinct(add_all_distinct(s, xs.drop_last()), xs.last())
    }
}

/// The collections of the selected call-sites, without repetition, in order
/// of first appearance.
pub open spec fn collections_of(qs: Seq<QueryView>, filter: Option<Seq<char>>) -> Seq<Seq<char>>
    decreases qs.len(),
{
    if qs.len() == 0 {
        Seq::empty()
    } else {
        let c = collections_of(qs.drop_last(), filter);
        if selected(qs.last(), filter) {
            add_distinct(c, qs.last().collection)
        } else {
            c
        }
    }
}

/// What one call-site contributes to an inventory: its method, or its fields.
pub open spec fn items_of_query(q: QueryView, by_method: bool) -> Seq<Seq<char>> {
    if by_method {
        seq![q.method]
    } else {
        q.fields
    }
}

/// The methods (or fields) of the selected call-sites on collection `coll`,
/// without repetition, in order of first appearance.
pub open spec fn items_of(
    qs: Seq<QueryView>,
    filter: Option<Seq<char>>,
    coll: Seq<char>,
    by_method: bool,
) -> Seq<Seq<char>>
    decreases qs.len(),
{
    if qs.len() == 0 {
        Seq::empty()
    } else {
        let s = items_of(qs.drop_last(), filter, coll, by_method);
        let q = qs.last();
        if selected(q, filter) && q.collection == coll {
            add_all_distinct(s, items_of_query(q, by_method))
        } else {
            s
        }
    }
}

/// The view of an inventory.
pub open spec fn inventory_view(r: Seq<(String, Vec<String>)>) -> Seq<(Seq<char>, Seq<Seq<char>>)> {
    r.map_values(|e: (String, Vec<String>)| (e.0@, strs(e.1@)))
}

/// The inventory that `inventory` computes.
pub open spec fn inventory_spec(
    qs: Seq<QueryView>,
    filter: Option<Seq<char>>,
    by_method: bool,
) -> Seq<(Seq<char>, Seq<Seq<char>>)> {
    collections_of(qs, filter).map_values(|c: Seq<char>| (c, items_of(qs, filter, c, by_method)))
}

proof fn lemma_items_of_absent(
    qs: Seq<QueryView>,
    filter: Option<Seq<char>>,
    coll: Seq<char>,
    by_method: bool,
)
    requires
        !collections_of(qs, filter).contains(coll),
    ensures
        items_of(qs, filter, coll, by_method) == Seq::<Seq<char>>::empty(),
    decreases qs.len(),
{
    if qs.len() > 0 {
        let c = collections_of(qs.drop_last(), filter);
        if selected(qs.last(), filter) && !c.contains(qs.last().collection) {
            assert(collections_of(qs, filter)[c.len() as int] == qs.last().collection);
        }
        if c.contains(coll) {
            let k = choose|k: int| 0 <= k < c.len() && c[k] == coll;
            assert(collections_of(qs, filter)[k] == coll);
        }
        lemma_items_of_absent(qs.drop_last(), filter, coll, by_method);
    }
}

proof fn lemma_collections_distinct(qs: Seq<QueryView>, filter: Option<Seq<char>>)
    ensures
        no_duplicates(collections_of(qs, filter)),
    decreases qs.len(),
{
    if qs.len() > 0 {
        lemma_collections_distinct(qs.drop_last(), filter);
        let c = collections_of(qs.drop_last(), filter);
        let x = qs.last().collection;
        if selected(qs.last(), filter) && !c.contains(x) {
            let d = c.push(x);
            assert forall|i: int, j: int| 0 <= i < j < d.len() implies #[trigger] d[i]
                != #[trigger] d[j] by {
                if j == c.len() {
                    assert(c[i] != x);
                } else {
                    assert(c[i] != c[j]);
                }
            }
        }
    }
}

pub(crate) fn contains_string(v: &Vec<String>, x: &str) -> (r: bool)
    ensures
        r == strs(v@).contains(x@),
{
    let mut i: usize = 0;
    while i < v.len()
        invariant
            i <= v.len(),
            forall|k: int| 0 <= k < i ==> strs(v@)[k] != x@,
        decreases v.len() - i,
    {
        if str_eq(v[i].as_str(), x) {
            assert(strs(v@)[i as int] == x@);
            return true;
        }
        i = i + 1;
    }
    false
}

fn push_distinct(v: &mut Vec<String>, x: &String)
    ensures
        strs(final(v)@) == add_distinct(strs(old(v)@), x@),
{
    if !contains_string(v, x.as_str()) {
        v.push(copy_string(x));
        assert(strs(v@) =~= strs(old(v)@).push(x@));
    }
}

pub(crate) fn passes(q: &MongoQuery, filter: Option<&str>) -> (r: bool)
    ensures
        r == selected(q@, match filter { Some(f) => Some(f@), None => None }),
{
    match filter {
        Some(f) => str_eq(q.service.as_str(), f),
        None => true,
    }
}

/// The view of an optional service filter.
pub open spec fn filter_view(filter: Option<&str>) -> Option<Seq<char>> {
    match filter {
        Some(f) => Some(f@),
        None => None,
    }
}

/// Per collection, in order of first appearance, the distinct methods (or
/// fields) of the call-sites that pass the service filter, in order of first
/// appearance.
fn inventory(queries: &Vec<MongoQuery>, filter: Option<&str>, by_method: bool) -> (r: Vec<
    (String, Vec<String>),
>)
    ensures
        inventory_view(r@) == inventory_spec(query_views(queries@), filter_view(filter), by_method),
{
    let ghost qv = query_views(queries@);
    let ghost f = filter_view(filter);
    let mut r: Vec<(String, Vec<String>)> = Vec::new();
    let mut i: usize = 0;
    assert(inventory_view(r@) =~= inventory_spec(qv.take(0), f, by_method));
    while i < queries.len()
        invariant
            i <= queries.len(),
            qv == query_views(queries@),
            f == filter_view(filter),
            inventory_view(r@) == inventory_spec(qv.take(i as int), f, by_method),
        decreases queries.len() - i,
    {
        let q = &queries[i];
        let ghost pre = qv.take(i as int);
        let ghost post = qv.take(i + 1);
        assert(post.drop_last() =~= pre);
        assert(post.last() == q@);
        let ghost rv0 = inventory_view(r@);
        if passes(q, filter) {
            let mut j: usize = 0;
            while j < r.len() && !str_eq(r[j].0.as_str(), q.collection.as_str())
                invariant
                    j <= r.len(),
                    inventory_view(r@) == rv0,
                    forall|k: int| 0 <= k < j ==> rv0[k].0 != q@.collection,
                decreases r.len() - j,
            {
                j = j + 1;
            }
            let ghost cs = collections_of(pre, f);
            assert(rv0.len() == cs.len());
            assert(forall|k: int| 0 <= k < cs.len() ==> rv0[k].0 == cs[k]);
            if j == r.len() {
                assert(!cs.contains(q@.collection));
                proof {
                    lemma_items_of_absent(pre, f, q@.collection, by_method);
                }
                let empty: Vec<String> = Vec::new();
                assert(strs(empty@) =~= Seq::<Seq<char>>::empty());
                let ghost old_r = r@;
                r.push((copy_string(&q.collection), empty));
                assert forall|m: int| 0 <= m < rv0.len() implies inventory_view(r@)[m] == rv0[m] by {
                    assert(r@[m] == old_r[m]);
                }
                assert(inventory_view(r@) =~= rv0.push((q@.collection, Seq::empty())));
            } else {
                assert(cs[j as int] == q@.collection);
            }
            let ghost rv1 = inventory_view(r@);
            let ghost items = items_of_query(q@, by_method);
            let ghost base = rv1[j as int].1;
            if by_method {
                push_distinct(&mut r[j].1, &q.method);
                assert(items.drop_last() =~= Seq::<Seq<char>>::empty());
                assert(add_all_distinct(base, items.drop_last()) == base);
                assert(items.last() == q@.method);
                assert(inventory_view(r@)[j as int].1 == add_all_distinct(base, items));
            } else {
                let mut k: usize = 0;
                while k < q.query_fields.len()
                    invariant
                        j < r.len(),
                        k <= q.query_fields.len(),
                        items == strs(q.query_fields@),
                        r@.len() == rv1.len(),
                        forall|m: int|
                            0 <= m < r@.len() && m != j ==> inventory_view(r@)[m] == rv1[m],
                        inventory_view(r@)[j as int] == (rv1[j as int].0, add_all_distinct(
                            base,
                            items.take(k as int),
                        )),
                    decreases q.query_fields.len() - k,
                {
                    let ghost before = strs(r@[j as int].1@);
                    push_distinct(&mut r[j].1, &q.query_fields[k]);
                    assert(items.take(k + 1).drop_last() =~= items.take(k as int));
                    k = k + 1;
                }
                assert(items.take(k as int) =~= items);
            }
            let ghost cs2 = collections_of(post, f);
            proof {
                lemma_collections_distinct(pre, f);
                lemma_collections_distinct(post, f);
            }
            assert(cs2 == add_distinct(cs, q@.collection));
            assert(cs2[j as int] == q@.collection);
            assert(cs2.len() == inventory_view(r@).len());
            assert forall|m: int| 0 <= m < cs2.len() implies inventory_view(r@)[m] == (
                cs2[m],
                items_of(post, f, cs2[m], by_method),
            ) by {
                if m != j {
                    assert(cs2[m] != cs2[j as int]);
                    assert(cs2[m] == cs[m]);
                    assert(inventory_view(r@)[m] == rv1[m]);
                    assert(rv1[m] == rv0[m]);
                    assert(rv0[m] == (cs[m], items_of(pre, f, cs[m], by_method)));
                } else {
                    assert(base == items_of(pre, f, q@.collection, by_method));
                    assert(items_of(post, f, q@.collection, by_method) == add_all_distinct(
                        items_of(pre, f, q@.collection, by_method),
                        items,
                    ));
                    assert(inventory_view(r@)[m].1 == add_all_distinct(base, items));
                }
            }
            assert(inventory_view(r@) =~= inventory_spec(post, f, by_method));
        } else {
            assert(inventory_view(r@) =~= inventory_spec(post, f, by_method));
        }
        i = i + 1;
    }
    assert(qv.take(i as int) =~= qv);
    r
}

/// Per collection, in order of first appearance, the distinct fields that
/// the call-sites passing the service filter reference, in order of first
/// appearance.
pub fn get_fields(queries: &Vec<MongoQuery>, service_filter: Option<&str>) -> (r: Vec<
    (String, Vec<String>),
>)
    ensures
        inventory_view(r@) == inventory_spec(
            query_views(queries@),
            filter_view(service_filter),
            false,
        ),
{
    inventory(queries, service_filter, false)
}

/// Per collection, in order of first appearance, the distinct methods that
/// the call-sites passing the service filter use, in order of first
/// appearance.
pub fn get_methods(queries: &Vec<MongoQuery>, service_filter: Option<&str>) -> (r: Vec<
    (String, Vec<String>),
>)
    ensures
        inventory_view(r@) == inventory_spec(
            query_views(queries@),
            filter_view(service_filter),
            true,
        ),
{
    inventory(queries, service_filter, true)
}

/// The number of selected call-sites on collection `coll` that reference
/// `field`.
pub open spec fn usage_count(
    qs: Seq<QueryView>,
    filter: Option<Seq<char>>,
    coll: Seq<char>,
    field: Seq<char>,
) -> nat
    decreases qs.len(),
{
    if qs.len() == 0 {
        0
    } else {
        let q = qs.last();
        usage_count(qs.drop_last(), filter, coll, field) + if selected(q, filter)
            && q.collection == coll && q.fields.contains(field) {
            1nat
        } else {
            0nat
        }
    }
}

/// Ranking of (field, count) pairs: higher count first, ties broken by
/// ascending field name.
pub open spec fn rank_lt(a: (Seq<char>, nat), b: (Seq<char>, nat)) -> bool {
    a.1 > b.1 || (a.1 == b.1 && seq_lt(a.0, b.0))
}

/// The ranking is a strict total order.
pub proof fn lemma_rank_order(a: (Seq<char>, nat), b: (Seq<char>, nat), c: (Seq<char>, nat))
    ensures
        a != b ==> rank_lt(a, b) || rank_lt(b, a),
        !(rank_lt(a, b) && rank_lt(b, a)),
        rank_lt(a, b) && rank_lt(b, c) ==> rank_lt(a, c),
{
    lemma_lt_total(a.0, b.0);
    if a.1 == b.1 && a.0 == b.0 {
        assert(a == b);
    }
    if rank_lt(a, b) && rank_lt(b, c) && a.1 == b.1 && b.1 == c.1 {
        lemma_lt_trans(a.0, b.0, c.0);
    }
}

/// The ranked pair of a field of collection `coll`.
pub open spec fn ranked(
    qs: Seq<QueryView>,
    filter: Option<Seq<char>>,
    coll: Seq<char>,
    x: Seq<char>,
) -> (Seq<char>, nat) {
    (x, usage_count(qs, filter, coll, x))
}

/// `t` lists, best first, the best-ranked `min(3, n)` of the `n` distinct
/// fields of collection `coll`.
pub open spec fn is_top_fields(
    t: Seq<Seq<char>>,
    qs: Seq<QueryView>,
    filter: Option<Seq<char>>,
    coll: Seq<char>,
) -> bool {
    let fs = items_of(qs, filter, coll, false);
    &&& t.len() == if fs.len() < 3 {
        fs.len()
    } else {
        3
    }
    &&& forall|i: int| 0 <= i < t.len() ==> fs.contains(#[trigger] t[i])
    &&& forall|i: int, j: int|
        0 <= i < j < t.len() ==> rank_lt(
            ranked(qs, filter, coll, #[trigger] t[i]),
            ranked(qs, filter, coll, #[trigger] t[j]),
        )
    &&& forall|x: Seq<char>, i: int|
        #![trigger fs.contains(x), t[i]]
        fs.contains(x) && !t.contains(x) && 0 <= i < t.len() ==> rank_lt(
            ranked(qs, filter, coll, t[i]),
            ranked(qs, filter, coll, x),
        )
}

/// Ties in usage are broken by field name, so the best-ranked fields of a
/// collection are determined: any two lists that qualify are the same list.
pub proof fn lemma_top_fields_unique(
    t1: Seq<Seq<char>>,
    t2: Seq<Seq<char>>,
    qs: Seq<QueryView>,
    filter: Option<Seq<char>>,
    coll: Seq<char>,
)
    requires
        is_top_fields(t1, qs, filter, coll),
        is_top_fields(t2, qs, filter, coll),
    ensures
        t1 == t2,
{
    if t1.len() > 0 {
        lemma_top_prefix(t1, t2, qs, filter, coll, t1.len() - 1);
    }
    assert(t1 =~= t2);
}

proof fn lemma_top_prefix(
    t1: Seq<Seq<char>>,
    t2: Seq<Seq<char>>,
    qs: Seq<QueryView>,
    filter: Option<Seq<char>>,
    coll: Seq<char>,
    k: int,
)
    requires
        is_top_fields(t1, qs, filter, coll),
        is_top_fields(t2, qs, filter, coll),
        0 <= k < t1.len(),
    ensures
        forall|j: int| 0 <= j <= k ==> t1[j] == t2[j],
    decreases k,
{
    if k > 0 {
        lemma_top_prefix(t1, t2, qs, filter, coll, k - 1);
    }
    let r1 = ranked(qs, filter, coll, t1[k]);
    let r2 = ranked(qs, filter, coll, t2[k]);
    if t1[k] != t2[k] {
        lemma_rank_order(r1, r2, r1);
        lemma_top_side(t1, t2, qs, filter, coll, k);
        lemma_top_side(t2, t1, qs, filter, coll, k);
    }
}

proof fn lemma_top_side(
    t1: Seq<Seq<char>>,
    t2: Seq<Seq<char>>,
    qs: Seq<QueryView>,
    filter: Option<Seq<char>>,
    coll: Seq<char>,
    k: int,
)
    requires
        is_top_fields(t1, qs, filter, coll),
        is_top_fields(t2, qs, filter, coll),
        0 <= k < t1.len(),
        forall|j: int| 0 <= j < k ==> t1[j] == t2[j],
    ensures
        !rank_lt(ranked(qs, filter, coll, t1[k]), ranked(qs, filter, coll, t2[k])),
{
    let r1 = ranked(qs, filter, coll, t1[k]);
    let r2 = ranked(qs, filter, coll, t2[k]);
    let fs = items_of(qs, filter, coll, false);
    if rank_lt(r1, r2) {
        lemma_rank_order(r1, r2, r1);
        assert(fs.contains(t1[k]));
        if t2.contains(t1[k]) {
            let j = choose|j: int| 0 <= j < t2.len() && t2[j] == t1[k];
            if j < k {
                assert(t1[j] == t1[k]);
                lemma_rank_order(r1, r1, r1);
            } else if j > k {
                assert(rank_lt(r2, ranked(qs, filter, coll, t2[j])));
            }
        } else {
            assert(rank_lt(ranked(qs, filter, coll, t2[k]), ranked(qs, filter, coll, t1[k])));
        }
    }
}

/// A suggested index.
#[derive(Debug, Clone, PartialEq)]
pub enum IndexSuggestion {
    /// Index the most used field, used `count` times.
    SingleField { field: String, count: usize },
    /// A compound index on the best-ranked fields, best first.
    Compound { fields: Vec<String> },
}

/// The mathematical value of an `IndexSuggestion`.
pub enum SuggestionView {
    SingleField { field: Seq<char>, count: nat },
    Compound { fields: Seq<Seq<char>> },
}

impl View for IndexSuggestion {
    type V = SuggestionView;

    open spec fn view(&self) -> SuggestionView {
        match self {
            IndexSuggestion::SingleField { field, count } => SuggestionView::SingleField {
                field: field@,
                count: *count as nat,
            },
            IndexSuggestion::Compound { fields } => SuggestionView::Compound {
                fields: strs(fields@),
            },
        }
    }
}

/// The usage count above which the most used field is suggested alone.
pub const SINGLE_FIELD_THRESHOLD: usize = 2;

/// The suggestions for collection `coll`, given its best-ranked fields `t`:
/// the best field alone when its count exceeds the threshold, then a compound
/// index on `t` when the collection has at least three distinct fields.
pub open spec fn suggestions_spec(
    t: Seq<Seq<char>>,
    qs: Seq<QueryView>,
    filter: Option<Seq<char>>,
    coll: Seq<char>,
) -> Seq<SuggestionView> {
    let fs = items_of(qs, filter, coll, false);
    let single = if t.len() > 0 && usage_count(qs, filter, coll, t[0])
        > SINGLE_FIELD_THRESHOLD as nat {
        seq![SuggestionView::SingleField { field: t[0], count: usage_count(qs, filter, coll, t[0]) }]
    } else {
        Seq::empty()
    };
    let compound = if fs.len() >= 3 {
        seq![SuggestionView::Compound { fields: t }]
    } else {
        Seq::empty()
    };
    single + compound
}

/// The views of a sequence of suggestions.
pub open spec fn suggestion_views(s: Seq<IndexSuggestion>) -> Seq<SuggestionView> {
    s.map_values(|x: IndexSuggestion| x@)
}

proof fn lemma_items_distinct(s: Seq<Seq<char>>, xs: Seq<Seq<char>>)
    requires
        no_duplicates(s),
    ensures
        no_duplicates(add_all_distinct(s, xs)),
    decreases xs.len(),
{
    if xs.len() > 0 {
        lemma_items_distinct(s, xs.drop_last());
        let c = add_all_distinct(s, xs.drop_last());
        let x = xs.last();
        if !c.contains(x) {
            let d = c.push(x);
            assert forall|i: int, j: int| 0 <= i < j < d.len() implies #[trigger] d[i]
                != #[trigger] d[j] by {
                if j == c.len() {
                    assert(c[i] != x);
                } else {
                    assert(c[i] != c[j]);
                }
            }
        }
    }
}

proof fn lemma_fields_distinct(
    qs: Seq<QueryView>,
    filter: Option<Seq<char>>,
    coll: Seq<char>,
)
    ensures
        no_duplicates(items_of(qs, filter, coll, false)),
    decreases qs.len(),
{
    if qs.len() > 0 {
        lemma_fields_distinct(qs.drop_last(), filter, coll);
        let q = qs.last();
        if selected(q, filter) && q.collection == coll {
            lemma_items_distinct(items_of(qs.drop_last(), filter, coll, false), q.fields);
        }
    }
}

pub(crate) fn count_usage(queries: &Vec<MongoQuery>, filter: Option<&str>, coll: &str, field: &str) -> (r:
    usize)
    ensures
        r == usage_count(query_views(queries@), filter_view(filter), coll@, field@),
{
    let ghost qv = query_views(queries@);
    let ghost f = filter_view(filter);
    let mut n: usize = 0;
    let mut i: usize = 0;
    while i < queries.len()
        invariant
            i <= queries.len(),
            qv == query_views(queries@),
            f == filter_view(filter),
            n <= i,
            n == usage_count(qv.take(i as int), f, coll@, field@),
        decreases queries.len() - i,
    {
        let q = &queries[i];
        assert(qv.take(i + 1).drop_last() =~= qv.take(i as int));
        assert(qv.take(i + 1).last() == q@);
        if passes(q, filter) && str_eq(q.collection.as_str(), coll) && contains_string(
            &q.query_fields,
            field,
        ) {
            n = n + 1;
        }
        i = i + 1;
    }
    assert(qv.take(i as int) =~= qv);
    n
}

/// The view of a ranking under construction.
pub open spec fn ranking_view(v: Seq<(String, usize)>) -> Seq<(Seq<char>, nat)> {
    v.map_values(|e: (String, usize)| (e.0@, e.1 as nat))
}

/// Strictly ordered by `rank_lt`.
pub open spec fn rank_sorted(s: Seq<(Seq<char>, nat)>) -> bool {
    forall|i: int, j: int| 0 <= i < j < s.len() ==> rank_lt(#[trigger] s[i], #[trigger] s[j])
}

fn rank_lt_exec(a: &(String, usize), b: &(String, usize)) -> (r: bool)
    ensures
        r == rank_lt((a.0@, a.1 as nat), (b.0@, b.1 as nat)),
{
    a.1 > b.1 || (a.1 == b.1 && str_lt(a.0.as_str(), b.0.as_str()))
}

pub(crate) fn insert_ranked(v: &mut Vec<(String, usize)>, e: (String, usize))
    requires
        rank_sorted(ranking_view(old(v)@)),
        !ranking_view(old(v)@).contains((e.0@, e.1 as nat)),
    ensures
        rank_sorted(ranking_view(final(v)@)),
        ranking_view(final(v)@).to_set() == ranking_view(old(v)@).to_set().insert(
            (e.0@, e.1 as nat),
        ),
        ranking_view(final(v)@).len() == ranking_view(old(v)@).len() + 1,
{
    let ghost rv = ranking_view(v@);
    let ghost x = (e.0@, e.1 as nat);
    let mut p: usize = 0;
    while p < v.len() && !rank_lt_exec(&e, &v[p])
        invariant
            p <= v.len(),
            rv == ranking_view(v@),
            x == (e.0@, e.1 as nat),
            forall|m: int| 0 <= m < p ==> !rank_lt(x, #[trigger] rv[m]),
        decreases v.len() - p,
    {
        assert(rv[p as int] == (v@[p as int].0@, v@[p as int].1 as nat));
        p = p + 1;
    }
    v.insert(p, e);
    let ghost nv = ranking_view(v@);
    assert(nv =~= rv.insert(p as int, x));
    assert forall|m: int| 0 <= m < p implies rank_lt(#[trigger] rv[m], x) by {
        assert(rv[m] != x) by {
            assert(rv.contains(rv[m]));
        }
        lemma_rank_order(rv[m], x, x);
    }
    assert forall|a: int, b: int| 0 <= a < b < nv.len() implies rank_lt(
        #[trigger] nv[a],
        #[trigger] nv[b],
    ) by {
        if a < p && b == p {
        } else if a == p && b > p {
            if b - 1 > p {
                assert(rank_lt(rv[p as int], rv[b - 1]));
                lemma_rank_order(x, rv[p as int], rv[b - 1]);
            }
        } else if a < p && b > p {
            if b - 1 > p {
                assert(rank_lt(rv[p as int], rv[b - 1]));
                lemma_rank_order(x, rv[p as int], rv[b - 1]);
            }
            lemma_rank_order(rv[a], x, rv[b - 1]);
        } else if a > p {
            assert(rank_lt(rv[a - 1], rv[b - 1]));
        } else {
            assert(rank_lt(rv[a], rv[b]));
        }
    }
    assert forall|y: (Seq<char>, nat)| nv.to_set().contains(y) <==> rv.to_set().insert(
        x,
    ).contains(y) by {
        if rv.contains(y) {
            let m = choose|m: int| 0 <= m < rv.len() && rv[m] == y;
            if m < p {
                assert(nv[m] == y);
            } else {
                assert(nv[m + 1] == y);
            }
        }
        if nv.contains(y) {
            let m = choose|m: int| 0 <= m < nv.len() && nv[m] == y;
            if m < p {
                assert(rv[m] == y);
            } else if m > p {
                assert(rv[m - 1] == y);
            }
        }
        assert(nv[p as int] == x);
    }
    assert(nv.to_set() =~= rv.to_set().insert(x));
}

/// The names of a ranking.
pub open spec fn ranking_names(s: Seq<(Seq<char>, nat)>) -> Seq<Seq<char>> {
    s.map_values(|e: (Seq<char>, nat)| e.0)
}

/// The ranked pairs of a sequence of fields.
pub open spec fn ranked_all(
    fs: Seq<Seq<char>>,
    qs: Seq<QueryView>,
    filter: Option<Seq<char>>,
    coll: Seq<char>,
) -> Seq<(Seq<char>, nat)> {
    fs.map_values(|x: Seq<char>| ranked(qs, filter, coll, x))
}

/// The distinct fields of collection `coll`, each with its usage count,
/// by count descending, ties by name ascending.
pub(crate) fn rank_fields(
    queries: &Vec<MongoQuery>,
    filter: Option<&str>,
    coll: &String,
    fields: &Vec<String>,
) -> (ranking: Vec<(String, usize)>)
    requires
        strs(fields@) == items_of(query_views(queries@), filter_view(filter), coll@, false),
    ensures
        rank_sorted(ranking_view(ranking@)),
        ranking_view(ranking@).len() == fields@.len(),
        ranking_view(ranking@).to_set() == ranked_all(
            strs(fields@),
            query_views(queries@),
            filter_view(filter),
            coll@,
        ).to_set(),
{
    let ghost qv = query_views(queries@);
    let ghost f = filter_view(filter);
    let ghost fs = strs(fields@);
    proof {
        lemma_fields_distinct(qv, f, coll@);
    }
    let mut ranking: Vec<(String, usize)> = Vec::new();
    let mut k: usize = 0;
    assert(ranking_view(ranking@).to_set() =~= ranked_all(fs.take(0), qv, f, coll@).to_set());
    while k < fields.len()
        invariant
            k <= fields.len(),
            qv == query_views(queries@),
            f == filter_view(filter),
            fs == strs(fields@),
            no_duplicates(fs),
            rank_sorted(ranking_view(ranking@)),
            ranking_view(ranking@).len() == k,
            ranking_view(ranking@).to_set() == ranked_all(fs.take(k as int), qv, f, coll@).to_set(),
        decreases fields.len() - k,
    {
        let c = count_usage(queries, filter, coll.as_str(), fields[k].as_str());
        let ghost rv = ranking_view(ranking@);
        let ghost x = (fs[k as int], c as nat);
        assert(x == ranked(qv, f, coll@, fs[k as int]));
        assert(!rv.contains(x)) by {
            if rv.contains(x) {
                assert(rv.to_set().contains(x));
                let ra = ranked_all(fs.take(k as int), qv, f, coll@);
                assert(ra.to_set().contains(x));
                let m = choose|m: int| 0 <= m < ra.len() && ra[m] == x;
                assert(fs[m] == fs[k as int]);
            }
        }
        insert_ranked(&mut ranking, (copy_string(&fields[k]), c));
        proof {
            let ra = ranked_all(fs.take(k as int), qv, f, coll@);
            assert(ranked_all(fs.take(k + 1), qv, f, coll@) =~= ra.push(x));
            crate::text::lemma_push_to_set(ra, x);
        }
        k = k + 1;
    }
    assert(fs.take(k as int) =~= fs);
    ranking
}

fn collection_suggestions(
    queries: &Vec<MongoQuery>,
    filter: Option<&str>,
    coll: &String,
    fields: &Vec<String>,
) -> (r: Vec<IndexSuggestion>)
    requires
        strs(fields@) == items_of(query_views(queries@), filter_view(filter), coll@, false),
    ensures
        exists|t: Seq<Seq<char>>|
            is_top_fields(t, query_views(queries@), filter_view(filter), coll@)
                && suggestion_views(r@) == suggestions_spec(
                t,
                query_views(queries@),
                filter_view(filter),
                coll@,
            ),
{
    let ghost qv = query_views(queries@);
    let ghost f = filter_view(filter);
    let ghost fs = strs(fields@);
    let ranking = rank_fields(queries, filter, coll, fields);
    let ghost rv = ranking_view(ranking@);
    let ghost all = ranked_all(fs, qv, f, coll@);
    proof {
        lemma_fields_distinct(qv, f, coll@);
    }
    let n = ranking.len();
    let limit: usize = if n < 3 {
        n
    } else {
        3
    };
    let ghost t = ranking_names(rv.take(limit as int));
    assert forall|i: int| 0 <= i < limit implies rv[i] == ranked(qv, f, coll@, #[trigger] t[i])
        && fs.contains(t[i]) by {
        assert(rv.to_set().contains(rv[i]));
        assert(all.to_set().contains(rv[i]));
        let m = choose|m: int| 0 <= m < all.len() && all[m] == rv[i];
        assert(t[i] == rv[i].0);
        assert(fs[m] == t[i]);
    }
    assert forall|x: Seq<char>, i: int|
        #![trigger fs.contains(x), t[i]]
        fs.contains(x) && !t.contains(x) && 0 <= i < t.len() implies rank_lt(
        ranked(qv, f, coll@, t[i]),
        ranked(qv, f, coll@, x),
    ) by {
        let m = choose|m: int| 0 <= m < fs.len() && fs[m] == x;
        assert(all[m] == ranked(qv, f, coll@, x));
        assert(all.to_set().contains(all[m]));
        assert(rv.to_set().contains(all[m]));
        let j = choose|j: int| 0 <= j < rv.len() && rv[j] == all[m];
        if j < limit {
            assert(t[j] == x);
        }
        assert(rank_lt(rv[i], rv[j]));
    }
    assert(is_top_fields(t, qv, f, coll@));
    let mut r: Vec<IndexSuggestion> = Vec::new();
    if n > 0 && ranking[0].1 > SINGLE_FIELD_THRESHOLD {
        r.push(
            IndexSuggestion::SingleField { field: copy_string(&ranking[0].0), count: ranking[0].1 },
        );
    }
    let ghost single = suggestion_views(r@);
    if n >= 3 {
        let mut top: Vec<String> = Vec::new();
        let mut i: usize = 0;
        while i < 3
            invariant
                i <= 3,
                3 <= ranking@.len(),
                limit == 3,
                t == ranking_names(ranking_view(ranking@).take(3)),
                top@.len() == i,
                forall|m: int| 0 <= m < i ==> (#[trigger] top@[m])@ == t[m],
            decreases 3 - i,
        {
            top.push(copy_string(&ranking[i].0));
            i = i + 1;
        }
        assert(strs(top@) =~= t);
        r.push(IndexSuggestion::Compound { fields: top });
        assert(suggestion_views(r@) =~= single.push(SuggestionView::Compound { fields: t }));
    }
    assert(suggestion_views(r@) =~= suggestions_spec(t, qv, f, coll@));
    r
}

/// Whether collection `coll` gets any suggestion: it has at least three
/// distinct fields, or a field used more often than the threshold.
pub open spec fn has_suggestion(
    qs: Seq<QueryView>,
    filter: Option<Seq<char>>,
    coll: Seq<char>,
) -> bool {
    let fs = items_of(qs, filter, coll, false);
    ||| fs.len() >= 3
    ||| exists|x: Seq<char>|
        fs.contains(x) && #[trigger] usage_count(qs, filter, coll, x)
            > SINGLE_FIELD_THRESHOLD as nat
}

/// The collections among the first `k` of `cs` that get a suggestion, in
/// order.
pub open spec fn suggested_collections(
    cs: Seq<Seq<char>>,
    k: int,
    qs: Seq<QueryView>,
    filter: Option<Seq<char>>,
) -> Seq<Seq<char>>
    decreases k,
{
    if k <= 0 || k > cs.len() {
        Seq::empty()
    } else {
        let r = suggested_collections(cs, k - 1, qs, filter);
        if has_suggestion(qs, filter, cs[k - 1]) {
            r.push(cs[k - 1])
        } else {
            r
        }
    }
}

/// The suggestions for a collection are empty exactly when it gets none.
pub proof fn lemma_suggestions_nonempty(
    t: Seq<Seq<char>>,
    qs: Seq<QueryView>,
    filter: Option<Seq<char>>,
    coll: Seq<char>,
)
    requires
        is_top_fields(t, qs, filter, coll),
    ensures
        suggestions_spec(t, qs, filter, coll).len() > 0 <==> has_suggestion(qs, filter, coll),
{
    let fs = items_of(qs, filter, coll, false);
    let cnt0 = if t.len() > 0 {
        usage_count(qs, filter, coll, t[0])
    } else {
        0
    };
    if t.len() > 0 && cnt0 > SINGLE_FIELD_THRESHOLD as nat {
        assert(fs.contains(t[0]));
    }
    if fs.len() < 3 && has_suggestion(qs, filter, coll) {
        let x = choose|x: Seq<char>|
            fs.contains(x) && #[trigger] usage_count(qs, filter, coll, x)
                > SINGLE_FIELD_THRESHOLD as nat;
        assert(t.len() == fs.len());
        let k = choose|k: int| 0 <= k < fs.len() && fs[k] == x;
        assert(t.len() > 0);
        if t.contains(x) {
            let j = choose|j: int| 0 <= j < t.len() && t[j] == x;
            if j > 0 {
                assert(rank_lt(ranked(qs, filter, coll, t[0]), ranked(qs, filter, coll, t[j])));
            }
        } else {
            assert(rank_lt(ranked(qs, filter, coll, t[0]), ranked(qs, filter, coll, x)));
        }
    }
}

/// The index suggestions of the collections that get any, in order of first
/// appearance among the call-sites that pass the service filter. A
/// collection's fields are ranked by the number of call-sites that reference
/// them (most first, ties by name); the first field is suggested alone when
/// that number exceeds the threshold, and the first three together when the
/// collection has at least three distinct fields.
pub fn get_indexes(queries: &Vec<MongoQuery>, service_filter: Option<&str>) -> (r: Vec<
    (String, Vec<IndexSuggestion>),
>)
    ensures
        ({
            let qv = query_views(queries@);
            let f = filter_view(service_filter);
            let cs = collections_of(qv, f);
            let kept = suggested_collections(cs, cs.len() as int, qv, f);
            &&& r@.len() == kept.len()
            &&& forall|i: int|
                0 <= i < r@.len() ==> {
                    &&& (#[trigger] r@[i]).0@ == kept[i]
                    &&& r@[i].1@.len() > 0
                    &&& exists|t: Seq<Seq<char>>|
                        is_top_fields(t, qv, f, kept[i]) && suggestion_views(r@[i].1@)
                            == suggestions_spec(t, qv, f, kept[i])
                }
        }),
{
    let inv = inventory(queries, service_filter, false);
    let ghost qv = query_views(queries@);
    let ghost f = filter_view(service_filter);
    let ghost cs = collections_of(qv, f);
    assert(inventory_view(inv@).len() == cs.len());
    let mut r: Vec<(String, Vec<IndexSuggestion>)> = Vec::new();
    let mut i: usize = 0;
    while i < inv.len()
        invariant
            i <= inv.len(),
            qv == query_views(queries@),
            f == filter_view(service_filter),
            inventory_view(inv@) == inventory_spec(qv, f, false),
            cs == collections_of(qv, f),
            inv@.len() == cs.len(),
            r@.len() == suggested_collections(cs, i as int, qv, f).len(),
            forall|m: int|
                0 <= m < r@.len() ==> {
                    let c = suggested_collections(cs, i as int, qv, f)[m];
                    &&& (#[trigger] r@[m]).0@ == c
                    &&& r@[m].1@.len() > 0
                    &&& exists|t: Seq<Seq<char>>|
                        is_top_fields(t, qv, f, c) && suggestion_views(r@[m].1@)
                            == suggestions_spec(t, qv, f, c)
                },
        decreases inv.len() - i,
    {
        assert(inventory_view(inv@)[i as int] == (inv@[i as int].0@, strs(inv@[i as int].1@)));
        let ghost c = cs[i as int];
        let ghost before = suggested_collections(cs, i as int, qv, f);
        let s = collection_suggestions(queries, service_filter, &inv[i].0, &inv[i].1);
        let ghost t = choose|t: Seq<Seq<char>>|
            is_top_fields(t, qv, f, c) && suggestion_views(s@) == suggestions_spec(t, qv, f, c);
        proof {
            lemma_suggestions_nonempty(t, qv, f, c);
        }
        if s.len() > 0 {
            let ghost old_r = r@;
            r.push((copy_string(&inv[i].0), s));
            assert forall|m: int| 0 <= m < r@.len() implies {
                let c2 = suggested_collections(cs, i + 1, qv, f)[m];
                &&& (#[trigger] r@[m]).0@ == c2
                &&& r@[m].1@.len() > 0
                &&& exists|t: Seq<Seq<char>>|
                    is_top_fields(t, qv, f, c2) && suggestion_views(r@[m].1@)
                        == suggestions_spec(t, qv, f, c2)
            } by {
                if m < old_r.len() {
                    assert(r@[m] == old_r[m]);
                    assert(suggested_collections(cs, i + 1, qv, f)[m] == before[m]);
                } else {
                    assert(suggested_collections(cs, i + 1, qv, f)[m] == c);
                    assert(suggestion_views(s@).len() == s@.len());
                }
            }
        } else {
            assert(suggestion_views(s@).len() == s@.len());
        }
        i = i + 1;
    }
    r
}

/// The distinct fields, in order of first appearance, of the selected
/// call-sites on collection `coll`.
pub(crate) fn get_fields_of(queries: &Vec<MongoQuery>, filter: Option<&str>, coll: &String) -> (r:
    Vec<String>)
    ensures
        strs(r@) == items_of(query_views(queries@), filter_view(filter), coll@, false),
{
    let ghost qv = query_views(queries@);
    let ghost f = filter_view(filter);
    let mut r: Vec<String> = Vec::new();
    let mut i: usize = 0;
    assert(strs(r@) =~= items_of(qv.take(0), f, coll@, false));
    while i < queries.len()
        invariant
            i <= queries.len(),
            qv == query_views(queries@),
            f == filter_view(filter),
            strs(r@) == items_of(qv.take(i as int), f, coll@, false),
        decreases queries.len() - i,
    {
        let q = &queries[i];
        assert(qv.take(i + 1).drop_last() =~= qv.take(i as int));
        assert(qv.take(i + 1).last() == q@);
        if passes(q, filter) && str_eq(q.collection.as_str(), coll.as_str()) {
            let ghost base = strs(r@);
            let ghost items = strs(q.query_fields@);
            let mut k: usize = 0;
            while k < q.query_fields.len()
                invariant
                    k <= q.query_fields.len(),
                    items == strs(q.query_fields@),
                    strs(r@) == add_all_distinct(base, items.take(k as int)),
                decreases q.query_fields.len() - k,
            {
                push_distinct(&mut r, &q.query_fields[k]);
                assert(items.take(k + 1).drop_last() =~= items.take(k as int));
                k = k + 1;
            }
            assert(items.take(k as int) =~= items);
        }
        i = i + 1;
    }
    assert(qv.take(i as int) =~= qv);
    r
}

} // verus!
