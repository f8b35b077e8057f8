//! Ordering and membership facts on character sequences, and sorted,
//! duplicate-free vectors of strings.
use vstd::prelude::*;

verus! {

/// Lexicographic order on character sequences, comparing code points
/// (the order of `str`'s own `Ord`).
pub open spec fn seq_lt(a: Seq<char>, b: Seq<char>) -> bool
    decreases a.len(),
{
    if a.len() == 0 {
        b.len() > 0
    } else if b.len() == 0 {
        false
    } else if a[0] != b[0] {
        a[0] < b[0]
    } else {
        seq_lt(a.drop_first(), b.drop_first())
    }
}

/// The views of a sequence of strings.
pub open spec fn strs(v: Seq<String>) -> Seq<Seq<char>> {
    v.map_values(|x: String| x@)
}

/// Strictly ascending: sorted and free of duplicates.
pub open spec fn strictly_sorted(s: Seq<Seq<char>>) -> bool {
    forall|i: int, j: int| 0 <= i < j < s.len() ==> seq_lt(#[trigger] s[i], #[trigger] s[j])
}

/// The order is total and strict.
pub proof fn lemma_lt_total(a: Seq<char>, b: Seq<char>)
    ensures
        a == b || seq_lt(a, b) || seq_lt(b, a),
        !(seq_lt(a, b) && seq_lt(b, a)),
        !seq_lt(a, a),
    decreases a.len(),
{
    if a.len() == 0 && b.len() == 0 {
        assert(a =~= b);
    }
    if a.len() > 0 && b.len() > 0 && a[0] != b[0] {
        assert(a[0] < b[0] || b[0] < a[0]);
    }
    if a.len() > 0 {
        lemma_lt_total(a.drop_first(), a.drop_first());
    }
    if a.len() > 0 && b.len() > 0 && a[0] == b[0] {
        lemma_lt_total(a.drop_first(), b.drop_first());
        if a.drop_first() == b.drop_first() {
            assert forall|i: int| 0 <= i < a.len() implies a[i] == b[i] by {
                if i > 0 {
                    assert(a[i] == a.drop_first()[i - 1]);
                    assert(b[i] == b.drop_first()[i - 1]);
                }
            }
            assert(a =~= b);
        }
    }
}

/// The order is transitive.
pub proof fn lemma_lt_trans(a: Seq<char>, b: Seq<char>, c: Seq<char>)
    requires
        seq_lt(a, b),
        seq_lt(b, c),
    ensures
        seq_lt(a, c),
    decreases a.len(),
{
    if a.len() > 0 && a[0] == b[0] && b[0] == c[0] {
        lemma_lt_trans(a.drop_first(), b.drop_first(), c.drop_first());
    }
}

/// Whether `a` comes strictly before `b`.
pub fn str_lt(a: &str, b: &str) -> (r: bool)
    ensures
        r == seq_lt(a@, b@),
{
    let la = a.unicode_len();
    let lb = b.unicode_len();
    let mut i: usize = 0;
    assert(a@.skip(0) =~= a@);
    assert(b@.skip(0) =~= b@);
    while i < la && i < lb
        invariant
            la == a@.len(),
            lb == b@.len(),
            i <= la,
            i <= lb,
            seq_lt(a@, b@) == seq_lt(a@.skip(i as int), b@.skip(i as int)),
        decreases la - i,
    {
        let ca = a.get_char(i);
        let cb = b.get_char(i);
        if ca != cb {
            return ca < cb;
        }
        assert(a@.skip(i as int).drop_first() =~= a@.skip(i + 1));
        assert(b@.skip(i as int).drop_first() =~= b@.skip(i + 1));
        i = i + 1;
    }
    i == la && i < lb
}

/// Whether two strings hold the same characters.
pub fn str_eq(a: &str, b: &str) -> (r: bool)
    ensures
        r == (a@ == b@),
{
    proof {
        lemma_lt_total(a@, b@);
    }
    !str_lt(a, b) && !str_lt(b, a)
}

/// Two strictly sorted sequences with the same elements are equal.
pub proof fn lemma_sorted_unique(a: Seq<Seq<char>>, b: Seq<Seq<char>>)
    requires
        strictly_sorted(a),
        strictly_sorted(b),
        a.to_set() == b.to_set(),
    ensures
        a == b,
    decreases a.len(),
{
    assert forall|x: Seq<char>| a.contains(x) <==> b.contains(x) by {
        assert(a.to_set().contains(x) == a.contains(x));
        assert(b.to_set().contains(x) == b.contains(x));
    }
    if a.len() == 0 {
        if b.len() > 0 {
            assert(b.contains(b[0]));
        }
        assert(a =~= b);
    } else if b.len() == 0 {
        assert(a.contains(a[0]));
    } else {
        assert(a.contains(a[0]));
        assert(b.contains(b[0]));
        let ka = choose|k: int| 0 <= k < b.len() && b[k] == a[0];
        let kb = choose|k: int| 0 <= k < a.len() && a[k] == b[0];
        lemma_lt_total(a[0], b[0]);
        if ka > 0 {
            assert(seq_lt(b[0], b[ka]));
        }
        if kb > 0 {
            assert(seq_lt(a[0], a[kb]));
        }
        assert(a[0] == b[0]);
        let a1 = a.drop_first();
        let b1 = b.drop_first();
        assert forall|x: Seq<char>| a1.to_set().contains(x) <==> b1.to_set().contains(x) by {
            if a1.contains(x) {
                let i = choose|i: int| 0 <= i < a1.len() && a1[i] == x;
                assert(seq_lt(a[0], a[i + 1]));
                lemma_lt_total(a[0], x);
                assert(a.contains(x));
                let j = choose|j: int| 0 <= j < b.len() && b[j] == x;
                assert(j != 0);
                assert(b1[j - 1] == x);
            }
            if b1.contains(x) {
                let i = choose|i: int| 0 <= i < b1.len() && b1[i] == x;
                assert(seq_lt(b[0], b[i + 1]));
                lemma_lt_total(b[0], x);
                assert(b.contains(x));
                let j = choose|j: int| 0 <= j < a.len() && a[j] == x;
                assert(j != 0);
                assert(a1[j - 1] == x);
            }
        }
        assert(a1.to_set() =~= b1.to_set());
        lemma_sorted_unique(a1, b1);
        assert forall|i: int| 0 <= i < a.len() implies a[i] == b[i] by {
            if i > 0 {
                assert(a[i] == a1[i - 1]);
                assert(b[i] == b1[i - 1]);
            }
        }
        assert(a =~= b);
    }
}

/// Inserts `s` into a strictly ascending vector, unless it is already there.
pub fn insert_sorted(v: &mut Vec<String>, s: String)
    requires
        strictly_sorted(strs(old(v)@)),
    ensures
        strictly_sorted(strs(final(v)@)),
        strs(final(v)@).to_set() == strs(old(v)@).to_set().insert(s@),
{
    let ghost old_s = strs(v@);
    let mut i: usize = 0;
    while i < v.len() && str_lt(v[i].as_str(), s.as_str())
        invariant
            i <= v.len(),
            v@ == old(v)@,
            old_s == strs(v@),
            forall|k: int| 0 <= k < i ==> seq_lt(#[trigger] old_s[k], s@),
        decreases v.len() - i,
    {
        i = i + 1;
    }
    if i < v.len() && str_eq(v[i].as_str(), s.as_str()) {
        assert(strs(v@).to_set() =~= old_s.to_set().insert(s@)) by {
            assert(old_s[i as int] == s@);
        }
        return;
    }
    proof {
        if i < v.len() {
            lemma_lt_total(old_s[i as int], s@);
        }
    }
    v.insert(i, s);
    let ghost new_s = strs(v@);
    assert(new_s =~= old_s.insert(i as int, s@));
    assert forall|a: int, b: int| 0 <= a < b < new_s.len() implies seq_lt(
        #[trigger] new_s[a],
        #[trigger] new_s[b],
    ) by {
        if b == i {
        } else if a == i {
            lemma_lt_trans_from(old_s, s@, i as int, b - 1);
        } else if a < i && b > i {
            lemma_lt_trans_from(old_s, s@, i as int, b - 1);
            lemma_lt_trans(old_s[a], s@, old_s[b - 1]);
        } else if a > i {
            assert(seq_lt(old_s[a - 1], old_s[b - 1]));
        }
    }
    assert forall|x: Seq<char>| new_s.to_set().contains(x) <==> old_s.to_set().insert(s@).contains(x) by {
        if old_s.contains(x) {
            let k = choose|k: int| 0 <= k < old_s.len() && old_s[k] == x;
            if k < i {
                assert(new_s[k] == x);
            } else {
                assert(new_s[k + 1] == x);
            }
        }
        if new_s.contains(x) {
            let k = choose|k: int| 0 <= k < new_s.len() && new_s[k] == x;
            if k < i {
                assert(old_s[k] == x);
            } else if k > i {
                assert(old_s[k - 1] == x);
            }
        }
        assert(new_s[i as int] == s@);
    }
    assert(new_s.to_set() =~= old_s.to_set().insert(s@));
}

proof fn lemma_lt_trans_from(s: Seq<Seq<char>>, x: Seq<char>, i: int, j: int)
    requires
        strictly_sorted(s),
        0 <= i <= j < s.len(),
        seq_lt(x, s[i]),
    ensures
        seq_lt(x, s[j]),
{
    if i < j {
        lemma_lt_trans(x, s[i], s[j]);
    }
}

/// Appending an element adds it to the set of elements.
pub proof fn lemma_push_to_set<A>(s: Seq<A>, y: A)
    ensures
        s.push(y).to_set() == s.to_set().insert(y),
{
    let t = s.push(y);
    assert forall|x: A| t.to_set().contains(x) <==> s.to_set().insert(y).contains(x) by {
        if t.contains(x) {
            let k = choose|k: int| 0 <= k < t.len() && t[k] == x;
            if k < s.len() {
                assert(s[k] == x);
                assert(s.contains(x));
            }
        }
        if s.contains(x) {
            let k = choose|k: int| 0 <= k < s.len() && s[k] == x;
            assert(t[k] == x);
        }
        assert(t[s.len() as int] == y);
    }
    assert(t.to_set() =~= s.to_set().insert(y));
}

} // verus!
