//! Text predicates and small sequence lemmas shared by the store and the
//! search engine: case-sensitive substring matching, string equality over
//! views, membership of a name in a list, and induction lemmas for
//! `Seq::filter` and first-match lookup.

use vstd::prelude::*;

verus! {

/// `q` occurs in `s` as a contiguous run starting at position `i`.
pub open spec fn is_substring_at(s: Seq<char>, q: Seq<char>, i: int) -> bool {
    0 <= i && i + q.len() <= s.len() && s.subrange(i, i + q.len() as int) == q
}

/// `q` occurs somewhere in `s` as a contiguous run (the empty sequence
/// occurs in every sequence).
pub open spec fn contains_seq(s: Seq<char>, q: Seq<char>) -> bool {
    exists|i: int| is_substring_at(s, q, i)
}

/// Every sequence contains itself (witness: position 0).
pub proof fn lemma_contains_seq_reflexive(s: Seq<char>)
    ensures
        contains_seq(s, s),
{
    assert(s.subrange(0, s.len() as int) =~= s);
    assert(is_substring_at(s, s, 0));
}

/// Views of a list of strings.
pub open spec fn names_view(s: Seq<String>) -> Seq<Seq<char>> {
    s.map_values(|x: String| x@)
}

/// String equality over views, decided character by character.
pub fn str_eq(a: &str, b: &str) -> (r: bool)
    ensures
        r == (a@ == b@),
{
    let a_owned: String = a.to_owned();
    let b_owned: String = b.to_owned();
    a_owned == b_owned
}

/// Whether `q` occurs in `s` as a contiguous run starting at `i`.
fn match_at(s: &str, q: &str, i: usize, n: usize, m: usize) -> (r: bool)
    requires
        n == s@.len(),
        m == q@.len(),
        i + m <= n,
    ensures
        r == is_substring_at(s@, q@, i as int),
{
    let mut j: usize = 0;
    while j < m
        invariant
            n == s@.len(),
            m == q@.len(),
            i + m <= n,
            j <= m,
            forall|k: int| 0 <= k < j ==> s@[i + k] == q@[k],
        decreases m - j,
    {
        if s.get_char(i + j) != q.get_char(j) {
            proof {
                if s@.subrange(i as int, i + m) == q@ {
                    assert(s@.subrange(i as int, i + m)[j as int] == s@[i + j]);
                }
            }
            return false;
        }
        j += 1;
    }
    proof {
        assert(s@.subrange(i as int, i + m) =~= q@);
    }
    true
}

/// Case-sensitive substring search: whether `q` occurs anywhere in `s`.
pub fn str_contains_sub(s: &str, q: &str) -> (r: bool)
    ensures
        r == contains_seq(s@, q@),
{
    let n = s.unicode_len();
    let m = q.unicode_len();
    if m > n {
        proof {
            assert(forall|i: int| !is_substring_at(s@, q@, i));
        }
        return false;
    }
    if m == 0 {
        proof {
            assert(s@.subrange(0, 0) =~= q@);
            assert(is_substring_at(s@, q@, 0));
        }
        return true;
    }
    let mut i: usize = 0;
    while i <= n - m
        invariant
            n == s@.len(),
            m == q@.len(),
            1 <= m <= n,
            i <= n - m + 1,
            forall|k: int| 0 <= k < i ==> !is_substring_at(s@, q@, k),
        decreases n - m + 1 - i,
    {
        if match_at(s, q, i, n, m) {
            return true;
        }
        i += 1;
    }
    proof {
        assert forall|k: int| !is_substring_at(s@, q@, k) by {
            if 0 <= k && k + m <= n {
                assert(k <= n - m < i);
            }
        }
    }
    false
}

/// Whether some string in `names` equals `name`.
pub fn name_in_list(names: &[String], name: &str) -> (r: bool)
    ensures
        r == names_view(names@).contains(name@),
{
    let mut i: usize = 0;
    while i < names.len()
        invariant
            i <= names.len(),
            forall|k: int| 0 <= k < i ==> names@[k]@ != name@,
        decreases names.len() - i,
    {
        if str_eq(vstd::slice::slice_index_get(names, i).as_str(), name) {
            proof {
                assert(names_view(names@)[i as int] == name@);
            }
            return true;
        }
        i += 1;
    }
    proof {
        assert forall|k: int| 0 <= k < names_view(names@).len() implies names_view(names@)[k]
            != name@ by {
            assert(names@[k]@ != name@);
        }
    }
    false
}

/// The first element of `s` satisfying `pred`, if any.
pub open spec fn first_match<A>(s: Seq<A>, pred: spec_fn(A) -> bool) -> Option<A>
    decreases s.len(),
{
    if s.len() == 0 {
        None
    } else if pred(s[0]) {
        Some(s[0])
    } else {
        first_match(s.subrange(1, s.len() as int), pred)
    }
}

/// If `s[i]` satisfies `pred` and no earlier element does, the first match
/// is `s[i]`.
pub proof fn lemma_first_match_at<A>(s: Seq<A>, pred: spec_fn(A) -> bool, i: int)
    requires
        0 <= i < s.len(),
        pred(s[i]),
        forall|k: int| 0 <= k < i ==> !pred(s[k]),
    ensures
        first_match(s, pred) == Some(s[i]),
    decreases i,
{
    if i > 0 {
        let rest = s.subrange(1, s.len() as int);
        assert(rest[i - 1] == s[i]);
        assert(forall|k: int| 0 <= k < i - 1 ==> rest[k] == s[k + 1] && !pred(rest[k]));
        lemma_first_match_at(rest, pred, i - 1);
    }
}

/// A first match is an element of the sequence and satisfies `pred`.
pub proof fn lemma_first_match_some<A>(s: Seq<A>, pred: spec_fn(A) -> bool, x: A)
    requires
        first_match(s, pred) == Some(x),
    ensures
        s.contains(x),
        pred(x),
    decreases s.len(),
{
    if s.len() > 0 {
        if pred(s[0]) {
            assert(s[0] == x);
        } else {
            let rest = s.subrange(1, s.len() as int);
            lemma_first_match_some(rest, pred, x);
            let k = choose|k: int| 0 <= k < rest.len() && rest[k] == x;
            assert(s[k + 1] == x);
        }
    }
}

/// If no element satisfies `pred`, there is no first match.
pub proof fn lemma_first_match_none<A>(s: Seq<A>, pred: spec_fn(A) -> bool)
    requires
        forall|k: int| 0 <= k < s.len() ==> !pred(s[k]),
    ensures
        first_match(s, pred) is None,
    decreases s.len(),
{
    if s.len() > 0 {
        let rest = s.subrange(1, s.len() as int);
        assert(forall|k: int| 0 <= k < rest.len() ==> rest[k] == s[k + 1] && !pred(rest[k]));
        lemma_first_match_none(rest, pred);
    }
}

/// One step of filtering: extending the prefix by `s[i]` extends the
/// filtered prefix by `s[i]` exactly when `s[i]` satisfies `pred`.
pub proof fn lemma_filter_step<A>(s: Seq<A>, pred: spec_fn(A) -> bool, i: int)
    requires
        0 <= i < s.len(),
    ensures
        s.subrange(0, i + 1).filter(pred) == if pred(s[i]) {
            s.subrange(0, i).filter(pred).push(s[i])
        } else {
            s.subrange(0, i).filter(pred)
        },
{
    reveal(Seq::filter);
    let a = s.subrange(0, i + 1);
    assert(a.len() == i + 1);
    assert(a.drop_last() =~= s.subrange(0, i));
    assert(a.last() == s[i]);
}

/// Every element of the filtered sequence is an element of the original.
pub proof fn lemma_filter_subset<A>(s: Seq<A>, pred: spec_fn(A) -> bool, i: int)
    requires
        0 <= i < s.filter(pred).len(),
    ensures
        s.contains(s.filter(pred)[i]),
    decreases s.len(),
{
    reveal(Seq::filter);
    if s.len() > 0 {
        let sub = s.drop_last().filter(pred);
        if pred(s.last()) && i == sub.len() {
            assert(s[s.len() - 1] == s.filter(pred)[i]);
        } else {
            lemma_filter_subset(s.drop_last(), pred, i);
            let k = choose|k: int|
                0 <= k < s.drop_last().len() && s.drop_last()[k] == s.filter(pred)[i];
            assert(s[k] == s.filter(pred)[i]);
        }
    }
}

/// Mapping distributes over extending a sequence by one element.
pub proof fn lemma_map_values_push<A, B>(s: Seq<A>, f: spec_fn(A) -> B, x: A)
    ensures
        (s.push(x)).map_values(f) == s.map_values(f).push(f(x)),
{
    assert((s.push(x)).map_values(f) =~= s.map_values(f).push(f(x)));
}

/// If every element satisfies `pred`, filtering keeps the sequence whole.
pub proof fn lemma_filter_all<A>(s: Seq<A>, pred: spec_fn(A) -> bool)
    requires
        forall|k: int| 0 <= k < s.len() ==> pred(#[trigger] s[k]),
    ensures
        s.filter(pred) == s,
    decreases s.len(),
{
    reveal(Seq::filter);
    if s.len() > 0 {
        assert(forall|k: int|
            0 <= k < s.drop_last().len() ==> pred(#[trigger] s.drop_last()[k]));
        lemma_filter_all(s.drop_last(), pred);
        assert(s.drop_last().push(s.last()) =~= s);
    }
}

/// Filtering preserves pairwise distinctness of any projection `f` of the
/// elements (in particular of their identifiers).
pub proof fn lemma_filter_distinct<A, B>(s: Seq<A>, pred: spec_fn(A) -> bool, f: spec_fn(A) -> B)
    requires
        forall|i: int, j: int| 0 <= i < j < s.len() ==> f(#[trigger] s[i]) != f(#[trigger] s[j]),
    ensures
        forall|i: int, j: int|
            0 <= i < j < s.filter(pred).len() ==> f(#[trigger] s.filter(pred)[i]) != f(
                #[trigger] s.filter(pred)[j],
            ),
    decreases s.len(),
{
    reveal(Seq::filter);
    if s.len() > 0 {
        let prefix = s.drop_last();
        assert(forall|i: int, j: int|
            0 <= i < j < prefix.len() ==> f(#[trigger] prefix[i]) != f(#[trigger] prefix[j]));
        lemma_filter_distinct(prefix, pred, f);
        let sub = prefix.filter(pred);
        if pred(s.last()) {
            assert forall|i: int, j: int|
                0 <= i < j < s.filter(pred).len() implies f(#[trigger] s.filter(pred)[i]) != f(
                #[trigger] s.filter(pred)[j],
            ) by {
                if j == sub.len() {
                    lemma_filter_subset(prefix, pred, i);
                    let k = choose|k: int| 0 <= k < prefix.len() && prefix[k] == sub[i];
                    assert(f(s[k]) != f(s[s.len() - 1]));
                }
            }
        }
    }
}

/// If no element satisfies `pred`, the filtered sequence is empty.
pub proof fn lemma_filter_none<A>(s: Seq<A>, pred: spec_fn(A) -> bool)
    requires
        forall|k: int| 0 <= k < s.len() ==> !pred(s[k]),
    ensures
        s.filter(pred).len() == 0,
    decreases s.len(),
{
    reveal(Seq::filter);
    if s.len() > 0 {
        assert(forall|k: int| 0 <= k < s.drop_last().len() ==> s.drop_last()[k] == s[k]);
        lemma_filter_none(s.drop_last(), pred);
    }
}

} // verus!
