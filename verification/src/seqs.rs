//! Facts about sequences used by the loops of the library.
use vstd::prelude::*;

verus! {

/// Extending a prefix by one element.
pub proof fn lemma_take_succ<A>(s: Seq<A>, i: int)
    requires
        0 <= i < s.len(),
    ensures
        s.take(i + 1) == s.take(i).push(s[i]),
{
    assert(s.take(i + 1) =~= s.take(i).push(s[i]));
}

/// Filtering a prefix extended by one element.
pub proof fn lemma_take_succ_filter<A>(s: Seq<A>, i: int, pred: spec_fn(A) -> bool)
    requires
        0 <= i < s.len(),
    ensures
        s.take(i + 1).filter(pred) == (if pred(s[i]) {
            s.take(i).filter(pred).push(s[i])
        } else {
            s.take(i).filter(pred)
        }),
{
    lemma_take_succ(s, i);
    s.take(i).lemma_filter_push(s[i], pred);
}

/// The whole sequence is its longest prefix.
pub proof fn lemma_take_full<A>(s: Seq<A>)
    ensures
        s.take(s.len() as int) == s,
{
    assert(s.take(s.len() as int) =~= s);
}

/// Membership in a filtered sequence.
pub proof fn lemma_filter_contains_iff<A>(s: Seq<A>, pred: spec_fn(A) -> bool, x: A)
    ensures
        s.filter(pred).contains(x) <==> (s.contains(x) && pred(x)),
{
    broadcast use vstd::seq_lib::group_filter_ensures;
    if s.filter(pred).contains(x) {
        s.lemma_filter_contains_rev(pred, x);
        let k = choose|k: int| 0 <= k < s.filter(pred).len() && s.filter(pred)[k] == x;
        assert(pred(s.filter(pred)[k]));
    }
    if s.contains(x) && pred(x) {
        let k = choose|k: int| 0 <= k < s.len() && s[k] == x;
        s.lemma_filter_contains(pred, k);
    }
}

/// Pushing an element that is not yet present keeps a sequence free of duplicates.
pub proof fn lemma_push_no_duplicates<A>(s: Seq<A>, x: A)
    requires
        s.no_duplicates(),
        !s.contains(x),
    ensures
        s.push(x).no_duplicates(),
{
    let t = s.push(x);
    assert forall|i: int, j: int| 0 <= i < t.len() && 0 <= j < t.len() && i != j implies t[i] != t[j] by {
        if i < s.len() && j < s.len() {
            assert(t[i] == s[i] && t[j] == s[j]);
        } else if i < s.len() {
            assert(t[i] == s[i]);
        } else {
            assert(t[j] == s[j]);
        }
    }
}

/// Filtering keeps a sequence free of duplicates.
pub proof fn lemma_filter_no_duplicates<A>(s: Seq<A>, pred: spec_fn(A) -> bool)
    requires
        s.no_duplicates(),
    ensures
        s.filter(pred).no_duplicates(),
    decreases s.len(),
{
    reveal(Seq::filter);
    if s.len() > 0 {
        let d = s.drop_last();
        assert forall|i: int, j: int| 0 <= i < d.len() && 0 <= j < d.len() && i != j implies d[i] != d[j] by {
            assert(d[i] == s[i] && d[j] == s[j]);
        }
        lemma_filter_no_duplicates(d, pred);
        if pred(s.last()) {
            lemma_filter_contains_iff(d, pred, s.last());
            if d.contains(s.last()) {
                let k = choose|k: int| 0 <= k < d.len() && d[k] == s.last();
                assert(s[k] == s[s.len() - 1]);
            }
            lemma_push_no_duplicates(d.filter(pred), s.last());
        }
    }
}

/// Filtering by a predicate that holds of every element changes nothing.
pub proof fn lemma_filter_all<A>(s: Seq<A>, pred: spec_fn(A) -> bool)
    requires
        forall|x: A| s.contains(x) ==> pred(x),
    ensures
        s.filter(pred) == s,
    decreases s.len(),
{
    reveal(Seq::filter);
    if s.len() > 0 {
        let d = s.drop_last();
        assert forall|x: A| d.contains(x) implies pred(x) by {
            let k = choose|k: int| 0 <= k < d.len() && d[k] == x;
            assert(d[k] == s[k]);
            assert(s.contains(x));
        }
        lemma_filter_all(d, pred);
        assert(s.contains(s.last()));
        assert(d.push(s.last()) =~= s);
    }
}

/// The texts of a sequence of strings.
pub open spec fn texts(v: Seq<String>) -> Seq<Seq<char>> {
    v.map_values(|s: String| s@)
}

/// When `f` keeps every element, `filter_map` is a plain map.
pub proof fn lemma_filter_map_total<A, B>(s: Seq<A>, f: spec_fn(A) -> Option<B>)
    requires
        forall|i: int| 0 <= i < s.len() ==> (#[trigger] f(s[i])) is Some,
    ensures
        s.filter_map(f) == s.map_values(|x: A| f(x)->Some_0),
    decreases s.len(),
{
    if s.len() > 0 {
        let d = s.drop_last();
        assert forall|i: int| 0 <= i < d.len() implies (#[trigger] f(d[i])) is Some by {
            assert(d[i] == s[i]);
        }
        lemma_filter_map_total(d, f);
        assert(f(s[s.len() - 1]) is Some);
        assert(s.filter_map(f) =~= s.map_values(|x: A| f(x)->Some_0));
    } else {
        assert(s.filter_map(f) =~= s.map_values(|x: A| f(x)->Some_0));
    }
}

/// What `filter_map` yields: exactly the values `f` gives some element.
pub proof fn lemma_filter_map_contains_iff<A, B>(s: Seq<A>, f: spec_fn(A) -> Option<B>, y: B)
    ensures
        s.filter_map(f).contains(y) <==> exists|i: int| 0 <= i < s.len() && #[trigger] f(s[i]) == Some(y),
    decreases s.len(),
{
    if s.len() > 0 {
        let d = s.drop_last();
        lemma_filter_map_contains_iff(d, f, y);
        let last = s[s.len() - 1];
        if s.filter_map(f).contains(y) {
            let k = choose|k: int| 0 <= k < s.filter_map(f).len() && s.filter_map(f)[k] == y;
            if k < d.filter_map(f).len() {
                assert(d.filter_map(f)[k] == y);
                assert(d.filter_map(f).contains(y));
                let i = choose|i: int| 0 <= i < d.len() && #[trigger] f(d[i]) == Some(y);
                assert(s[i] == d[i]);
            } else {
                assert(f(last) == Some(y));
                assert(f(s[s.len() - 1]) == Some(y));
            }
        }
        if exists|i: int| 0 <= i < s.len() && #[trigger] f(s[i]) == Some(y) {
            let i = choose|i: int| 0 <= i < s.len() && #[trigger] f(s[i]) == Some(y);
            if i < d.len() {
                assert(d[i] == s[i]);
                assert(f(d[i]) == Some(y));
                assert(d.filter_map(f).contains(y));
                let k = choose|k: int| 0 <= k < d.filter_map(f).len() && d.filter_map(f)[k] == y;
                assert(s.filter_map(f)[k] == y);
            } else {
                assert(s.filter_map(f)[s.filter_map(f).len() - 1] == y);
            }
        }
    }
}

/// `filter_map` by a function that keeps distinct elements apart keeps a
/// sequence free of duplicates.
pub proof fn lemma_filter_map_no_duplicates<A, B>(s: Seq<A>, f: spec_fn(A) -> Option<B>)
    requires
        s.no_duplicates(),
        forall|x: A, y: A| #[trigger] f(x) is Some && #[trigger] f(y) == f(x) ==> x == y,
    ensures
        s.filter_map(f).no_duplicates(),
    decreases s.len(),
{
    if s.len() > 0 {
        let d = s.drop_last();
        let last = s[s.len() - 1];
        assert forall|i: int, j: int| 0 <= i < d.len() && 0 <= j < d.len() && i != j implies d[i] != d[j] by {
            assert(d[i] == s[i] && d[j] == s[j]);
        }
        lemma_filter_map_no_duplicates(d, f);
        match f(last) {
            Some(v) => {
                lemma_filter_map_contains_iff(d, f, v);
                if d.filter_map(f).contains(v) {
                    let i = choose|i: int| 0 <= i < d.len() && #[trigger] f(d[i]) == Some(v);
                    assert(d[i] == s[i]);
                    assert(s[i] == last);
                }
                lemma_push_no_duplicates(d.filter_map(f), v);
                assert(s.filter_map(f) =~= d.filter_map(f).push(v));
            },
            None => {
                assert(s.filter_map(f) =~= d.filter_map(f));
            },
        }
    } else {
        assert(s.filter_map(f) =~= Seq::<B>::empty());
    }
}

} // verus!
