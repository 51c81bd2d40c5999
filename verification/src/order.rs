//! Orders and sorting.
use crate::text::{chars_of, texts};
use vstd::prelude::*;
use vstd::relations::{
    antisymmetric, reflexive, sorted_by, strongly_connected, total_ordering, transitive,
};
use vstd::seq_lib::{lemma_multiset_commutative, lemma_sorted_unique};

verus! {

/// The numbers below `n`.
pub open spec fn indices(n: nat) -> Seq<int> {
    Seq::new(n, |i: int| i)
}

/// The numbers below `n` in an order.
pub open spec fn ordered(n: nat, leq: spec_fn(int, int) -> bool) -> Seq<int> {
    indices(n).sort_by(leq)
}

/// [`ordered`] lists each number once, in order.
pub proof fn ordered_is_sorted(n: nat, leq: spec_fn(int, int) -> bool)
    requires
        total_ordering(leq),
    ensures
        ordered(n, leq).to_multiset() == indices(n).to_multiset(),
        sorted_by(ordered(n, leq), leq),
        ordered(n, leq).len() == n,
        forall|k: int| 0 <= k < n ==> 0 <= #[trigger] ordered(n, leq)[k] < n,
{
    let all = indices(n);
    let r = ordered(n, leq);
    all.lemma_sort_by_ensures(leq);
    all.to_multiset_ensures();
    r.to_multiset_ensures();
    assert forall|k: int| 0 <= k < n implies 0 <= #[trigger] r[k] < n by {
        assert(r.contains(r[k]));
        assert(all.contains(r[k]));
    }
}

spec fn as_ints(v: Seq<usize>) -> Seq<int> {
    v.map_values(|i: usize| i as int)
}

spec fn span(lo: int, hi: int) -> Seq<int> {
    Seq::new((hi - lo) as nat, |i: int| lo + i)
}

spec fn decides<F: Fn(usize, usize) -> bool>(
    before: F,
    leq: spec_fn(int, int) -> bool,
    n: usize,
) -> bool {
    &&& forall|i: usize, j: usize| i < n && j < n ==> #[trigger] call_requires(before, (i, j))
    &&& forall|i: usize, j: usize, b: bool| #[trigger]
        call_ensures(before, (i, j), b) ==> b == leq(i as int, j as int)
}

fn merge<F: Fn(usize, usize) -> bool>(
    a: &Vec<usize>,
    b: &Vec<usize>,
    before: &F,
    n: usize,
    Ghost(leq): Ghost<spec_fn(int, int) -> bool>,
) -> (r: Vec<usize>)
    requires
        decides(*before, leq, n),
        total_ordering(leq),
        forall|k: int| 0 <= k < a@.len() ==> #[trigger] a@[k] < n,
        forall|k: int| 0 <= k < b@.len() ==> #[trigger] b@[k] < n,
        sorted_by(as_ints(a@), leq),
        sorted_by(as_ints(b@), leq),
    ensures
        forall|k: int| 0 <= k < r@.len() ==> #[trigger] r@[k] < n,
        sorted_by(as_ints(r@), leq),
        as_ints(r@).to_multiset() == as_ints(a@ + b@).to_multiset(),
{
    let mut r: Vec<usize> = Vec::new();
    let mut i: usize = 0;
    let mut j: usize = 0;
    let ghost x = as_ints(a@);
    let ghost y = as_ints(b@);
    proof {
        assert(x.take(0) + y.take(0) =~= Seq::<int>::empty());
        assert(as_ints(r@) =~= Seq::<int>::empty());
    }
    while i < a.len() || j < b.len()
        invariant
            decides(*before, leq, n),
            total_ordering(leq),
            forall|k: int| 0 <= k < a@.len() ==> #[trigger] a@[k] < n,
            forall|k: int| 0 <= k < b@.len() ==> #[trigger] b@[k] < n,
            x == as_ints(a@),
            y == as_ints(b@),
            sorted_by(x, leq),
            sorted_by(y, leq),
            i <= a@.len(),
            j <= b@.len(),
            forall|k: int| 0 <= k < r@.len() ==> #[trigger] r@[k] < n,
            sorted_by(as_ints(r@), leq),
            forall|p: int, q: int|
                0 <= p < r@.len() && i <= q < a@.len() ==> leq(
                    #[trigger] as_ints(r@)[p],
                    #[trigger] x[q],
                ),
            forall|p: int, q: int|
                0 <= p < r@.len() && j <= q < b@.len() ==> leq(
                    #[trigger] as_ints(r@)[p],
                    #[trigger] y[q],
                ),
            as_ints(r@).to_multiset() == (x.take(i as int) + y.take(j as int)).to_multiset(),
        decreases (a.len() - i) + (b.len() - j),
    {
        let ghost old_r = as_ints(r@);
        let from_a = if j >= b.len() {
            true
        } else if i >= a.len() {
            false
        } else {
            before(a[i], b[j])
        };
        proof {
            lemma_multiset_commutative(x.take(i as int), y.take(j as int));
        }
        if from_a {
            let ghost v = x[i as int];
            proof {
                assert(forall|q: int| i < q < x.len() ==> leq(v, #[trigger] x[q]));
                assert forall|q: int| j <= q < y.len() implies leq(v, #[trigger] y[q]) by {
                    assert(leq(v, y[j as int]));
                    if q > j {
                        assert(leq(y[j as int], y[q]));
                    }
                }
            }
            r.push(a[i]);
            i += 1;
            proof {
                assert(as_ints(r@) =~= old_r.push(v));
                old_r.to_multiset_ensures();
                x.take(i - 1).to_multiset_ensures();
                assert(x.take(i as int) =~= x.take(i - 1).push(v));
                lemma_multiset_commutative(x.take(i as int), y.take(j as int));
            }
        } else {
            let ghost v = y[j as int];
            proof {
                assert(forall|q: int| j < q < y.len() ==> leq(v, #[trigger] y[q]));
                assert forall|q: int| i <= q < x.len() implies leq(v, #[trigger] x[q]) by {
                    assert(leq(v, x[i as int]));
                    if q > i {
                        assert(leq(x[i as int], x[q]));
                    }
                }
            }
            r.push(b[j]);
            j += 1;
            proof {
                assert(as_ints(r@) =~= old_r.push(v));
                old_r.to_multiset_ensures();
                y.take(j - 1).to_multiset_ensures();
                assert(y.take(j as int) =~= y.take(j - 1).push(v));
                lemma_multiset_commutative(x.take(i as int), y.take(j as int));
            }
        }
    }
    assert(x.take(i as int) + y.take(j as int) =~= as_ints(a@ + b@));
    r
}

fn sort_span<F: Fn(usize, usize) -> bool>(
    lo: usize,
    hi: usize,
    before: &F,
    n: usize,
    Ghost(leq): Ghost<spec_fn(int, int) -> bool>,
) -> (r: Vec<usize>)
    requires
        lo <= hi <= n,
        decides(*before, leq, n),
        total_ordering(leq),
    ensures
        forall|k: int| 0 <= k < r@.len() ==> #[trigger] r@[k] < n,
        sorted_by(as_ints(r@), leq),
        as_ints(r@).to_multiset() == span(lo as int, hi as int).to_multiset(),
    decreases hi - lo,
{
    if hi - lo == 0 {
        let r: Vec<usize> = Vec::new();
        assert(as_ints(r@) =~= span(lo as int, hi as int));
        return r;
    }
    if hi - lo == 1 {
        let mut r: Vec<usize> = Vec::new();
        r.push(lo);
        assert(as_ints(r@) =~= span(lo as int, hi as int));
        return r;
    }
    let mid: usize = lo + (hi - lo) / 2;
    let a = sort_span(lo, mid, before, n, Ghost(leq));
    let b = sort_span(mid, hi, before, n, Ghost(leq));
    let r = merge(&a, &b, before, n, Ghost(leq));
    proof {
        assert(as_ints(a@ + b@) =~= as_ints(a@) + as_ints(b@));
        lemma_multiset_commutative(as_ints(a@), as_ints(b@));
        lemma_multiset_commutative(span(lo as int, mid as int), span(mid as int, hi as int));
        assert(span(lo as int, mid as int) + span(mid as int, hi as int) =~= span(
            lo as int,
            hi as int,
        ));
    }
    r
}

/// The numbers below `n` in the order that `before` decides.
pub(crate) fn sort_indices<F: Fn(usize, usize) -> bool>(
    n: usize,
    before: F,
    Ghost(leq): Ghost<spec_fn(int, int) -> bool>,
) -> (r: Vec<usize>)
    requires
        forall|i: usize, j: usize| i < n && j < n ==> #[trigger] call_requires(before, (i, j)),
        forall|i: usize, j: usize, b: bool| #[trigger]
            call_ensures(before, (i, j), b) ==> b == leq(i as int, j as int),
        total_ordering(leq),
    ensures
        r@.map_values(|i: usize| i as int) == ordered(n as nat, leq),
        r@.len() == n,
        forall|k: int| 0 <= k < n ==> #[trigger] r@[k] < n,
{
    let r = sort_span(0, n, &before, n, Ghost(leq));
    proof {
        assert(span(0, n as int) =~= indices(n as nat));
        ordered_is_sorted(n as nat, leq);
        lemma_sorted_unique(as_ints(r@), ordered(n as nat, leq), leq);
        assert(as_ints(r@) =~= r@.map_values(|i: usize| i as int));
    }
    r
}

/// Whether a text comes no later than another where texts are ordered by their characters.
pub open spec fn text_leq(a: Seq<char>, b: Seq<char>) -> bool
    decreases a.len(),
{
    if a.len() == 0 {
        true
    } else if b.len() == 0 {
        false
    } else if a[0] != b[0] {
        a[0] < b[0]
    } else {
        text_leq(a.skip(1), b.skip(1))
    }
}

/// Any two texts are ordered.
pub proof fn text_leq_total(a: Seq<char>, b: Seq<char>)
    ensures
        text_leq(a, b) || text_leq(b, a),
        text_leq(a, a),
    decreases a.len(),
{
    if a.len() > 0 {
        text_leq_total(a.skip(1), b.skip(1));
    }
}

/// Two texts of which neither comes later are the same.
pub proof fn text_leq_antisymmetric(a: Seq<char>, b: Seq<char>)
    requires
        text_leq(a, b),
        text_leq(b, a),
    ensures
        a == b,
    decreases a.len(),
{
    if a.len() > 0 && b.len() > 0 {
        text_leq_antisymmetric(a.skip(1), b.skip(1));
        assert(a.skip(1).len() == b.skip(1).len());
        assert forall|i: int| 0 <= i < a.len() implies a[i] == b[i] by {
            if i > 0 {
                assert(a[i] == a.skip(1)[i - 1] && b[i] == b.skip(1)[i - 1]);
            }
        }
        assert(a =~= b);
    } else {
        assert(a =~= b);
    }
}

/// The order of texts carries over.
pub proof fn text_leq_transitive(a: Seq<char>, b: Seq<char>, c: Seq<char>)
    requires
        text_leq(a, b),
        text_leq(b, c),
    ensures
        text_leq(a, c),
    decreases a.len(),
{
    if a.len() > 0 && b.len() > 0 && c.len() > 0 && a[0] == b[0] && b[0] == c[0] {
        text_leq_transitive(a.skip(1), b.skip(1), c.skip(1));
    }
}

/// Whether a text comes no later than another.
pub fn text_before(a: &str, b: &str) -> (r: bool)
    ensures
        r == text_leq(a@, b@),
{
    let x = chars_of(a);
    let y = chars_of(b);
    let mut i: usize = 0;
    assert(a@.skip(0) =~= a@ && b@.skip(0) =~= b@);
    while i < x.len() && i < y.len()
        invariant
            x@ == a@,
            y@ == b@,
            i <= a@.len(),
            i <= b@.len(),
            text_leq(a@, b@) == text_leq(a@.skip(i as int), b@.skip(i as int)),
        decreases x.len() - i,
    {
        assert(a@.skip(i as int).skip(1) =~= a@.skip(i + 1));
        assert(b@.skip(i as int).skip(1) =~= b@.skip(i + 1));
        if x[i] != y[i] {
            return x[i] < y[i];
        }
        i += 1;
    }
    i >= x.len()
}

/// The order of the places of texts: by the text, and by the place where texts are the same.
pub open spec fn text_order(t: Seq<Seq<char>>) -> spec_fn(int, int) -> bool {
    |i: int, j: int| text_leq(t[i], t[j]) && (t[i] == t[j] ==> i <= j)
}

proof fn text_order_is_total(t: Seq<Seq<char>>)
    ensures
        total_ordering(text_order(t)),
{
    let leq = text_order(t);
    assert forall|i: int| #[trigger] leq(i, i) by {
        text_leq_total(t[i], t[i]);
    }
    assert forall|i: int, j: int| #[trigger] leq(i, j) && #[trigger] leq(j, i) implies i == j by {
        text_leq_antisymmetric(t[i], t[j]);
    }
    assert forall|i: int, j: int, k: int| #[trigger] leq(i, j) && #[trigger] leq(j, k) implies leq(
        i,
        k,
    ) by {
        text_leq_transitive(t[i], t[j], t[k]);
        if t[i] == t[k] {
            text_leq_antisymmetric(t[i], t[j]);
        }
    }
    assert forall|i: int, j: int| #[trigger] leq(i, j) || #[trigger] leq(j, i) by {
        text_leq_total(t[i], t[j]);
        text_leq_total(t[j], t[i]);
        if text_leq(t[i], t[j]) && text_leq(t[j], t[i]) {
            text_leq_antisymmetric(t[i], t[j]);
        }
    }
    assert(reflexive(leq) && antisymmetric(leq) && transitive(leq) && strongly_connected(leq));
}

/// Texts in their order.
pub open spec fn sorted_texts(t: Seq<Seq<char>>) -> Seq<Seq<char>> {
    ordered(t.len(), text_order(t)).map_values(|i: int| t[i])
}

/// What is made of the same values, one by one, holds the same values.
pub proof fn map_keeps_multisets<A, B>(a: Seq<A>, b: Seq<A>, f: spec_fn(A) -> B)
    requires
        a.to_multiset() == b.to_multiset(),
    ensures
        a.map_values(f).to_multiset() == b.map_values(f).to_multiset(),
    decreases a.len(),
{
    a.to_multiset_ensures();
    b.to_multiset_ensures();
    assert(a.len() == b.len());
    if a.len() == 0 {
        assert(a.map_values(f) =~= b.map_values(f));
    } else {
        let x = a.last();
        assert(a.contains(x));
        assert(a.to_multiset().count(x) > 0);
        assert(b.to_multiset().count(x) > 0);
        let k = choose|k: int| 0 <= k < b.len() && b[k] == x;
        assert(a.remove(a.len() - 1) =~= a.drop_last());
        map_keeps_multisets(a.drop_last(), b.remove(k), f);
        let fa = a.map_values(f);
        let fb = b.map_values(f);
        fa.to_multiset_ensures();
        fb.to_multiset_ensures();
        assert(fa.remove(fa.len() - 1) =~= a.drop_last().map_values(f));
        assert(fb.remove(k) =~= b.remove(k).map_values(f));
        assert(fa.contains(f(x)) && fb.contains(f(x))) by {
            assert(fa[a.len() - 1] == f(x) && fb[k] == f(x));
        }
        assert(fa.to_multiset() =~= fa.to_multiset().remove(f(x)).insert(f(x)));
        assert(fb.to_multiset() =~= fb.to_multiset().remove(f(x)).insert(f(x)));
    }
}

/// [`sorted_texts`] is in order and holds the same texts.
pub proof fn sorted_texts_are_sorted(t: Seq<Seq<char>>)
    ensures
        sorted_by(sorted_texts(t), |a: Seq<char>, b: Seq<char>| text_leq(a, b)),
        sorted_texts(t).len() == t.len(),
        sorted_texts(t).to_multiset() == t.to_multiset(),
{
    let leq = text_order(t);
    let r = sorted_texts(t);
    text_order_is_total(t);
    ordered_is_sorted(t.len(), leq);
    let o = ordered(t.len(), leq);
    assert forall|i: int, j: int| 0 <= i < j < r.len() implies text_leq(
        #[trigger] r[i],
        #[trigger] r[j],
    ) by {
        assert(leq(o[i], o[j]));
    }
    let f = |i: int| t[i];
    map_keeps_multisets(o, indices(t.len()), f);
    assert(indices(t.len()).map_values(f) =~= t);
    assert(o.map_values(f) =~= r);
}

/// Puts texts in their order.
pub fn sort_texts(v: &Vec<String>) -> (r: Vec<String>)
    ensures
        texts(r@) == sorted_texts(texts(v@)),
{
    let ghost t = texts(v@);
    let ghost leq = text_order(t);
    proof {
        text_order_is_total(t);
    }
    let before = |i: usize, j: usize| -> (b: bool)
        requires
            i < v@.len(),
            j < v@.len(),
        ensures
            b == text_order(texts(v@))(i as int, j as int),
        {
            assert(texts(v@)[i as int] == v@[i as int]@ && texts(v@)[j as int] == v@[j as int]@);
            let first = text_before(v[i].as_str(), v[j].as_str());
            let second = text_before(v[j].as_str(), v[i].as_str());
            proof {
                if first && second {
                    text_leq_antisymmetric(v@[i as int]@, v@[j as int]@);
                }
                text_leq_total(v@[i as int]@, v@[i as int]@);
            }
            first && (!second || i <= j)
        };
    let order = sort_indices(v.len(), before, Ghost(leq));
    let mut r: Vec<String> = Vec::new();
    let mut k: usize = 0;
    while k < order.len()
        invariant
            k <= order@.len(),
            order@.len() == v@.len(),
            t == texts(v@),
            forall|q: int| 0 <= q < order@.len() ==> #[trigger] order@[q] < v@.len(),
            order@.map_values(|i: usize| i as int) == ordered(t.len(), text_order(t)),
            r@.len() == k,
            forall|q: int| 0 <= q < k ==> (#[trigger] r@[q])@ == sorted_texts(t)[q],
        decreases order.len() - k,
    {
        assert(ordered(t.len(), text_order(t))[k as int] == order@[k as int] as int);
        assert(sorted_texts(t)[k as int] == t[order@[k as int] as int]);
        r.push(v[order[k]].clone());
        k += 1;
    }
    assert(texts(r@) =~= sorted_texts(t));
    r
}

} // verus!
