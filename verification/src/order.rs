//! Sorting.
use vstd::prelude::*;
use crate::text::{is_before, string_views, text_before};

verus! {

broadcast use vstd::string::group_string_axioms;

/// Things that stand in an order.
pub trait Ranked: Sized {
    /// Whether `self` has to stand before `other`.
    spec fn precedes(self, other: Self) -> bool;

    /// Nothing stands before itself.
    proof fn precedes_is_irreflexive(a: Self)
        ensures
            !a.precedes(a),
    ;

    /// What stands before something stands before all that follows.
    proof fn precedes_is_transitive(a: Self, b: Self, c: Self)
        requires
            a.precedes(b),
            b.precedes(c),
        ensures
            a.precedes(c),
    ;

    /// What stands before something stands before all that ties with it.
    proof fn ties_are_transitive(a: Self, b: Self, c: Self)
        requires
            !a.precedes(b),
            !b.precedes(c),
        ensures
            !a.precedes(c),
    ;

    /// Whether `self` has to stand before `other`.
    fn goes_before(&self, other: &Self) -> (r: bool)
        ensures
            r == self.precedes(*other),
    ;
}

/// Nothing has to stand before what it stands after.
pub open spec fn in_order<T: Ranked>(s: Seq<T>) -> bool {
    forall|i: int, j: int| 0 <= i < j < s.len() ==> !(#[trigger] s[j]).precedes(#[trigger] s[i])
}

/// Whether `order` numbers the items of `r` as they stood in `items`: each item
/// once, none before what it has to stand after, and what ties as it came.
pub open spec fn ranked_by<T: Ranked>(r: Seq<T>, items: Seq<T>, order: Seq<int>) -> bool {
    &&& order.len() == items.len()
    &&& r.len() == items.len()
    &&& forall|i: int|
        0 <= i < order.len() ==> 0 <= #[trigger] order[i] < items.len() && r[i] == items[order[i]]
    &&& forall|i: int, j: int|
        0 <= i < j < order.len() ==> #[trigger] order[i] != #[trigger] order[j] && !r[j].precedes(
            r[i],
        ) && (!r[i].precedes(r[j]) ==> order[i] < order[j])
}

/// Whether `r` are the items in their order, what ties as it came.
pub open spec fn are_ranked<T: Ranked>(r: Seq<T>, items: Seq<T>) -> bool {
    exists|order: Seq<int>| #[trigger] ranked_by(r, items, order)
}

/// `items` in their order: what ties keeps the order it came in.
pub fn sorted<T: Ranked>(items: Vec<T>) -> (r: Vec<T>)
    ensures
        are_ranked(r@, items@),
        in_order(r@),
        r@.to_multiset() == items@.to_multiset(),
{
    let mut out: Vec<T> = Vec::new();
    let ghost all = items@;
    let ghost mut order: Seq<int> = seq![];
    proof {
        all.to_multiset_ensures();
        assert(all.take(0) =~= out@);
        assert(ranked_by(out@, all.take(0), order));
    }
    for item in it: items
        invariant
            it.seq() == all,
            ranked_by(out@, all.take(it.index() as int), order),
            in_order(out@),
            out@.to_multiset() == all.take(it.index() as int).to_multiset(),
    {
        let ghost before = out@;
        let mut at: usize = out.len();
        while at > 0 && item.goes_before(&out[at - 1])
            invariant
                at <= out.len(),
                out@ == before,
                in_order(before),
                forall|k: int| at <= k < out.len() ==> item.precedes(#[trigger] before[k]),
            decreases at,
        {
            at -= 1;
        }
        out.insert(at, item);
        proof {
            let n = it.index() as int;
            assert(out@ == before.insert(at as int, item));
            lemma_insert_keeps_order(before, at as int, item);
            lemma_insert_ranked(before, all.take(n), order, at as int, item);
            order = order.insert(at as int, n);
            before.to_multiset_ensures();
            assert(out@.to_multiset() =~= before.to_multiset().insert(item)) by {
                before.to_multiset_ensures();
                lemma_insert_multiset(before, at as int, item);
            }
            assert(all.take(n + 1) =~= all.take(n).push(item));
            all.take(n).to_multiset_ensures();
        }
    }
    assert(all.take(all.len() as int) =~= all);
    out
}

proof fn lemma_insert_ranked<T: Ranked>(
    s: Seq<T>,
    items: Seq<T>,
    order: Seq<int>,
    at: int,
    item: T,
)
    requires
        ranked_by(s, items, order),
        in_order(s.insert(at, item)),
        0 <= at <= s.len(),
        forall|k: int| at <= k < s.len() ==> item.precedes(#[trigger] s[k]),
    ensures
        ranked_by(s.insert(at, item), items.push(item), order.insert(at, items.len() as int)),
{
    let t = s.insert(at, item);
    let more = items.push(item);
    let next = order.insert(at, items.len() as int);
    assert forall|i: int| 0 <= i < next.len() implies 0 <= #[trigger] next[i] < more.len() && t[i]
        == more[next[i]] by {
        if i < at {
            assert(next[i] == order[i]);
        } else if i > at {
            assert(next[i] == order[i - 1]);
        }
    }
    assert forall|i: int, j: int| 0 <= i < j < next.len() implies #[trigger] next[i]
        != #[trigger] next[j] && !t[j].precedes(t[i]) && (!t[i].precedes(t[j]) ==> next[i]
        < next[j]) by {
        assert(!t[j].precedes(t[i]));
        let si = if i < at {
            i
        } else {
            i - 1
        };
        let sj = if j < at {
            j
        } else {
            j - 1
        };
        if i == at {
            assert(next[j] == order[sj]);
            assert(t[j] == s[sj]);
        } else if j == at {
            assert(next[i] == order[si]);
        } else {
            assert(next[i] == order[si]);
            assert(next[j] == order[sj]);
            assert(t[i] == s[si]);
            assert(t[j] == s[sj]);
        }
    }
}

/// What is ranked holds what was there and nothing else.
pub proof fn ranking_keeps_everything<T: Ranked>(r: Seq<T>, items: Seq<T>, order: Seq<int>, k: int)
    requires
        ranked_by(r, items, order),
        0 <= k < items.len(),
    ensures
        r.contains(items[k]),
{
    lemma_onto(order, items.len() as int, k);
    let i = choose|i: int| 0 <= i < order.len() && order[i] == k;
    assert(r[i] == items[order[i]]);
}

/// Different numbers below `n`, `n` of them, are all of them.
pub proof fn lemma_onto(order: Seq<int>, n: int, k: int)
    requires
        order.len() == n,
        0 <= k < n,
        forall|i: int| 0 <= i < order.len() ==> 0 <= #[trigger] order[i] < n,
        forall|i: int, j: int|
            0 <= i < j < order.len() ==> #[trigger] order[i] != #[trigger] order[j],
    ensures
        order.contains(k),
{
    assert(order.no_duplicates());
    order.unique_seq_to_set();
    let all = vstd::set_lib::set_int_range(0, n);
    vstd::set_lib::lemma_int_range(0, n);
    assert(order.to_set().subset_of(all));
    vstd::set_lib::lemma_subset_equality(order.to_set(), all);
    assert(order.to_set().contains(k));
}

proof fn lemma_insert_multiset<T>(s: Seq<T>, at: int, item: T)
    requires
        0 <= at <= s.len(),
    ensures
        s.insert(at, item).to_multiset() == s.to_multiset().insert(item),
{
    s.insert_ensures(at, item);
    let t = s.insert(at, item);
    s.to_multiset_ensures();
    t.to_multiset_ensures();
    assert(t.remove(at) =~= s);
    assert(t[at] == item);
    assert(t.remove(at).to_multiset() =~= t.to_multiset().remove(item));
    assert(t.to_multiset().contains(item));
    assert(t.to_multiset() =~= t.to_multiset().remove(item).insert(item));
}

proof fn lemma_insert_keeps_order<T: Ranked>(s: Seq<T>, at: int, item: T)
    requires
        in_order(s),
        0 <= at <= s.len(),
        forall|k: int| at <= k < s.len() ==> item.precedes(#[trigger] s[k]),
        at > 0 ==> !item.precedes(s[at - 1]),
    ensures
        in_order(s.insert(at, item)),
{
    let t = s.insert(at, item);
    assert forall|i: int, j: int| 0 <= i < j < t.len() implies !(#[trigger] t[j]).precedes(
        #[trigger] t[i],
    ) by {
        let si = if i < at {
            i
        } else {
            i - 1
        };
        let sj = if j < at {
            j
        } else {
            j - 1
        };
        if i == at {
            assert(t[j] == s[j - 1]);
            if t[j].precedes(item) {
                T::precedes_is_transitive(t[j], item, t[j]);
                T::precedes_is_irreflexive(t[j]);
            }
        } else if j == at {
            assert(t[i] == s[i]);
            if i < at - 1 {
                assert(!s[at - 1].precedes(s[i]));
                T::ties_are_transitive(item, s[at - 1], s[i]);
            }
        } else {
            assert(t[i] == s[si]);
            assert(t[j] == s[sj]);
        }
    }
}

// ---------------------------------------------------------------------------
// Text in order
// ---------------------------------------------------------------------------

/// Each text before the next one, none twice.
pub open spec fn strictly_ascending(s: Seq<Seq<char>>) -> bool {
    forall|i: int, j: int| 0 <= i < j < s.len() ==> text_before(#[trigger] s[i], #[trigger] s[j])
}

/// No text stands before itself.
pub proof fn text_order_is_irreflexive(a: Seq<char>)
    ensures
        !text_before(a, a),
    decreases a.len(),
{
    if a.len() > 0 {
        text_order_is_irreflexive(a.drop_first());
    }
}

/// The order of text is transitive.
pub proof fn text_order_is_transitive(a: Seq<char>, b: Seq<char>, c: Seq<char>)
    requires
        text_before(a, b),
        text_before(b, c),
    ensures
        text_before(a, c),
    decreases c.len(),
{
    if a.len() > 0 && b.len() > 0 && c.len() > 0 && a.first() == b.first() && b.first()
        == c.first() {
        text_order_is_transitive(a.drop_first(), b.drop_first(), c.drop_first());
    }
}

/// Of two different texts one stands before the other.
pub proof fn text_order_is_total(a: Seq<char>, b: Seq<char>)
    ensures
        a == b || text_before(a, b) || text_before(b, a),
    decreases a.len(),
{
    if a.len() > 0 && b.len() > 0 && a.first() == b.first() {
        text_order_is_total(a.drop_first(), b.drop_first());
        if a.drop_first() == b.drop_first() {
            assert(a =~= seq![a.first()] + a.drop_first());
            assert(b =~= seq![b.first()] + b.drop_first());
        }
    } else if a.len() == 0 && b.len() == 0 {
        assert(a =~= b);
    }
}

/// A sequence that ascends is settled by what it holds.
pub proof fn ascending_is_unique(a: Seq<Seq<char>>, b: Seq<Seq<char>>)
    requires
        strictly_ascending(a),
        strictly_ascending(b),
        a.to_set() == b.to_set(),
    ensures
        a == b,
    decreases a.len(),
{
    if a.len() == 0 {
        if b.len() > 0 {
            assert(b.to_set().contains(b[0]));
            assert(a.to_set().contains(b[0]));
        }
        assert(a =~= b);
    } else {
        assert(a.to_set().contains(a.last()));
        assert(b.to_set().contains(a.last()));
        assert(b.to_set().contains(b.last()));
        assert(a.to_set().contains(b.last()));
        let i = choose|i: int| 0 <= i < b.len() && b[i] == a.last();
        let j = choose|j: int| 0 <= j < a.len() && a[j] == b.last();
        if i < b.len() - 1 {
            assert(text_before(b[i], b[b.len() - 1]));
            if j < a.len() - 1 {
                assert(text_before(a[j], a[a.len() - 1]));
                text_order_is_transitive(a.last(), b.last(), a.last());
                text_order_is_irreflexive(a.last());
            } else {
                text_order_is_irreflexive(a.last());
            }
        }
        assert(a.last() == b.last());
        let a1 = a.drop_last();
        let b1 = b.drop_last();
        assert forall|x: Seq<char>| a1.to_set().contains(x) <==> b1.to_set().contains(x) by {
            if a1.to_set().contains(x) {
                let k = choose|k: int| 0 <= k < a1.len() && a1[k] == x;
                assert(a[k] == x);
                assert(a.to_set().contains(x));
                let m = choose|m: int| 0 <= m < b.len() && b[m] == x;
                assert(text_before(a[k], a[a.len() - 1]));
                text_order_is_irreflexive(x);
                assert(m < b.len() - 1);
                assert(b1[m] == x);
            }
            if b1.to_set().contains(x) {
                let k = choose|k: int| 0 <= k < b1.len() && b1[k] == x;
                assert(b[k] == x);
                assert(b.to_set().contains(x));
                let m = choose|m: int| 0 <= m < a.len() && a[m] == x;
                assert(text_before(b[k], b[b.len() - 1]));
                text_order_is_irreflexive(x);
                assert(m < a.len() - 1);
                assert(a1[m] == x);
            }
        }
        assert(a1.to_set() =~= b1.to_set());
        ascending_is_unique(a1, b1);
        assert(a =~= a1.push(a.last()));
        assert(b =~= b1.push(b.last()));
    }
}

/// The texts in order, each once.
pub fn distinct_sorted(items: &Vec<String>) -> (r: Vec<String>)
    ensures
        strictly_ascending(string_views(r@)),
        string_views(r@).to_set() == string_views(items@).to_set(),
{
    let mut out: Vec<String> = Vec::new();
    let ghost all = string_views(items@);
    let mut n: usize = 0;
    assert(string_views(out@).to_set() =~= all.take(0).to_set());
    while n < items.len()
        invariant
            n <= items.len(),
            all == string_views(items@),
            strictly_ascending(string_views(out@)),
            string_views(out@).to_set() == all.take(n as int).to_set(),
        decreases items.len() - n,
    {
        let item = items[n].as_str();
        let ghost before = string_views(out@);
        let mut at: usize = 0;
        while at < out.len() && is_before(out[at].as_str(), item)
            invariant
                at <= out.len(),
                before == string_views(out@),
                forall|k: int| 0 <= k < at ==> text_before(#[trigger] before[k], item@),
            decreases out.len() - at,
        {
            assert(before[at as int] == out@[at as int]@);
            at += 1;
        }
        let present = at < out.len() && crate::text::same(out[at].as_str(), item);
        proof {
            assert(all.take(n + 1) =~= all.take(n as int).push(item@));
            lemma_push_to_set(all.take(n as int), item@);
            if at < out.len() {
                assert(before[at as int] == out@[at as int]@);
            }
        }
        if present {
            proof {
                assert(before.to_set().contains(before[at as int]));
                assert(all.take(n as int).to_set().insert(item@) =~= all.take(n as int).to_set());
            }
        } else {
            out.insert(at, items[n].clone());
            proof {
                assert(string_views(out@) =~= before.insert(at as int, item@));
                lemma_insert_ascending(before, at as int, item@);
                lemma_insert_to_set(before, at as int, item@);
            }
        }
        n += 1;
    }
    assert(all.take(items.len() as int) =~= all);
    out
}

proof fn lemma_push_to_set<T>(s: Seq<T>, x: T)
    ensures
        s.push(x).to_set() == s.to_set().insert(x),
{
    let t = s.push(x);
    assert forall|y: T| t.to_set().contains(y) <==> s.to_set().insert(x).contains(y) by {
        if s.to_set().contains(y) {
            let i = choose|i: int| 0 <= i < s.len() && s[i] == y;
            assert(t[i] == y);
        }
        if y == x {
            assert(t[s.len() as int] == y);
        }
        if t.to_set().contains(y) {
            let i = choose|i: int| 0 <= i < t.len() && t[i] == y;
            if i < s.len() {
                assert(s[i] == y);
            }
        }
    }
    assert(t.to_set() =~= s.to_set().insert(x));
}

proof fn lemma_insert_to_set<T>(s: Seq<T>, at: int, x: T)
    requires
        0 <= at <= s.len(),
    ensures
        s.insert(at, x).to_set() == s.to_set().insert(x),
{
    let t = s.insert(at, x);
    assert forall|y: T| t.to_set().contains(y) <==> s.to_set().insert(x).contains(y) by {
        if s.to_set().contains(y) {
            let i = choose|i: int| 0 <= i < s.len() && s[i] == y;
            if i < at {
                assert(t[i] == y);
            } else {
                assert(t[i + 1] == y);
            }
        }
        if y == x {
            assert(t[at] == y);
        }
        if t.to_set().contains(y) {
            let i = choose|i: int| 0 <= i < t.len() && t[i] == y;
            if i < at {
                assert(s[i] == y);
            } else if i > at {
                assert(s[i - 1] == y);
            }
        }
    }
    assert(t.to_set() =~= s.to_set().insert(x));
}

proof fn lemma_insert_ascending(s: Seq<Seq<char>>, at: int, x: Seq<char>)
    requires
        strictly_ascending(s),
        0 <= at <= s.len(),
        forall|k: int| 0 <= k < at ==> text_before(#[trigger] s[k], x),
        at < s.len() ==> !text_before(s[at], x) && s[at] != x,
    ensures
        strictly_ascending(s.insert(at, x)),
{
    let t = s.insert(at, x);
    if at < s.len() {
        text_order_is_total(s[at], x);
    }
    assert forall|i: int, j: int| 0 <= i < j < t.len() implies text_before(
        #[trigger] t[i],
        #[trigger] t[j],
    ) by {
        if j == at {
            assert(t[i] == s[i]);
        } else if i == at {
            assert(t[j] == s[j - 1]);
            if j - 1 > at {
                assert(text_before(s[at], s[j - 1]));
                text_order_is_transitive(x, s[at], s[j - 1]);
            }
        } else {
            let si = if i < at {
                i
            } else {
                i - 1
            };
            let sj = if j < at {
                j
            } else {
                j - 1
            };
            assert(t[i] == s[si]);
            assert(t[j] == s[sj]);
        }
    }
}

} // verus!
