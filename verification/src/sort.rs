//! A stable sort over any ordered type.

use vstd::prelude::*;

verus! {

/// A type whose comparable values are totally preordered.
pub trait Ranked: Sized {
    /// Whether the value has a place in the order.
    spec fn comparable(&self) -> bool;

    /// Whether `self` may stand before `other`.
    spec fn before_eq(&self, other: &Self) -> bool;

    proof fn order_is_total(a: &Self, b: &Self)
        requires
            a.comparable(),
            b.comparable(),
        ensures
            a.before_eq(b) || b.before_eq(a),
    ;

    proof fn order_is_transitive(a: &Self, b: &Self, c: &Self)
        requires
            a.comparable(),
            b.comparable(),
            c.comparable(),
            a.before_eq(b),
            b.before_eq(c),
        ensures
            a.before_eq(c),
    ;

    fn goes_before(&self, other: &Self) -> (r: bool)
        ensures
            r == self.before_eq(other),
    ;
}

/// Every element has a place in the order.
pub open spec fn all_comparable<T: Ranked>(s: Seq<T>) -> bool {
    forall|i: int| 0 <= i < s.len() ==> (#[trigger] s[i]).comparable()
}

/// No element stands before one that must precede it.
pub open spec fn sorted<T: Ranked>(s: Seq<T>) -> bool {
    forall|i: int, j: int|
        #![trigger s[i], s[j]]
        0 <= i <= j < s.len() ==> s[i].before_eq(&s[j])
}

/// Neither value precedes the other strictly.
pub open spec fn tied<T: Ranked>(a: T, b: T) -> bool {
    a.before_eq(&b) && b.before_eq(&a)
}

/// The elements of `s` that tie with `x`, in the order in which they stand in `s`.
pub open spec fn ties<T: Ranked>(s: Seq<T>, x: T) -> Seq<T>
    decreases s.len(),
{
    if s.len() == 0 {
        Seq::empty()
    } else if tied(s.last(), x) {
        ties(s.drop_last(), x).push(s.last())
    } else {
        ties(s.drop_last(), x)
    }
}

/// Elements that tie keep their relative order.
pub open spec fn same_ties<T: Ranked>(a: Seq<T>, b: Seq<T>) -> bool {
    forall|x: T| x.comparable() ==> #[trigger] ties(a, x) == ties(b, x)
}

/// `out` is `input` put in order: the same elements, sorted, ties as they came.
pub open spec fn is_stable_sort<T: Ranked>(input: Seq<T>, out: Seq<T>) -> bool {
    &&& out.to_multiset() == input.to_multiset()
    &&& out.len() == input.len()
    &&& all_comparable(input) ==> sorted(out) && same_ties(input, out)
}

proof fn lemma_ties_concat<T: Ranked>(a: Seq<T>, b: Seq<T>, x: T)
    ensures
        ties(a + b, x) == ties(a, x) + ties(b, x),
    decreases b.len(),
{
    if b.len() == 0 {
        assert(a + b =~= a);
        assert(ties(a, x) + ties(b, x) =~= ties(a, x));
    } else {
        assert((a + b).drop_last() =~= a + b.drop_last());
        lemma_ties_concat(a, b.drop_last(), x);
        assert(ties(a + b, x) =~= ties(a, x) + ties(b, x));
    }
}

proof fn lemma_ties_none<T: Ranked>(s: Seq<T>, x: T)
    requires
        forall|i: int| 0 <= i < s.len() ==> !tied(#[trigger] s[i], x),
    ensures
        ties(s, x) == Seq::<T>::empty(),
    decreases s.len(),
{
    if s.len() > 0 {
        assert forall|i: int| 0 <= i < s.drop_last().len() implies !tied(
            #[trigger] s.drop_last()[i],
            x,
        ) by {
            assert(s.drop_last()[i] == s[i]);
        }
        lemma_ties_none(s.drop_last(), x);
    }
}

/// Putting `x` behind everything that may stand before it keeps order and ties.
proof fn lemma_insert<T: Ranked>(done: Seq<T>, x: T, j: int)
    requires
        0 <= j <= done.len(),
        all_comparable(done),
        x.comparable(),
        sorted(done),
        j > 0 ==> done[j - 1].before_eq(&x),
        forall|k: int| j <= k < done.len() ==> !(#[trigger] done[k]).before_eq(&x),
    ensures
        sorted(done.insert(j, x)),
        all_comparable(done.insert(j, x)),
        same_ties(done.push(x), done.insert(j, x)),
{
    let out = done.insert(j, x);
    assert forall|i: int| 0 <= i < out.len() implies (#[trigger] out[i]).comparable() by {
        if i < j {
            assert(out[i] == done[i]);
        } else if i > j {
            assert(out[i] == done[i - 1]);
        }
    }
    T::order_is_total(&x, &x);
    assert forall|a: int, b: int|
        #![trigger out[a], out[b]]
        0 <= a <= b < out.len() implies out[a].before_eq(&out[b]) by {
        if a < j {
            assert(out[a] == done[a]);
            if b < j {
                assert(out[b] == done[b]);
            } else if b == j {
                assert(done[a].before_eq(&done[j - 1]));
                T::order_is_transitive(&done[a], &done[j - 1], &x);
            } else {
                assert(out[b] == done[b - 1]);
            }
        } else if a == j {
            if b > j {
                assert(out[b] == done[b - 1]);
                T::order_is_total(&done[b - 1], &x);
            }
        } else {
            assert(out[a] == done[a - 1]);
            assert(out[b] == done[b - 1]);
        }
    }
    assert forall|q: T| q.comparable() implies #[trigger] ties(done.push(x), q) == ties(out, q) by {
        let front = done.take(j);
        let back = done.skip(j);
        assert(done =~= front + back);
        assert(out =~= (front + seq![x]) + back);
        assert(done.push(x) =~= (front + back) + seq![x]);
        lemma_ties_concat(front, back, q);
        lemma_ties_concat(front + back, seq![x], q);
        lemma_ties_concat(front, seq![x], q);
        lemma_ties_concat(front + seq![x], back, q);
        if tied(x, q) {
            assert forall|k: int| 0 <= k < back.len() implies !tied(#[trigger] back[k], q) by {
                assert(back[k] == done[j + k]);
                if tied(back[k], q) {
                    T::order_is_transitive(&back[k], &q, &x);
                }
            }
            lemma_ties_none(back, q);
            assert(ties(done.push(x), q) =~= ties(out, q));
        } else {
            lemma_ties_none(seq![x], q);
            assert(ties(done.push(x), q) =~= ties(out, q));
        }
    }
}

proof fn lemma_ties_push<T: Ranked>(a: Seq<T>, b: Seq<T>, x: T)
    requires
        same_ties(a, b),
    ensures
        same_ties(a.push(x), b.push(x)),
{
    assert forall|q: T| q.comparable() implies #[trigger] ties(a.push(x), q) == ties(b.push(x), q) by {
        assert(a.push(x) =~= a + seq![x]);
        assert(b.push(x) =~= b + seq![x]);
        lemma_ties_concat(a, seq![x], q);
        lemma_ties_concat(b, seq![x], q);
        assert(ties(a, q) == ties(b, q));
    }
}

proof fn lemma_insert_multiset<T>(s: Seq<T>, j: int, x: T)
    requires
        0 <= j <= s.len(),
    ensures
        s.insert(j, x).to_multiset() == s.to_multiset().insert(x),
{
    broadcast use vstd::seq_lib::group_to_multiset_ensures;

    let t = s.insert(j, x);
    assert(t.remove(j) =~= s);
    assert(t[j] == x);
    assert(t.contains(x));
    assert(t.to_multiset() =~= t.to_multiset().remove(x).insert(x));
}

/// Sorts `input`, keeping the order of elements that tie.
pub fn sort_stable<T: Ranked>(input: Vec<T>) -> (out: Vec<T>)
    ensures
        is_stable_sort(input@, out@),
{
    broadcast use vstd::seq_lib::group_to_multiset_ensures;

    let ghost orig = input@;
    let mut v = input;
    let n: usize = v.len();
    let mut i: usize = 0;
    assert(v@.skip(0) =~= orig.skip(0));
    assert(v@.take(0) =~= orig.take(0));
    while i < n
        invariant
            i <= n,
            n == orig.len(),
            v@.len() == n,
            v@.skip(i as int) == orig.skip(i as int),
            v@.to_multiset() == orig.to_multiset(),
            all_comparable(orig) ==> all_comparable(v@.take(i as int)) && sorted(v@.take(i as int))
                && same_ties(orig.take(i as int), v@.take(i as int)),
        decreases n - i,
    {
        let ghost before = v@;
        let ghost done = v@.take(i as int);
        let x = v.remove(i);
        assert(x == orig.skip(i as int)[0]);
        let mut j: usize = i;
        let ghost removed = v@;
        assert(removed.take(i as int) =~= done);
        while j > 0 && !v[j - 1].goes_before(&x)
            invariant
                j <= i < n,
                v@ == removed,
                v@.len() == n - 1,
                v@.take(i as int) == done,
                done.len() == i,
                forall|k: int| j <= k < i ==> !(#[trigger] done[k]).before_eq(&x),
            decreases j,
        {
            assert(done[j - 1] == v@[j - 1]);
            j = j - 1;
        }
        assert(j > 0 ==> done[j - 1] == v@[j - 1]);
        v.insert(j, x);
        proof {
            assert(v@.take(i as int + 1) =~= done.insert(j as int, x));
            assert(v@.skip(i as int + 1) =~= orig.skip(i as int + 1)) by {
                let left = v@.skip(i as int + 1);
                let right = orig.skip(i as int + 1);
                assert forall|k: int| 0 <= k < left.len() implies left[k] == right[k] by {
                    assert(v@[i + 1 + k] == removed[i + k]);
                    assert(removed[i + k] == before[i + 1 + k]);
                    assert(before.skip(i as int)[k + 1] == orig.skip(i as int)[k + 1]);
                }
            }
            assert(orig.take(i as int + 1) =~= orig.take(i as int).push(x));
            if all_comparable(orig) {
                assert(x == orig[i as int]);
                lemma_insert(done, x, j as int);
                lemma_ties_push(orig.take(i as int), done, x);
                assert(same_ties(orig.take(i as int + 1), v@.take(i as int + 1))) by {
                    assert forall|q: T| q.comparable() implies #[trigger] ties(
                        orig.take(i as int + 1),
                        q,
                    ) == ties(v@.take(i as int + 1), q) by {
                        assert(ties(orig.take(i as int).push(x), q) == ties(done.push(x), q));
                        assert(ties(done.push(x), q) == ties(done.insert(j as int, x), q));
                    }
                }
            }
            assert(before.to_multiset() =~= v@.to_multiset()) by {
                assert(before =~= removed.insert(i as int, x));
                lemma_insert_multiset(removed, i as int, x);
                lemma_insert_multiset(removed, j as int, x);
            }
        }
        i = i + 1;
    }
    assert(v@.take(n as int) =~= v@);
    assert(orig.take(n as int) =~= orig);
    v
}

/// Two sorted arrangements of the same elements are equal where no two
/// different elements tie.
pub proof fn lemma_sorted_arrangement_is_unique<T: Ranked>(x: Seq<T>, y: Seq<T>)
    requires
        sorted(x),
        sorted(y),
        x.to_multiset() == y.to_multiset(),
        forall|i: int, j: int|
            #![trigger x[i], x[j]]
            0 <= i < x.len() && 0 <= j < x.len() && tied(x[i], x[j]) ==> x[i] == x[j],
    ensures
        x == y,
    decreases x.len(),
{
    broadcast use vstd::seq_lib::group_to_multiset_ensures;

    assert(x.len() == x.to_multiset().len());
    assert(y.len() == y.to_multiset().len());
    if x.len() > 0 {
        assert(x.contains(x[0]));
        assert(y.to_multiset().count(x[0]) > 0);
        assert(y.contains(x[0]));
        let j = choose|j: int| 0 <= j < y.len() && y[j] == x[0];
        assert(y.contains(y[0]));
        assert(x.to_multiset().count(y[0]) > 0);
        assert(x.contains(y[0]));
        let i = choose|i: int| 0 <= i < x.len() && x[i] == y[0];
        assert(y[0].before_eq(&y[j]));
        assert(x[0].before_eq(&x[i]));
        assert(tied(x[0], x[i]));
        assert(x[0] == y[0]);
        let xr = x.remove(0);
        let yr = y.remove(0);
        assert(xr.to_multiset() == yr.to_multiset());
        assert forall|a: int, b: int|
            #![trigger xr[a], xr[b]]
            0 <= a < xr.len() && 0 <= b < xr.len() && tied(xr[a], xr[b]) implies xr[a] == xr[b] by {
            assert(xr[a] == x[a + 1]);
            assert(xr[b] == x[b + 1]);
        }
        assert(sorted(xr)) by {
            assert forall|a: int, b: int|
                #![trigger xr[a], xr[b]]
                0 <= a <= b < xr.len() implies xr[a].before_eq(&xr[b]) by {
                assert(xr[a] == x[a + 1]);
                assert(xr[b] == x[b + 1]);
            }
        }
        assert(sorted(yr)) by {
            assert forall|a: int, b: int|
                #![trigger yr[a], yr[b]]
                0 <= a <= b < yr.len() implies yr[a].before_eq(&yr[b]) by {
                assert(yr[a] == y[a + 1]);
                assert(yr[b] == y[b + 1]);
            }
        }
        lemma_sorted_arrangement_is_unique(xr, yr);
        assert(x =~= seq![x[0]] + xr);
        assert(y =~= seq![y[0]] + yr);
    } else {
        assert(x =~= y);
    }
}

/// There is only one way to put comparable elements in order with ties as they
/// came.
pub proof fn law_stable_sort_is_unique<T: Ranked>(input: Seq<T>, x: Seq<T>, y: Seq<T>)
    requires
        all_comparable(input),
        is_stable_sort(input, x),
        is_stable_sort(input, y),
    ensures
        x == y,
{
    broadcast use vstd::seq_lib::group_to_multiset_ensures;

    assert forall|i: int| 0 <= i < x.len() implies (#[trigger] x[i]).comparable() by {
        assert(x.contains(x[i]));
        assert(input.to_multiset().count(x[i]) > 0);
        assert(input.contains(x[i]));
    }
    assert forall|e: T| e.comparable() implies #[trigger] ties(x, e) == ties(y, e) by {
        assert(ties(input, e) == ties(x, e));
        assert(ties(input, e) == ties(y, e));
    }
    lemma_same_order(x, y);
}

proof fn lemma_same_order<T: Ranked>(x: Seq<T>, y: Seq<T>)
    requires
        all_comparable(x),
        x.to_multiset() == y.to_multiset(),
        x.len() == y.len(),
        sorted(x),
        sorted(y),
        same_ties(x, y),
    ensures
        x == y,
    decreases x.len(),
{
    broadcast use vstd::seq_lib::group_to_multiset_ensures;

    if x.len() == 0 {
        assert(x =~= y);
    } else {
        let a = x.last();
        let b = y.last();
        assert(y.contains(b));
        assert(x.to_multiset().count(b) > 0);
        assert(x.contains(b));
        let i = choose|i: int| 0 <= i < x.len() && x[i] == b;
        assert(x[i].before_eq(&x[x.len() - 1]));
        assert(x.contains(a));
        assert(y.to_multiset().count(a) > 0);
        assert(y.contains(a));
        let j = choose|j: int| 0 <= j < y.len() && y[j] == a;
        assert(y[j].before_eq(&y[y.len() - 1]));
        assert(x[x.len() - 1].before_eq(&x[x.len() - 1]));
        assert(x[x.len() - 1].comparable());
        assert(ties(x, a) == ties(y, a));
        assert(ties(x, a).last() == a);
        assert(ties(y, a).last() == b);
        assert(a == b);
        let xs = x.drop_last();
        let ys = y.drop_last();
        assert(x =~= xs.push(a));
        assert(y =~= ys.push(a));
        assert(xs.to_multiset().insert(a).remove(a) =~= xs.to_multiset());
        assert(ys.to_multiset().insert(a).remove(a) =~= ys.to_multiset());
        assert forall|e: T| e.comparable() implies #[trigger] ties(xs, e) == ties(ys, e) by {
            assert(ties(x, e) == ties(y, e));
            if tied(a, e) {
                assert(ties(x, e).drop_last() =~= ties(xs, e));
                assert(ties(y, e).drop_last() =~= ties(ys, e));
            }
        }
        lemma_same_order(xs, ys);
    }
}

/// What is put in order is neither lost nor made up.
pub proof fn lemma_same_members<T: Ranked>(input: Seq<T>, out: Seq<T>)
    requires
        is_stable_sort(input, out),
    ensures
        forall|i: int| 0 <= i < out.len() ==> input.contains(#[trigger] out[i]),
        forall|i: int| 0 <= i < input.len() ==> out.contains(#[trigger] input[i]),
{
    broadcast use vstd::seq_lib::group_to_multiset_ensures;

    assert forall|i: int| 0 <= i < out.len() implies input.contains(#[trigger] out[i]) by {
        assert(out.contains(out[i]));
        assert(input.to_multiset().count(out[i]) > 0);
    }
    assert forall|i: int| 0 <= i < input.len() implies out.contains(#[trigger] input[i]) by {
        assert(input.contains(input[i]));
        assert(out.to_multiset().count(input[i]) > 0);
    }
}

} // verus!
