//! Stable sorting.
use vstd::prelude::*;

verus! {

/// Items that can be put in order. Items of which neither is ahead of the other share a place.
pub trait Ranked: Sized {
    /// Whether this item belongs before `other`.
    spec fn ahead(self, other: Self) -> bool;

    /// The places form a line.
    proof fn places_form_a_line(a: Self, b: Self, c: Self)
        ensures
            !a.ahead(a),
            a.ahead(b) && b.ahead(c) ==> a.ahead(c),
            a.ahead(b) ==> a.ahead(c) || c.ahead(b),
    ;

    /// Whether this item belongs before `other`.
    fn is_ahead(&self, other: &Self) -> (b: bool)
        ensures
            b == self.ahead(*other),
    ;
}

/// Whether no item of `s` is ahead of one before it.
pub open spec fn ordered<T: Ranked>(s: Seq<T>) -> bool {
    forall|i: int, j: int| 0 <= i < j < s.len() ==> !(#[trigger] s[j]).ahead(#[trigger] s[i])
}

/// Whether two items share a place.
pub open spec fn level<T: Ranked>(a: T, b: T) -> bool {
    !a.ahead(b) && !b.ahead(a)
}

/// The items of `s` that share the place of `x`, in the order in which they stand.
pub open spec fn group<T: Ranked>(s: Seq<T>, x: T) -> Seq<T>
    decreases s.len(),
{
    if s.len() == 0 {
        Seq::empty()
    } else if level(s.last(), x) {
        group(s.drop_last(), x).push(s.last())
    } else {
        group(s.drop_last(), x)
    }
}

/// `s`, which is in order, with `x` behind all the items that `x` is not ahead of.
pub open spec fn insert_behind<T: Ranked>(s: Seq<T>, x: T) -> Seq<T>
    decreases s.len(),
{
    if s.len() == 0 || !x.ahead(s.last()) {
        s.push(x)
    } else {
        insert_behind(s.drop_last(), x).push(s.last())
    }
}

/// The items of `s` in order. Items that share a place stay in the order in which they came.
pub open spec fn in_order<T: Ranked>(s: Seq<T>) -> Seq<T>
    decreases s.len(),
{
    if s.len() == 0 {
        s
    } else {
        insert_behind(in_order(s.drop_last()), s.last())
    }
}

proof fn lemma_group_add<T: Ranked>(a: Seq<T>, b: Seq<T>, x: T)
    ensures
        group(a + b, x) == group(a, x) + group(b, x),
    decreases b.len(),
{
    if b.len() == 0 {
        assert(a + b =~= a);
        assert(group(a, x) + group(b, x) =~= group(a, x));
    } else {
        lemma_group_add(a, b.drop_last(), x);
        assert((a + b).drop_last() =~= a + b.drop_last());
        assert(group(a + b, x) =~= group(a, x) + group(b, x));
    }
}

proof fn lemma_group_one<T: Ranked>(y: T, x: T)
    ensures
        group(seq![y], x) == (if level(y, x) { seq![y] } else { Seq::empty() }),
{
    assert(seq![y].drop_last() =~= Seq::empty());
    assert(group(Seq::<T>::empty(), x) =~= Seq::empty());
    assert(group(seq![y], x) =~= (if level(y, x) { seq![y] } else { Seq::empty() }));
}

/// A group has the items that share the place, and no others.
proof fn lemma_group_has<T: Ranked>(s: Seq<T>, x: T, y: T)
    ensures
        group(s, x).contains(y) <==> s.contains(y) && level(y, x),
    decreases s.len(),
{
    if s.len() > 0 {
        lemma_group_has(s.drop_last(), x, y);
        let g = group(s, x);
        let rest = s.drop_last();
        if s.contains(y) && level(y, x) {
            let i = choose|i: int| 0 <= i < s.len() && s[i] == y;
            if i < s.len() - 1 {
                assert(rest[i] == y);
                assert(group(rest, x).contains(y));
                let k = choose|k: int| 0 <= k < group(rest, x).len() && group(rest, x)[k] == y;
                assert(g[k] == y);
            } else {
                assert(g[g.len() - 1] == y);
            }
        }
        if g.contains(y) {
            let k = choose|k: int| 0 <= k < g.len() && g[k] == y;
            if k < group(rest, x).len() {
                assert(group(rest, x)[k] == y);
                assert(rest.contains(y));
                let i = choose|i: int| 0 <= i < rest.len() && rest[i] == y;
                assert(s[i] == y);
            } else {
                assert(s[s.len() - 1] == y);
            }
        }
    }
}

proof fn lemma_insert_behind<T: Ranked>(s: Seq<T>, x: T)
    requires
        ordered(s),
    ensures
        ordered(insert_behind(s, x)),
        insert_behind(s, x).to_multiset() == s.push(x).to_multiset(),
        forall|y: T| #[trigger] group(insert_behind(s, x), y) == group(s.push(x), y),
        insert_behind(s, x).len() == s.len() + 1,
    decreases s.len(),
{
    broadcast use vstd::seq_lib::group_to_multiset_ensures;

    if s.len() == 0 || !x.ahead(s.last()) {
        let r = s.push(x);
        assert forall|i: int, j: int| 0 <= i < j < r.len() implies !(#[trigger] r[j]).ahead(
            #[trigger] r[i],
        ) by {
            if j == s.len() {
                T::places_form_a_line(x, s[i], s.last());
            }
        }
    } else {
        let rest = s.drop_last();
        let last = s.last();
        lemma_insert_behind(rest, x);
        let inner = insert_behind(rest, x);
        let r = inner.push(last);
        assert(s =~= rest.push(last));
        assert(rest.push(last).to_multiset() =~= rest.to_multiset().insert(last));
        assert(r.to_multiset() =~= s.push(x).to_multiset());
        assert forall|i: int, j: int| 0 <= i < j < r.len() implies !(#[trigger] r[j]).ahead(
            #[trigger] r[i],
        ) by {
            if j == inner.len() {
                assert(inner.to_multiset().count(inner[i]) > 0) by {
                    assert(inner.contains(inner[i]));
                }
                assert(rest.push(x).contains(inner[i]));
                let k = choose|k: int| 0 <= k < rest.push(x).len() && rest.push(x)[k] == inner[i];
                if k < rest.len() {
                    assert(s[k] == inner[i]);
                } else {
                    T::places_form_a_line(x, last, x);
                    T::places_form_a_line(last, x, last);
                }
            }
        }
        assert forall|y: T| #[trigger] group(insert_behind(s, x), y) == group(s.push(x), y) by {
            assert(insert_behind(s, x) == r);
            assert(r.last() == last && r.drop_last() =~= inner);
            assert(s.push(x).last() == x && s.push(x).drop_last() =~= s);
            assert(rest.push(x).last() == x);
            assert(rest.push(x).drop_last() =~= rest);
            assert(group(inner, y) == group(rest.push(x), y));
            T::places_form_a_line(x, last, y);
            T::places_form_a_line(x, y, last);
            T::places_form_a_line(x, last, x);
            let base = group(rest, y);
            assert(group(s, y) == (if level(last, y) { base.push(last) } else { base }));
            assert(group(inner, y) == (if level(x, y) { base.push(x) } else { base }));
            assert(group(r, y) =~= group(s.push(x), y));
        }
    }
}

/// Putting items in order leaves no item ahead of one before it, keeps each item as often as it
/// occurs, and keeps the items that share a place in the order in which they came.
pub proof fn in_order_is_a_stable_sort<T: Ranked>(s: Seq<T>)
    ensures
        ordered(in_order(s)),
        in_order(s).len() == s.len(),
        in_order(s).to_multiset() == s.to_multiset(),
        forall|x: T| #[trigger] group(in_order(s), x) == group(s, x),
    decreases s.len(),
{
    broadcast use vstd::seq_lib::group_to_multiset_ensures;

    if s.len() > 0 {
        let rest = s.drop_last();
        in_order_is_a_stable_sort(rest);
        lemma_insert_behind(in_order(rest), s.last());
        assert(s =~= rest.push(s.last()));
        assert(in_order(s).to_multiset() =~= s.to_multiset());
        assert forall|x: T| #[trigger] group(in_order(s), x) == group(s, x) by {
            assert(in_order(rest).push(s.last()).drop_last() =~= in_order(rest));
            assert(group(in_order(rest), x) == group(rest, x));
        }
    }
}

/// Two arrangements that are in order and agree on each group are the same.
proof fn lemma_order_is_unique<T: Ranked>(a: Seq<T>, b: Seq<T>)
    requires
        ordered(a),
        ordered(b),
        forall|x: T| #[trigger] group(a, x) == group(b, x),
    ensures
        a == b,
    decreases a.len(),
{
    if a.len() == 0 {
        if b.len() > 0 {
            T::places_form_a_line(b.last(), b.last(), b.last());
            assert(group(b, b.last()).len() > 0);
            assert(group(a, b.last()) == group(b, b.last()));
        }
        assert(a =~= b);
    } else {
        let x = a.last();
        T::places_form_a_line(x, x, x);
        assert(group(a, x) == group(b, x));
        lemma_group_has(a, x, x);
        lemma_group_has(b, x, x);
        assert(a[a.len() - 1] == x);
        assert(b.contains(x));
        let i = choose|i: int| 0 <= i < b.len() && b[i] == x;
        let y = b.last();
        T::places_form_a_line(y, y, y);
        assert(group(a, y) == group(b, y));
        lemma_group_has(a, y, y);
        lemma_group_has(b, y, y);
        assert(b[b.len() - 1] == y);
        assert(a.contains(y));
        let j = choose|j: int| 0 <= j < a.len() && a[j] == y;
        assert(!y.ahead(x)) by {
            if i < b.len() - 1 {
                assert(!b[b.len() - 1].ahead(b[i]));
            }
        }
        assert(!x.ahead(y)) by {
            if j < a.len() - 1 {
                assert(!a[a.len() - 1].ahead(a[j]));
            }
        }
        assert(group(a, x).last() == x);
        assert(group(b, x).last() == y);
        let ra = a.drop_last();
        let rb = b.drop_last();
        assert forall|z: T| #[trigger] group(ra, z) == group(rb, z) by {
            assert(group(a, z) == group(b, z));
            if level(x, z) {
                assert(group(a, z).drop_last() =~= group(ra, z));
                assert(group(b, z).drop_last() =~= group(rb, z));
            }
        }
        lemma_order_is_unique(ra, rb);
        assert(a =~= ra.push(x));
        assert(b =~= rb.push(y));
    }
}

/// Merges two arrangements that are in order. At one place the items of `left` come first.
fn merge<T: Ranked>(left: Vec<T>, right: Vec<T>) -> (out: Vec<T>)
    requires
        ordered(left@),
        ordered(right@),
    ensures
        ordered(out@),
        forall|x: T| #[trigger] group(out@, x) == group(left@ + right@, x),
{
    let mut left = left;
    let mut right = right;
    let mut reversed: Vec<T> = Vec::new();
    let ghost whole = left@ + right@;
    let ghost tail: Seq<T> = Seq::empty();
    proof {
        assert(left@ + tail =~= left@);
        assert(right@ + tail =~= right@);
        assert forall|x: T| #[trigger] group(whole, x) == group(left@, x) + group(right@, x) + group(tail, x) by {
            lemma_group_add(left@, right@, x);
            assert(group(left@, x) + group(right@, x) + group(tail, x) =~= group(left@, x) + group(right@, x));
        }
    }
    while left.len() > 0 || right.len() > 0
        invariant
            ordered(left@ + tail),
            ordered(right@ + tail),
            reversed@.reverse() =~= tail,
            forall|x: T| #[trigger] group(whole, x) == group(left@, x) + group(right@, x) + group(tail, x),
        decreases left.len() + right.len(),
    {
        let take_left: bool = if right.len() == 0 {
            true
        } else if left.len() == 0 {
            false
        } else {
            right[right.len() - 1].is_ahead(&left[left.len() - 1])
        };
        let ghost l0 = left@;
        let ghost r0 = right@;
        let ghost t0 = tail;
        let item: T;
        if take_left {
            item = left.pop().unwrap();
            proof {
                tail = seq![item] + t0;
                assert(left@ + tail =~= l0 + t0);
                T::places_form_a_line(item, r0.last(), item);
                lemma_taken(r0, t0, item, l0);
            }
        } else {
            item = right.pop().unwrap();
            proof {
                tail = seq![item] + t0;
                assert(right@ + tail =~= r0 + t0);
                lemma_taken(l0, t0, item, r0);
            }
        }
        reversed.push(item);
        assert(reversed@.reverse() =~= tail);
        proof {
            assert forall|x: T| #[trigger] group(whole, x) == group(left@, x) + group(right@, x) + group(tail, x) by {
                assert(group(whole, x) == group(l0, x) + group(r0, x) + group(t0, x));
                lemma_group_add(seq![item], t0, x);
                lemma_group_one(item, x);
                if take_left && level(item, x) {
                    lemma_ordered_front(r0, t0);
                    lemma_no_group_behind(r0, l0.last(), x);
                }
                assert(group(left@, x) + group(right@, x) + group(tail, x) =~= group(l0, x) + group(r0, x) + group(t0, x));
            }
        }
    }
    let mut out: Vec<T> = Vec::new();
    proof {
        assert forall|x: T| #[trigger] group(whole, x) == group(tail, x) by {
            assert(group(whole, x) == group(left@, x) + group(right@, x) + group(tail, x));
            assert(group(left@, x) + group(right@, x) + group(tail, x) =~= group(tail, x));
        }
        assert(left@ + tail =~= tail);
    }
    while reversed.len() > 0
        invariant
            out@ + reversed@.reverse() =~= tail,
        decreases reversed.len(),
    {
        let ghost before = reversed@;
        let item: T = reversed.pop().unwrap();
        assert(before.reverse() =~= seq![item] + reversed@.reverse());
        out.push(item);
    }
    assert(out@ =~= tail);
    out
}

/// The rest of the other arrangement stays in order before the item that was taken.
proof fn lemma_taken<T: Ranked>(other: Seq<T>, tail: Seq<T>, item: T, from: Seq<T>)
    requires
        from.len() > 0,
        from.last() == item,
        ordered(from + tail),
        ordered(other + tail),
        other.len() > 0 ==> !item.ahead(other.last()),
    ensures
        ordered(other + (seq![item] + tail)),
{
    let r = other + (seq![item] + tail);
    assert forall|i: int, j: int| 0 <= i < j < r.len() implies !(#[trigger] r[j]).ahead(
        #[trigger] r[i],
    ) by {
        let n = other.len() as int;
        let whole = other + tail;
        let mine = from + tail;
        if j < n {
            assert(whole[i] == r[i] && whole[j] == r[j]);
        } else if j == n {
            assert(whole[i] == r[i]);
            assert(whole[n - 1] == other.last());
            T::places_form_a_line(item, r[i], other.last());
            if i < n - 1 {
                assert(!whole[n - 1].ahead(whole[i]));
            }
        } else {
            assert(whole[j - 1] == r[j]);
            assert(mine[from.len() + j - n - 1] == r[j]);
            if i < n {
                assert(whole[i] == r[i]);
            } else if i == n {
                assert(mine[from.len() - 1] == item);
            } else {
                assert(whole[i - 1] == r[i]);
            }
        }
    }
}

proof fn lemma_ordered_front<T: Ranked>(a: Seq<T>, b: Seq<T>)
    requires
        ordered(a + b),
    ensures
        ordered(a),
{
    assert forall|i: int, j: int| 0 <= i < j < a.len() implies !(#[trigger] a[j]).ahead(
        #[trigger] a[i],
    ) by {
        assert((a + b)[i] == a[i] && (a + b)[j] == a[j]);
    }
}

/// Nothing that ends before `item` shares its place.
proof fn lemma_no_group_behind<T: Ranked>(s: Seq<T>, item: T, x: T)
    requires
        ordered(s),
        s.len() > 0 ==> s.last().ahead(item),
        level(item, x),
    ensures
        group(s, x) == Seq::<T>::empty(),
{
    if group(s, x).len() > 0 {
        let y = group(s, x)[0];
        assert(group(s, x).contains(y));
        lemma_group_has(s, x, y);
        let k = choose|k: int| 0 <= k < s.len() && s[k] == y;
        T::places_form_a_line(s.last(), item, y);
        T::places_form_a_line(y, item, x);
        T::places_form_a_line(x, item, y);
        if k < s.len() - 1 {
            assert(!s[s.len() - 1].ahead(s[k]));
        }
    }
    assert(group(s, x) =~= Seq::<T>::empty());
}

/// Puts items in order. Items that share a place stay in the order in which they came.
pub fn sort<T: Ranked>(items: Vec<T>) -> (out: Vec<T>)
    ensures
        out@ == in_order(items@),
    decreases items.len(),
{
    let ghost whole = items@;
    proof {
        in_order_is_a_stable_sort(whole);
    }
    if items.len() < 2 {
        proof {
            if items.len() == 1 {
                assert(items@.drop_last() =~= Seq::empty());
                assert(in_order(items@.drop_last()) =~= Seq::empty());
                assert(in_order(items@) =~= items@);
            }
        }
        items
    } else {
        let mut left = items;
        let middle: usize = left.len() / 2;
        let right: Vec<T> = left.split_off(middle);
        assert(left@ + right@ =~= whole);
        let ghost l0 = left@;
        let ghost r0 = right@;
        let left: Vec<T> = sort(left);
        let right: Vec<T> = sort(right);
        proof {
            in_order_is_a_stable_sort(l0);
            in_order_is_a_stable_sort(r0);
        }
        let out: Vec<T> = merge(left, right);
        proof {
            assert forall|x: T| #[trigger] group(out@, x) == group(in_order(whole), x) by {
                lemma_group_add(left@, right@, x);
                lemma_group_add(l0, r0, x);
                assert(group(in_order(l0), x) == group(l0, x));
                assert(group(in_order(r0), x) == group(r0, x));
                assert(group(in_order(whole), x) == group(whole, x));
                assert(group(out@, x) == group(left@ + right@, x));
            }
            lemma_order_is_unique(out@, in_order(whole));
        }
        out
    }
}

} // verus!
