//! Stable sorting: what ranks equal keeps its order.
use vstd::prelude::*;

verus! {

/// A type whose values stand in an order in which different values may tie.
pub trait Ranked: Sized {
    /// Whether this value goes before another.
    spec fn ahead(self, other: Self) -> bool;

    proof fn ahead_is_asymmetric(a: Self, b: Self)
        requires
            a.ahead(b),
        ensures
            !b.ahead(a),
    ;

    proof fn ties_are_transitive(a: Self, b: Self, c: Self)
        requires
            !b.ahead(a),
            !c.ahead(b),
        ensures
            !c.ahead(a),
    ;

    fn is_ahead(&self, other: &Self) -> (r: bool)
        ensures
            r == self.ahead(*other),
    ;
}

/// The first place whose item `x` goes before, or the end.
pub open spec fn place_for<T: Ranked>(s: Seq<T>, x: T) -> int
    decreases s.len(),
{
    if s.len() == 0 {
        0
    } else if x.ahead(s[0]) {
        0
    } else {
        1 + place_for(s.drop_first(), x)
    }
}

/// The items in order; items that tie stay in the order they came in.
pub open spec fn ordered<T: Ranked>(s: Seq<T>) -> Seq<T>
    decreases s.len(),
{
    if s.len() == 0 {
        s
    } else {
        let front = ordered(s.drop_last());
        front.insert(place_for(front, s.last()), s.last())
    }
}

/// Whether no item goes before one that stands in front of it.
pub open spec fn in_order<T: Ranked>(s: Seq<T>) -> bool {
    forall|i: int, j: int| 0 <= i < j < s.len() ==> !(#[trigger] s[j]).ahead(#[trigger] s[i])
}

/// The place of an item is the first whose item it goes before.
pub proof fn place_is_first<T: Ranked>(s: Seq<T>, x: T)
    ensures
        0 <= place_for(s, x) <= s.len(),
        forall|i: int| 0 <= i < place_for(s, x) ==> !x.ahead(#[trigger] s[i]),
        place_for(s, x) < s.len() ==> x.ahead(s[place_for(s, x)]),
    decreases s.len(),
{
    if s.len() > 0 && !x.ahead(s[0]) {
        let rest = s.drop_first();
        place_is_first(rest, x);
        assert forall|i: int| 0 <= i < place_for(s, x) implies !x.ahead(#[trigger] s[i]) by {
            if i > 0 {
                assert(rest[i - 1] == s[i]);
            }
        }
        if place_for(s, x) < s.len() {
            assert(rest[place_for(rest, x)] == s[place_for(s, x)]);
        }
    }
}

proof fn place_skips<T: Ranked>(s: Seq<T>, x: T, k: int)
    requires
        0 <= k <= s.len(),
        forall|i: int| 0 <= i < k ==> !x.ahead(#[trigger] s[i]),
        k < s.len() ==> x.ahead(s[k]),
    ensures
        place_for(s, x) == k,
{
    place_is_first(s, x);
    let p = place_for(s, x);
    if p < k {
        assert(!x.ahead(s[p]));
    }
}

/// Ordering keeps the number of items.
pub proof fn ordering_keeps_length<T: Ranked>(s: Seq<T>)
    ensures
        ordered(s).len() == s.len(),
    decreases s.len(),
{
    if s.len() > 0 {
        ordering_keeps_length(s.drop_last());
        place_is_first(ordered(s.drop_last()), s.last());
    }
}

/// Ordering keeps the items.
pub proof fn ordering_keeps_items<T: Ranked>(s: Seq<T>)
    ensures
        ordered(s).to_multiset() == s.to_multiset(),
    decreases s.len(),
{
    broadcast use vstd::seq_lib::group_to_multiset_ensures;

    if s.len() > 0 {
        let before = s.drop_last();
        let front = ordered(before);
        ordering_keeps_items(before);
        place_is_first(front, s.last());
        let at = place_for(front, s.last());
        let all = front.insert(at, s.last());
        assert(all.remove(at) =~= front);
        assert(all.contains(all[at]));
        assert(all.to_multiset() =~= front.to_multiset().insert(s.last()));
        assert(s =~= before.push(s.last()));
    }
}

/// Ordering puts the items in order.
pub proof fn ordering_orders<T: Ranked>(s: Seq<T>)
    ensures
        in_order(ordered(s)),
    decreases s.len(),
{
    if s.len() > 0 {
        ordering_orders(s.drop_last());
        insertion_keeps_order(ordered(s.drop_last()), s.last());
    }
}

/// Items already in order stay as they are.
pub proof fn ordering_is_idempotent<T: Ranked>(s: Seq<T>)
    requires
        in_order(s),
    ensures
        ordered(s) == s,
    decreases s.len(),
{
    if s.len() > 0 {
        let before = s.drop_last();
        assert(in_order(before)) by {
            assert forall|i: int, j: int| 0 <= i < j < before.len() implies !(
            #[trigger] before[j]).ahead(#[trigger] before[i]) by {
                assert(!s[j].ahead(s[i]));
            }
        }
        ordering_is_idempotent(before);
        assert forall|i: int| 0 <= i < before.len() implies !s.last().ahead(
            #[trigger] before[i],
        ) by {
            assert(!s[s.len() - 1].ahead(s[i]));
        }
        place_skips(before, s.last(), before.len() as int);
        assert(before.insert(before.len() as int, s.last()) =~= s);
    }
}

/// Puts an item in its place, behind what it ties with.
pub fn insert_stable<T: Ranked>(items: &mut Vec<T>, x: T)
    ensures
        final(items)@ == old(items)@.insert(place_for(old(items)@, x), x),
{
    let ghost front = items@;
    let mut at: usize = 0;
    while at < items.len() && !x.is_ahead(&items[at])
        invariant
            at <= items.len(),
            items@ == front,
            forall|i: int| 0 <= i < at ==> !x.ahead(#[trigger] front[i]),
        decreases items.len() - at,
    {
        at = at + 1;
    }
    proof {
        place_skips(front, x, at as int);
    }
    items.insert(at, x);
}

/// An item put in its place leaves the items in order.
pub proof fn insertion_keeps_order<T: Ranked>(s: Seq<T>, x: T)
    requires
        in_order(s),
    ensures
        0 <= place_for(s, x) <= s.len(),
        in_order(s.insert(place_for(s, x), x)),
{
    place_is_first(s, x);
    let at = place_for(s, x);
    let all = s.insert(at, x);
    assert forall|i: int, j: int| 0 <= i < j < all.len() implies !(#[trigger] all[j]).ahead(
        #[trigger] all[i],
    ) by {
        if i == at {
            T::ahead_is_asymmetric(x, s[at]);
            if j - 1 > at {
                T::ties_are_transitive(x, s[at], s[j - 1]);
            }
        } else if j == at {
            assert(!x.ahead(s[i]));
        } else {
            let a = if i < at {
                i
            } else {
                i - 1
            };
            let b = if j < at {
                j
            } else {
                j - 1
            };
            assert(!s[b].ahead(s[a]));
        }
    }
}

/// Taking an item out leaves the others in order.
pub proof fn removal_keeps_order<T: Ranked>(s: Seq<T>, at: int)
    requires
        in_order(s),
        0 <= at < s.len(),
    ensures
        in_order(s.remove(at)),
{
    let rest = s.remove(at);
    assert forall|i: int, j: int| 0 <= i < j < rest.len() implies !(#[trigger] rest[j]).ahead(
        #[trigger] rest[i],
    ) by {
        let a = if i < at {
            i
        } else {
            i + 1
        };
        let b = if j < at {
            j
        } else {
            j + 1
        };
        assert(!s[b].ahead(s[a]));
    }
}

/// Sorts, keeping the order of what ties.
pub fn sort_stable<T: Ranked>(items: Vec<T>) -> (r: Vec<T>)
    ensures
        r@ == ordered(items@),
{
    let ghost given = items@;
    let mut rest: Vec<T> = items;
    let mut out: Vec<T> = Vec::new();
    let n: usize = rest.len();
    let mut done: usize = 0;
    proof {
        assert(given.take(0) =~= Seq::empty());
        assert(given.skip(0) =~= given);
    }
    while done < n
        invariant
            done <= n,
            n == given.len(),
            rest@ == given.skip(done as int),
            out@ == ordered(given.take(done as int)),
        decreases n - done,
    {
        let x: T = rest.remove(0);
        proof {
            assert(given.take(done + 1).drop_last() =~= given.take(done as int));
            assert(given.take(done + 1).last() == x);
            assert(rest@ =~= given.skip(done + 1));
        }
        insert_stable(&mut out, x);
        done = done + 1;
    }
    proof {
        assert(given.take(n as int) =~= given);
    }
    out
}

/// Two orders of the same items agree where no two different items tie.
pub proof fn orders_agree<T: Ranked>(a: Seq<T>, b: Seq<T>)
    requires
        in_order(a),
        in_order(b),
        a.to_multiset() == b.to_multiset(),
        forall|x: T, y: T|
            a.contains(x) && a.contains(y) && !#[trigger] x.ahead(y) && !y.ahead(x) ==> x == y,
    ensures
        a == b,
    decreases a.len(),
{
    broadcast use vstd::seq_lib::group_to_multiset_ensures;

    assert(a.len() == a.to_multiset().len());
    assert(b.len() == b.to_multiset().len());
    if a.len() > 0 {
        let x = a[0];
        let y = b[0];
        assert(a.contains(x));
        assert(b.contains(y));
        assert(b.to_multiset().count(y) > 0);
        assert(a.contains(y));
        assert(a.to_multiset().count(x) > 0);
        assert(b.contains(x));
        let i = choose|i: int| 0 <= i < a.len() && a[i] == y;
        let j = choose|j: int| 0 <= j < b.len() && b[j] == x;
        if x != y {
            assert(!a[i].ahead(a[0]));
            assert(!b[j].ahead(b[0]));
        }
        removal_keeps_order(a, 0);
        removal_keeps_order(b, 0);
        let c = a.remove(0);
        assert forall|p: T, q: T|
            c.contains(p) && c.contains(q) && !#[trigger] p.ahead(q) && !q.ahead(p) implies p
            == q by {
            let m = choose|m: int| 0 <= m < c.len() && c[m] == p;
            let n = choose|n: int| 0 <= n < c.len() && c[n] == q;
            assert(a[m + 1] == p);
            assert(a[n + 1] == q);
        }
        orders_agree(c, b.remove(0));
        assert(a =~= c.insert(0, x));
        assert(b =~= b.remove(0).insert(0, x));
    } else {
        assert(a =~= b);
    }
}

impl Ranked for u32 {
    open spec fn ahead(self, other: u32) -> bool {
        self < other
    }

    proof fn ahead_is_asymmetric(a: u32, b: u32) {
    }

    proof fn ties_are_transitive(a: u32, b: u32, c: u32) {
    }

    fn is_ahead(&self, other: &u32) -> (r: bool) {
        *self < *other
    }
}

/// Whether neither of two items goes before the other.
pub open spec fn ties<T: Ranked>(a: T, b: T) -> bool {
    !a.ahead(b) && !b.ahead(a)
}

/// Items that tie come out of ordering in the order in which they went in.
pub proof fn ties_keep_their_order<T: Ranked>(s: Seq<T>, x: T)
    ensures
        ordered(s).filter(|y: T| ties(x, y)) == s.filter(|y: T| ties(x, y)),
    decreases s.len(),
{
    let tied = |y: T| ties(x, y);
    if s.len() > 0 {
        let before = s.drop_last();
        let last = s.last();
        let front = ordered(before);
        ties_keep_their_order(before, x);
        ordering_orders(before);
        place_is_first(front, last);
        let p = place_for(front, last);
        let low = front.take(p);
        let high = front.skip(p);
        assert(front =~= low + high);
        assert(ordered(s) =~= low + (seq![last] + high));
        assert(s =~= before + seq![last]);
        Seq::filter_distributes_over_add(low, high, tied);
        Seq::filter_distributes_over_add(low, seq![last] + high, tied);
        Seq::filter_distributes_over_add(seq![last], high, tied);
        Seq::filter_distributes_over_add(before, seq![last], tied);
        reveal_with_fuel(Seq::filter, 2);
        assert(seq![last].drop_last() =~= Seq::empty());
        if tied(last) {
            assert forall|k: int| 0 <= k < high.len() implies !tied(#[trigger] high[k]) by {
                assert(high[k] == front[p + k]);
                if ties(x, high[k]) {
                    T::ties_are_transitive(high[k], x, last);
                    if k > 0 {
                        T::ties_are_transitive(front[p], front[p + k], last);
                    }
                }
            }
            nothing_passes(high, tied);
            assert(seq![last].filter(tied) + high.filter(tied) =~= seq![last].filter(tied));
            assert(low.filter(tied) + high.filter(tied) =~= low.filter(tied));
        } else {
            assert(seq![last].filter(tied) =~= Seq::empty());
            assert(seq![last].filter(tied) + high.filter(tied) =~= high.filter(tied));
            assert(before.filter(tied) + seq![last].filter(tied) =~= before.filter(tied));
        }
    } else {
        assert(ordered(s) == s);
    }
}

proof fn nothing_passes<T>(s: Seq<T>, pass: spec_fn(T) -> bool)
    requires
        forall|k: int| 0 <= k < s.len() ==> !pass(#[trigger] s[k]),
    ensures
        s.filter(pass) == Seq::<T>::empty(),
    decreases s.len(),
{
    reveal(Seq::filter);
    if s.len() > 0 {
        let rest = s.drop_last();
        assert forall|k: int| 0 <= k < rest.len() implies !pass(#[trigger] rest[k]) by {
            assert(rest[k] == s[k]);
        }
        nothing_passes(rest, pass);
        assert(!pass(s[s.len() - 1]));
    }
}

} // verus!
