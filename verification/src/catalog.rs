//! A table of values addressed by text keys and walked in key order.
use vstd::prelude::*;

use crate::text;
use crate::text::{placing, Placing};

verus! {

/// Values by key. Keys occur once and stand in ascending order.
pub struct Catalog<V> {
    keys: Vec<String>,
    values: Vec<V>,
}

/// Whether the keys stand in strictly ascending order.
pub open spec fn ascending(keys: Seq<Seq<char>>) -> bool {
    forall|i: int, j: int|
        0 <= i < j < keys.len() ==> text::precedes(#[trigger] keys[i], #[trigger] keys[j])
}

/// Index of `key` in `keys`, meaningful where it occurs.
pub open spec fn index_in(keys: Seq<Seq<char>>, key: Seq<char>) -> int {
    choose|i: int| 0 <= i < keys.len() && #[trigger] keys[i] == key
}

/// The map that keys and values at equal positions spell out.
pub open spec fn paired<V>(keys: Seq<Seq<char>>, values: Seq<V>) -> Map<Seq<char>, V> {
    Map::new(|k: Seq<char>| keys.contains(k), |k: Seq<char>| values[index_in(keys, k)])
}

impl<V> Catalog<V> {
    /// The keys in order.
    pub closed spec fn key_seq(&self) -> Seq<Seq<char>> {
        self.keys@.map_values(|s: String| s@)
    }

    /// The values in the order of their keys.
    pub closed spec fn value_seq(&self) -> Seq<V> {
        self.values@
    }

    /// Keys are in ascending order, one for each value.
    pub open spec fn wf(&self) -> bool {
        &&& ascending(self.key_seq())
        &&& self.key_seq().len() == self.value_seq().len()
    }

    pub fn new() -> (r: Catalog<V>)
        ensures
            r.wf(),
            r.key_seq() == Seq::<Seq<char>>::empty(),
            r.value_seq() == Seq::<V>::empty(),
            r@ == Map::<Seq<char>, V>::empty(),
    {
        let r = Catalog { keys: Vec::new(), values: Vec::new() };
        proof {
            assert(r.key_seq() =~= Seq::empty());
            assert(r@ =~= Map::empty());
        }
        r
    }

    pub fn len(&self) -> (r: usize)
        requires
            self.wf(),
        ensures
            r == self.value_seq().len(),
            r == self.key_seq().len(),
    {
        self.values.len()
    }

    pub fn is_empty(&self) -> (r: bool)
        requires
            self.wf(),
        ensures
            r == (self.value_seq().len() == 0),
    {
        self.values.len() == 0
    }

    /// The key at a position.
    pub fn key_at(&self, index: usize) -> (r: &String)
        requires
            self.wf(),
            index < self.key_seq().len(),
        ensures
            r@ == self.key_seq()[index as int],
    {
        &self.keys[index]
    }

    /// The value at a position.
    pub fn value_at(&self, index: usize) -> (r: &V)
        requires
            self.wf(),
            index < self.value_seq().len(),
        ensures
            *r == self.value_seq()[index as int],
    {
        &self.values[index]
    }

    /// Position of the first key that is not before `key`.
    fn lower_bound(&self, key: &str) -> (r: usize)
        requires
            self.wf(),
        ensures
            r <= self.key_seq().len(),
            forall|i: int| 0 <= i < r ==> text::precedes(#[trigger] self.key_seq()[i], key@),
            forall|i: int|
                r <= i < self.key_seq().len() ==> !text::precedes(
                    #[trigger] self.key_seq()[i],
                    key@,
                ),
    {
        let mut i: usize = 0;
        while i < self.keys.len()
            invariant
                self.wf(),
                i <= self.keys.len(),
                self.key_seq().len() == self.keys.len(),
                forall|j: int| 0 <= j < i ==> text::precedes(#[trigger] self.key_seq()[j], key@),
            decreases self.keys.len() - i,
        {
            assert(self.key_seq()[i as int] == self.keys[i as int]@);
            match placing(self.keys[i].as_str(), key) {
                Placing::Before => {},
                _ => {
                    proof {
                        assert forall|j: int| i <= j < self.key_seq().len() implies !text::precedes(
                            #[trigger] self.key_seq()[j],
                            key@,
                        ) by {
                            if j > i && text::precedes(self.key_seq()[j], key@) {
                                text::precedes_transitive(
                                    self.key_seq()[i as int],
                                    self.key_seq()[j],
                                    key@,
                                );
                            }
                        }
                    }
                    return i;
                },
            }
            i = i + 1;
        }
        i
    }

    /// The value of a key.
    pub fn get(&self, key: &str) -> (r: Option<&V>)
        requires
            self.wf(),
        ensures
            r is Some <==> self@.dom().contains(key@),
            r matches Some(v) ==> *v == self@[key@],
    {
        let at: usize = self.lower_bound(key);
        if at < self.keys.len() {
            assert(self.key_seq()[at as int] == self.keys[at as int]@);
            if let Placing::Same = placing(self.keys[at].as_str(), key) {
                proof {
                    key_found(self.key_seq(), at as int, key@);
                }
                return Some(&self.values[at]);
            }
        }
        proof {
            key_missing(self.key_seq(), at as int, key@);
        }
        None
    }

    pub fn contains_key(&self, key: &str) -> (r: bool)
        requires
            self.wf(),
        ensures
            r == self@.dom().contains(key@),
    {
        match self.get(key) {
            Some(_) => true,
            None => false,
        }
    }

    /// Gives `key` the value; an earlier value of the same key is replaced and
    /// handed back.
    pub fn insert(&mut self, key: String, value: V) -> (r: Option<V>)
        requires
            old(self).wf(),
        ensures
            final(self).wf(),
            final(self)@ == old(self)@.insert(key@, value),
            r is Some <==> old(self)@.dom().contains(key@),
            r matches Some(v) ==> v == old(self)@[key@],
            old(self)@.dom().contains(key@) ==> final(self).key_seq() == old(self).key_seq()
                && final(self).value_seq() == old(self).value_seq().update(
                index_in(old(self).key_seq(), key@),
                value,
            ),
            !old(self)@.dom().contains(key@) ==> exists|at: int|
                0 <= at <= old(self).key_seq().len() && final(self).key_seq()
                    == #[trigger] old(self).key_seq().insert(at, key@) && final(self).value_seq()
                    == old(self).value_seq().insert(at, value),
    {
        let at: usize = self.lower_bound(key.as_str());
        let ghost before = self.key_seq();
        let ghost values = self.value_seq();
        if at < self.keys.len() {
            assert(before[at as int] == self.keys[at as int]@);
            if let Placing::Same = placing(self.keys[at].as_str(), key.as_str()) {
                proof {
                    key_found(before, at as int, key@);
                }
                let mut value = value;
                self.values.set_and_swap(at, &mut value);
                proof {
                    assert(self.key_seq() =~= before);
                    update_is_insert(before, values, at as int, key@, self.values@[at as int]);
                }
                return Some(value);
            }
        }
        proof {
            key_missing(before, at as int, key@);
        }
        let ghost key_text = key@;
        self.keys.insert(at, key);
        self.values.insert(at, value);
        proof {
            assert(self.key_seq() =~= before.insert(at as int, key_text));
            if at < before.len() {
                text::precedes_total(before[at as int], key_text);
            }
            insert_is_insert(before, values, at as int, key_text, value);
        }
        None
    }

    /// Takes a key out and hands its value back.
    pub fn remove(&mut self, key: &str) -> (r: Option<V>)
        requires
            old(self).wf(),
        ensures
            final(self).wf(),
            final(self)@ == old(self)@.remove(key@),
            r is Some <==> old(self)@.dom().contains(key@),
            r matches Some(v) ==> v == old(self)@[key@],
            !old(self)@.dom().contains(key@) ==> *final(self) == *old(self),
            old(self)@.dom().contains(key@) ==> final(self).key_seq() == old(self).key_seq().remove(
                index_in(old(self).key_seq(), key@),
            ) && final(self).value_seq() == old(self).value_seq().remove(
                index_in(old(self).key_seq(), key@),
            ),
    {
        let at: usize = self.lower_bound(key);
        let ghost before = self.key_seq();
        let ghost values = self.value_seq();
        if at < self.keys.len() {
            assert(before[at as int] == self.keys[at as int]@);
            if let Placing::Same = placing(self.keys[at].as_str(), key) {
                proof {
                    key_found(before, at as int, key@);
                }
                let gone = self.keys.remove(at);
                let value = self.values.remove(at);
                proof {
                    assert(self.key_seq() =~= before.remove(at as int));
                    remove_is_remove(before, values, at as int, key@);
                }
                return Some(value);
            }
        }
        proof {
            key_missing(before, at as int, key@);
            assert(self@ =~= self@.remove(key@));
        }
        None
    }
}

impl<V> View for Catalog<V> {
    type V = Map<Seq<char>, V>;

    open spec fn view(&self) -> Map<Seq<char>, V> {
        paired(self.key_seq(), self.value_seq())
    }
}

/// In ascending keys a key has one index.
pub proof fn key_found(keys: Seq<Seq<char>>, at: int, key: Seq<char>)
    requires
        ascending(keys),
        0 <= at < keys.len(),
        keys[at] == key,
    ensures
        keys.contains(key),
        index_in(keys, key) == at,
{
    let i = index_in(keys, key);
    assert(keys[at] == key);
    assert(0 <= i < keys.len() && keys[i] == key);
    text::precedes_irreflexive(key);
}

/// Ascending keys are told by what they hold.
pub proof fn ascending_lists_agree(a: Seq<Seq<char>>, b: Seq<Seq<char>>)
    requires
        ascending(a),
        ascending(b),
        forall|k: Seq<char>| #[trigger] a.contains(k) <==> b.contains(k),
    ensures
        a == b,
    decreases a.len(),
{
    if a.len() == 0 {
        if b.len() > 0 {
            assert(b.contains(b[0]));
            assert(a.contains(b[0]));
        }
        assert(a =~= b);
    } else {
        let x = a.last();
        assert(a.contains(x));
        assert(b.contains(x));
        let y = b.last();
        assert(b.contains(y));
        assert(a.contains(y));
        let j = choose|j: int| 0 <= j < b.len() && b[j] == x;
        let i = choose|i: int| 0 <= i < a.len() && a[i] == y;
        if x != y {
            assert(text::precedes(b[j], b[b.len() - 1]));
            assert(text::precedes(a[i], a[a.len() - 1]));
            text::precedes_asymmetric(x, y);
        }
        let p = a.drop_last();
        let q = b.drop_last();
        assert forall|k: Seq<char>| #[trigger] p.contains(k) <==> q.contains(k) by {
            shortened(a, k);
            shortened(b, k);
        }
        ascending_lists_agree(p, q);
        assert(a =~= p.push(x));
        assert(b =~= q.push(y));
    }
}

/// Ascending keys without the last hold the others.
proof fn shortened(keys: Seq<Seq<char>>, key: Seq<char>)
    requires
        ascending(keys),
        keys.len() > 0,
    ensures
        keys.drop_last().contains(key) <==> keys.contains(key) && key != keys.last(),
{
    let front = keys.drop_last();
    if front.contains(key) {
        let i = choose|i: int| 0 <= i < front.len() && front[i] == key;
        assert(keys[i] == key);
        assert(text::precedes(keys[i], keys[keys.len() - 1]));
        text::precedes_irreflexive(key);
    }
    if keys.contains(key) && key != keys.last() {
        let i = choose|i: int| 0 <= i < keys.len() && keys[i] == key;
        assert(front[i] == key);
    }
}

proof fn key_missing(keys: Seq<Seq<char>>, at: int, key: Seq<char>)
    requires
        ascending(keys),
        0 <= at <= keys.len(),
        forall|i: int| 0 <= i < at ==> text::precedes(#[trigger] keys[i], key),
        at < keys.len() ==> !text::precedes(keys[at], key) && keys[at] != key,
    ensures
        !keys.contains(key),
{
    if keys.contains(key) {
        let i = choose|i: int| 0 <= i < keys.len() && #[trigger] keys[i] == key;
        text::precedes_irreflexive(key);
        if i > at {
            text::precedes_total(keys[at], key);
            text::precedes_transitive(keys[at], keys[i], keys[at]);
        }
    }
}

proof fn update_is_insert<V>(
    keys: Seq<Seq<char>>,
    values: Seq<V>,
    at: int,
    key: Seq<char>,
    value: V,
)
    requires
        ascending(keys),
        keys.len() == values.len(),
        0 <= at < keys.len(),
        keys[at] == key,
    ensures
        paired(keys, values.update(at, value)) == paired(keys, values).insert(key, value),
{
    key_found(keys, at, key);
    assert forall|k: Seq<char>| keys.contains(k) && k != key implies paired(
        keys,
        values.update(at, value),
    )[k] == paired(keys, values)[k] by {
        let i = choose|i: int| 0 <= i < keys.len() && #[trigger] keys[i] == k;
        key_found(keys, i, k);
    }
    assert(paired(keys, values.update(at, value)) =~= paired(keys, values).insert(key, value));
}

proof fn insert_is_insert<V>(
    keys: Seq<Seq<char>>,
    values: Seq<V>,
    at: int,
    key: Seq<char>,
    value: V,
)
    requires
        ascending(keys),
        keys.len() == values.len(),
        0 <= at <= keys.len(),
        forall|i: int| 0 <= i < at ==> text::precedes(#[trigger] keys[i], key),
        at < keys.len() ==> text::precedes(key, keys[at]),
        !keys.contains(key),
    ensures
        ascending(keys.insert(at, key)),
        paired(keys.insert(at, key), values.insert(at, value)) == paired(keys, values).insert(
            key,
            value,
        ),
{
    let longer = keys.insert(at, key);
    assert forall|i: int, j: int| 0 <= i < j < longer.len() implies text::precedes(
        #[trigger] longer[i],
        #[trigger] longer[j],
    ) by {
        if i == at && j > at + 1 {
            text::precedes_transitive(key, keys[at], keys[j - 1]);
        }
    }
    assert(longer[at] == key);
    key_found(longer, at, key);
    assert forall|k: Seq<char>| #[trigger] keys.contains(k) implies longer.contains(k) && paired(
        longer,
        values.insert(at, value),
    )[k] == paired(keys, values)[k] by {
        let i = choose|i: int| 0 <= i < keys.len() && #[trigger] keys[i] == k;
        key_found(keys, i, k);
        let moved = if i < at {
            i
        } else {
            i + 1
        };
        assert(longer[moved] == k);
        key_found(longer, moved, k);
    }
    assert forall|k: Seq<char>| #[trigger] longer.contains(k) implies k == key || keys.contains(
        k,
    ) by {
        let i = choose|i: int| 0 <= i < longer.len() && #[trigger] longer[i] == k;
        if i < at {
            assert(keys[i] == k);
        } else if i > at {
            assert(keys[i - 1] == k);
        }
    }
    assert(paired(longer, values.insert(at, value)) =~= paired(keys, values).insert(key, value));
}

proof fn remove_is_remove<V>(keys: Seq<Seq<char>>, values: Seq<V>, at: int, key: Seq<char>)
    requires
        ascending(keys),
        keys.len() == values.len(),
        0 <= at < keys.len(),
        keys[at] == key,
    ensures
        ascending(keys.remove(at)),
        paired(keys.remove(at), values.remove(at)) == paired(keys, values).remove(key),
{
    let shorter = keys.remove(at);
    assert(ascending(shorter));
    assert(!shorter.contains(key)) by {
        if shorter.contains(key) {
            let i = choose|i: int| 0 <= i < shorter.len() && #[trigger] shorter[i] == key;
            text::precedes_irreflexive(key);
            if i < at {
                assert(keys[i] == key);
            } else {
                assert(keys[i + 1] == key);
            }
        }
    }
    assert forall|k: Seq<char>| #[trigger] keys.contains(k) && k != key implies shorter.contains(k)
        && paired(shorter, values.remove(at))[k] == paired(keys, values)[k] by {
        let i = choose|i: int| 0 <= i < keys.len() && #[trigger] keys[i] == k;
        key_found(keys, i, k);
        let moved = if i < at {
            i
        } else {
            i - 1
        };
        assert(shorter[moved] == k);
        key_found(shorter, moved, k);
    }
    assert forall|k: Seq<char>| #[trigger] shorter.contains(k) implies keys.contains(k) by {
        let i = choose|i: int| 0 <= i < shorter.len() && #[trigger] shorter[i] == k;
        if i < at {
            assert(keys[i] == k);
        } else {
            assert(keys[i + 1] == k);
        }
    }
    assert(paired(shorter, values.remove(at)) =~= paired(keys, values).remove(key));
}

/// What a key was last given is what reading it yields; other keys are untouched.
pub proof fn read_after_write<V>(before: Catalog<V>, after: Catalog<V>, key: Seq<char>, value: V)
    requires
        after@ == before@.insert(key, value),
    ensures
        after@.dom().contains(key),
        after@[key] == value,
        forall|k: Seq<char>|
            k != key ==> (#[trigger] after@.dom().contains(k) == before@.dom().contains(k))
                && (before@.dom().contains(k) ==> after@[k] == before@[k]),
{
}

} // verus!
