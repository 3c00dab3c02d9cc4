//! A hash map stored in one vector with Robin Hood hashing.
//!
//! Each entry sits some distance after the bucket its hash picks (its
//! distance to the initial bucket). Every slot between that bucket and the
//! entry is occupied, by an entry at least as far from its own bucket as the
//! new one would be there: inserting swaps the entry in hand with one that is
//! nearer its bucket, and removing shifts the following entries back by one
//! until an empty slot or an entry in its own bucket. A lookup probes from
//! the bucket up to the largest distance ever seen, stopping at an empty slot.
//!
//! The table itself is verified for every hash value it is given; which hash
//! a key has is the hasher's business.
use vstd::prelude::*;
use vstd::std_specs::cmp::PartialEqSpec;
use vstd::multiset::Multiset;

use core::hash::{Hash, Hasher};

use crate::executor::is_pow2;

verus! {

broadcast use {vstd::multiset::group_multiset_axioms, vstd::multiset::group_multiset_properties};

/// Whether `==` on `K` holds exactly of equal keys.
pub open spec fn key_eq_is_identity<K: PartialEq>() -> bool {
    &&& K::obeys_eq_spec()
    &&& forall|a: K, b: K| #[trigger] a.eq_spec(&b) <==> a == b
}

/// An entry: its key, value, the key's hash and its distance from the
/// bucket the hash picks.
struct Node<K, V> {
    hash: u32,
    distance_to_initial_bucket: usize,
    key: K,
    value: V,
}

/// The entries a sequence of slots holds, as (key, value, hash) triples.
closed spec fn contents<K, V>(s: Seq<Option<Node<K, V>>>) -> Multiset<(K, V, u32)>
    decreases s.len(),
{
    if s.len() == 0 {
        Multiset::empty()
    } else {
        contents(s.drop_last()).add(entry_of(s.last()))
    }
}

/// The entry a slot holds, as a multiset of at most one triple.
closed spec fn entry_of<K, V>(slot: Option<Node<K, V>>) -> Multiset<(K, V, u32)> {
    match slot {
        Some(n) => Multiset::singleton((n.key, n.value, n.hash)),
        None => Multiset::empty(),
    }
}

/// Replacing one slot swaps its entry for the new one.
proof fn lemma_contents_update<K, V>(s: Seq<Option<Node<K, V>>>, i: int, v: Option<Node<K, V>>)
    requires
        0 <= i < s.len(),
    ensures
        contents(s.update(i, v)).add(entry_of(s[i])) == contents(s).add(entry_of(v)),
    decreases s.len(),
{
    let t = s.update(i, v);
    if i == s.len() - 1 {
        assert(t.drop_last() =~= s.drop_last());
        assert(t.last() == v);
        assert(contents(t).add(entry_of(s[i])) =~= contents(s).add(entry_of(v)));
    } else {
        lemma_contents_update(s.drop_last(), i, v);
        assert(t.drop_last() =~= s.drop_last().update(i, v));
        assert(t.last() == s.last());
        assert(s.drop_last()[i] == s[i]);
        let a = contents(s.drop_last().update(i, v));
        let b = contents(s.drop_last());
        assert(contents(t) == a.add(entry_of(s.last())));
        assert(contents(s) == b.add(entry_of(s.last())));
        assert(a.add(entry_of(s[i])) == b.add(entry_of(v)));
        assert forall|e: (K, V, u32)| #[trigger] contents(t).add(entry_of(s[i])).count(e)
            == contents(s).add(entry_of(v)).count(e) by {
            assert(a.add(entry_of(s[i])).count(e) == b.add(entry_of(v)).count(e));
        }
        assert(contents(t).add(entry_of(s[i])) =~= contents(s).add(entry_of(v)));
    }
}

/// Fewer entries than slots leaves a slot empty.
proof fn lemma_contents_has_empty<K, V>(s: Seq<Option<Node<K, V>>>)
    requires
        contents(s).len() < s.len(),
    ensures
        exists|i: int| 0 <= i < s.len() && s[i] is None,
    decreases s.len(),
{
    if s.last() is None {
        assert(s[s.len() - 1] is None);
    } else {
        lemma_contents_has_empty(s.drop_last());
        let i = choose|i: int| 0 <= i < s.drop_last().len() && s.drop_last()[i] is None;
        assert(s[i] is None);
    }
}

/// The (key, value) pairs of the occupied slots, in slot order.
closed spec fn occupied_pairs<K, V>(s: Seq<Option<Node<K, V>>>) -> Seq<(K, V)>
    decreases s.len(),
{
    if s.len() == 0 {
        Seq::empty()
    } else {
        let rest = occupied_pairs(s.drop_last());
        match s.last() {
            Some(n) => rest.push((n.key, n.value)),
            None => rest,
        }
    }
}

/// Listing the pairs in slot order lists each entry once.
proof fn lemma_occupied_pairs_len<K, V>(s: Seq<Option<Node<K, V>>>)
    ensures
        occupied_pairs(s).len() == contents(s).len(),
    decreases s.len(),
{
    if s.len() > 0 {
        lemma_occupied_pairs_len(s.drop_last());
    }
}

/// Each pair listed is the key and value of an entry held.
proof fn lemma_pairs_held<K, V>(s: Seq<Option<Node<K, V>>>, i: int)
    requires
        0 <= i < occupied_pairs(s).len(),
    ensures
        exists|h: u32| #[trigger] contents(s).count((occupied_pairs(s)[i].0, occupied_pairs(s)[i].1, h)) > 0,
    decreases s.len(),
{
    let rest = occupied_pairs(s.drop_last());
    lemma_occupied_pairs_len(s.drop_last());
    let p = occupied_pairs(s)[i];
    if i < rest.len() {
        lemma_pairs_held(s.drop_last(), i);
        let h = choose|h: u32| #[trigger] contents(s.drop_last()).count((rest[i].0, rest[i].1, h)) > 0;
        assert(p == rest[i]);
        assert(contents(s).count((p.0, p.1, h)) == contents(s.drop_last()).count((p.0, p.1, h))
            + entry_of(s.last()).count((p.0, p.1, h)));
        assert(contents(s).count((p.0, p.1, h)) > 0);
    } else {
        let n = s.last()->Some_0;
        assert(p == (n.key, n.value));
        assert(entry_of(s.last()).count((n.key, n.value, n.hash)) == 1);
        assert(contents(s).count((p.0, p.1, n.hash)) > 0);
    }
}

/// The triple a slot holds.
closed spec fn triple_of<K, V>(n: Node<K, V>) -> (K, V, u32) {
    (n.key, n.value, n.hash)
}

/// Every entry held is in some slot.
proof fn lemma_contents_has<K, V>(s: Seq<Option<Node<K, V>>>, t: (K, V, u32))
    requires
        contents(s).count(t) > 0,
    ensures
        exists|i: int| 0 <= i < s.len() && s[i] is Some && triple_of(s[i]->Some_0) == t,
    decreases s.len(),
{
    if s.len() > 0 {
        if s.last() is Some && triple_of(s.last()->Some_0) == t {
            assert(s[s.len() - 1] is Some && triple_of(s[s.len() - 1]->Some_0) == t);
        } else {
            assert(entry_of(s.last()).count(t) == 0);
            lemma_contents_has(s.drop_last(), t);
            let i = choose|i: int|
                0 <= i < s.drop_last().len() && s.drop_last()[i] is Some && triple_of(
                    s.drop_last()[i]->Some_0,
                ) == t;
            assert(s[i] == s.drop_last()[i]);
        }
    }
}

/// The entries of two different occupied slots are both held, twice when
/// they are the same triple.
proof fn lemma_contents_two<K, V>(s: Seq<Option<Node<K, V>>>, i: int, j: int)
    requires
        0 <= i < s.len(),
        0 <= j < s.len(),
        i != j,
        s[i] is Some,
        s[j] is Some,
    ensures
        contents(s).count(triple_of(s[i]->Some_0)) >= 1,
        triple_of(s[i]->Some_0) == triple_of(s[j]->Some_0) ==> contents(s).count(
            triple_of(s[i]->Some_0),
        ) >= 2,
{
    let ti = triple_of(s[i]->Some_0);
    let tj = triple_of(s[j]->Some_0);
    let a = s.update(i, None);
    lemma_contents_update(s, i, None);
    assert(a[j] == s[j]);
    lemma_contents_update(a, j, None);
    let b = a.update(j, None);
    assert(contents(a).add(entry_of(s[i])).count(ti) == contents(s).add(entry_of(None::<Node<K, V>>)).count(ti));
    assert(contents(b).add(entry_of(a[j])).count(ti) == contents(a).add(entry_of(None::<Node<K, V>>)).count(ti));
}

/// The entry of an occupied slot is held.
proof fn lemma_contents_one<K, V>(s: Seq<Option<Node<K, V>>>, i: int)
    requires
        0 <= i < s.len(),
        s[i] is Some,
    ensures
        contents(s).count(triple_of(s[i]->Some_0)) >= 1,
{
    let ti = triple_of(s[i]->Some_0);
    lemma_contents_update(s, i, None);
    assert(contents(s.update(i, None)).add(entry_of(s[i])).count(ti) == contents(s).add(
        entry_of(None::<Node<K, V>>),
    ).count(ti));
}

/// The entries of a prefix are no more than those of the whole.
proof fn lemma_contents_prefix_len<K, V>(s: Seq<Option<Node<K, V>>>, i: int)
    requires
        0 <= i <= s.len(),
    ensures
        contents(s.subrange(0, i)).len() <= contents(s).len(),
    decreases s.len(),
{
    if i < s.len() {
        lemma_contents_prefix_len(s.drop_last(), i);
        assert(s.drop_last().subrange(0, i) =~= s.subrange(0, i));
    } else {
        assert(s.subrange(0, i) =~= s);
    }
}

/// A sequence of empty slots holds nothing.
proof fn lemma_contents_empty<K, V>(s: Seq<Option<Node<K, V>>>)
    requires
        forall|i: int| 0 <= i < s.len() ==> s[i] is None,
    ensures
        contents(s) == Multiset::<(K, V, u32)>::empty(),
    decreases s.len(),
{
    if s.len() > 0 {
        lemma_contents_empty(s.drop_last());
        assert(contents(s) =~= Multiset::<(K, V, u32)>::empty());
    }
}

/// No key occurs in two entries, nor an entry twice.
pub open spec fn distinct_keys<K, V>(m: Multiset<(K, V, u32)>) -> bool {
    forall|a: (K, V, u32), b: (K, V, u32)|
        #![trigger m.count(a), m.count(b)]
        m.count(a) > 0 && m.count(b) > 0 && a.0 == b.0 ==> a == b && m.count(a) == 1
}

/// Every entry for `key` has the hash `h`.
pub open spec fn hashes_to<K, V>(m: Multiset<(K, V, u32)>, key: K, h: u32) -> bool {
    forall|a: (K, V, u32)| #[trigger] m.count(a) > 0 && a.0 == key ==> a.2 == h
}

/// Whether some entry is for `key`.
pub open spec fn has_key<K, V>(m: Multiset<(K, V, u32)>, key: K) -> bool {
    exists|a: (K, V, u32)| #[trigger] m.count(a) > 0 && a.0 == key
}

/// The map from each key held to the value of its entry.
pub open spec fn map_of<K, V>(m: Multiset<(K, V, u32)>) -> Map<K, V> {
    Map::new(
        |k: K| has_key(m, k),
        |k: K| (choose|a: (K, V, u32)| #[trigger] m.count(a) > 0 && a.0 == k).1,
    )
}

/// With distinct keys, the entry held for a key is the one the map reads.
pub proof fn lemma_map_of_entry<K, V>(m: Multiset<(K, V, u32)>, a: (K, V, u32))
    requires
        distinct_keys(m),
        m.count(a) > 0,
    ensures
        map_of(m).contains_key(a.0),
        map_of(m)[a.0] == a.1,
{
    let c = choose|b: (K, V, u32)| #[trigger] m.count(b) > 0 && b.0 == a.0;
    assert(m.count(c) > 0 && c.0 == a.0);
    assert(c == a);
}

/// Adding an entry for a key not held keeps the keys distinct and maps the
/// key to the value; other keys keep their entries.
pub proof fn lemma_add_entry<K, V>(m: Multiset<(K, V, u32)>, t: (K, V, u32))
    requires
        distinct_keys(m),
        !has_key(m, t.0),
    ensures
        distinct_keys(m.insert(t)),
        map_of(m.insert(t)) == map_of(m).insert(t.0, t.1),
        hashes_to(m.insert(t), t.0, t.2),
        forall|k: K, h: u32| k != t.0 ==> (hashes_to(m.insert(t), k, h) == hashes_to(m, k, h)),
{
    let m2 = m.insert(t);
    assert forall|a: (K, V, u32)| a != t implies m2.count(a) == m.count(a) by {}
    assert forall|a: (K, V, u32)| m.count(a) > 0 implies a.0 != t.0 by {
        if a.0 == t.0 {
            assert(has_key(m, t.0));
        }
    }
    assert forall|a: (K, V, u32), b: (K, V, u32)|
        #![trigger m2.count(a), m2.count(b)]
        m2.count(a) > 0 && m2.count(b) > 0 && a.0 == b.0 implies a == b && m2.count(a) == 1 by {
        if a != t && b != t {
            assert(m.count(a) > 0 && m.count(b) > 0);
        } else if a == t && b == t {
            assert(m.count(t) == 0);
        } else if a == t {
            assert(m.count(b) > 0);
        } else {
            assert(m.count(a) > 0);
        }
    }
    assert forall|k: K| #![auto] map_of(m2).dom().contains(k) <==> map_of(m).insert(t.0, t.1).dom().contains(k) by {
        if k != t.0 {
            if has_key(m, k) {
                let a = choose|a: (K, V, u32)| #[trigger] m.count(a) > 0 && a.0 == k;
                assert(m2.count(a) > 0);
            }
            if has_key(m2, k) {
                let a = choose|a: (K, V, u32)| #[trigger] m2.count(a) > 0 && a.0 == k;
                assert(m.count(a) > 0);
            }
        } else {
            assert(m2.count(t) > 0);
        }
    }
    assert forall|k: K| #[trigger] map_of(m2).contains_key(k) implies map_of(m2)[k] == map_of(m).insert(t.0, t.1)[k] by {
        let a = choose|a: (K, V, u32)| #[trigger] m2.count(a) > 0 && a.0 == k;
        lemma_map_of_entry(m2, a);
        if k != t.0 {
            assert(m.count(a) > 0);
            lemma_map_of_entry(m, a);
        } else {
            assert(m2.count(t) > 0);
            lemma_map_of_entry(m2, t);
        }
    }
    assert(map_of(m2) =~= map_of(m).insert(t.0, t.1));
}

/// Taking away the entry of a key, with distinct keys, removes the key from
/// the map; other keys keep their entries.
pub proof fn lemma_take_entry<K, V>(m: Multiset<(K, V, u32)>, t: (K, V, u32))
    requires
        distinct_keys(m),
        m.count(t) > 0,
    ensures
        distinct_keys(m.remove(t)),
        !has_key(m.remove(t), t.0),
        map_of(m.remove(t)) == map_of(m).remove(t.0),
        forall|k: K, h: u32| k != t.0 ==> (hashes_to(m.remove(t), k, h) == hashes_to(m, k, h)),
{
    let m2 = m.remove(t);
    assert(m.count(t) == 1);
    assert forall|a: (K, V, u32)| a.0 == t.0 implies m2.count(a) == 0 by {
        if m.count(a) > 0 {
            assert(a == t);
        }
    }
    assert forall|a: (K, V, u32)| a != t implies m2.count(a) == m.count(a) by {}
    assert(!has_key(m2, t.0));
    assert forall|k: K| #![auto] map_of(m2).dom().contains(k) <==> map_of(m).remove(t.0).dom().contains(k) by {
        if k != t.0 {
            if has_key(m, k) {
                let a = choose|a: (K, V, u32)| #[trigger] m.count(a) > 0 && a.0 == k;
                assert(m2.count(a) > 0);
            }
            if has_key(m2, k) {
                let a = choose|a: (K, V, u32)| #[trigger] m2.count(a) > 0 && a.0 == k;
                assert(m.count(a) > 0);
            }
        }
    }
    assert forall|k: K| #[trigger] map_of(m2).contains_key(k) implies map_of(m2)[k] == map_of(m).remove(t.0)[k] by {
        let a = choose|a: (K, V, u32)| #[trigger] m2.count(a) > 0 && a.0 == k;
        assert(m.count(a) > 0);
        lemma_map_of_entry(m, a);
        assert forall|x: (K, V, u32), y: (K, V, u32)|
            #![trigger m2.count(x), m2.count(y)]
            m2.count(x) > 0 && m2.count(y) > 0 && x.0 == y.0 implies x == y && m2.count(x) == 1 by {
            assert(m.count(x) > 0 && m.count(y) > 0);
        }
        lemma_map_of_entry(m2, a);
    }
    assert forall|x: (K, V, u32), y: (K, V, u32)|
        #![trigger m2.count(x), m2.count(y)]
        m2.count(x) > 0 && m2.count(y) > 0 && x.0 == y.0 implies x == y && m2.count(x) == 1 by {
        assert(m.count(x) > 0 && m.count(y) > 0);
    }
    assert(map_of(m2) =~= map_of(m).remove(t.0));
}

/// Doubling a power of two that fits gives a power of two.
proof fn lemma_double_pow2(n: usize)
    requires
        is_pow2(n),
        n <= MAX_SLOTS,
    ensures
        is_pow2((2 * n) as usize),
{
    assert(((n * 2) as usize) & (((n * 2) as usize - 1) as usize) == 0) by (bit_vector)
        requires
            n > 0,
            n & ((n - 1) as usize) == 0,
            n <= 0x200_0000,
    ;
}

/// A power of two below the largest table size is at most half of it.
proof fn lemma_pow2_below(n: usize)
    requires
        is_pow2(n),
        n < MAX_SLOTS,
    ensures
        n * 2 <= MAX_SLOTS,
{
    assert(n <= 0x100_0000) by (bit_vector)
        requires
            n > 0,
            n & ((n - 1) as usize) == 0,
            n < 0x200_0000,
    ;
}

/// A table fills to fewer entries than it has slots.
proof fn lemma_resize_below_size(n: int)
    requires
        n >= 1,
    ensures
        number_before_resize_spec(n) < n,
{
    assert(n * 85 / 100 < n) by (nonlinear_arith)
        requires
            n >= 1,
    ;
}

/// The slot `d` places after the bucket of hash `h` in a table of `n` slots.
pub open spec fn slot_of(h: u32, d: int, n: int) -> int {
    (h as int % n + d) % n
}

/// The slot before `i` in a table of `n` slots.
pub open spec fn prev_slot(i: int, n: int) -> int {
    (i + n - 1) % n
}

/// The most slots a table has, so that 85% of them can be computed in a
/// 32 bit `usize`.
pub const MAX_SLOTS: usize = 0x200_0000;

/// The slot before the one `a` places on is the one `a - 1` places on.
proof fn lemma_prev_of(a: int, n: int)
    requires
        n > 0,
        a >= 1,
    ensures
        prev_slot(a % n, n) == (a - 1) % n,
{
    vstd::arithmetic::div_mod::lemma_small_mod((n - 1) as nat, n as nat);
    vstd::arithmetic::div_mod::lemma_add_mod_noop(a, n - 1, n);
    vstd::arithmetic::div_mod::lemma_mod_add_multiples_vanish(a - 1, n);
}

/// The slot after the one `a` places on is the one `a + 1` places on.
proof fn lemma_next_of(a: int, n: int)
    requires
        n > 0,
    ensures
        ((a % n) + 1) % n == (a + 1) % n,
{
    vstd::arithmetic::div_mod::lemma_add_mod_noop_right(1, a, n);
}

/// The slot after the one before `i` is `i`.
proof fn lemma_prev_then_next(i: int, n: int)
    requires
        n > 0,
        0 <= i < n,
    ensures
        0 <= prev_slot(i, n) < n,
        (prev_slot(i, n) + 1) % n == i,
{
    lemma_next_of(i + n - 1, n);
    vstd::arithmetic::div_mod::lemma_mod_add_multiples_vanish(i, n);
    vstd::arithmetic::div_mod::lemma_small_mod(i as nat, n as nat);
}

/// Two places less than `n` apart fall on different slots.
proof fn lemma_mod_apart(a: int, b: int, n: int)
    requires
        n > 0,
        0 <= a < b < a + n,
    ensures
        a % n != b % n,
{
    vstd::arithmetic::div_mod::lemma_fundamental_div_mod(a, n);
    vstd::arithmetic::div_mod::lemma_fundamental_div_mod(b, n);
    let qa = a / n;
    let qb = b / n;
    if a % n == b % n {
        assert(b - a == n * (qb - qa)) by (nonlinear_arith)
            requires
                a == n * qa + a % n,
                b == n * qb + b % n,
                a % n == b % n,
        ;
        assert(false) by (nonlinear_arith)
            requires
                b - a == n * (qb - qa),
                0 < b - a < n,
                n > 0,
        ;
    }
}

/// The number of entries a table of `capacity` slots takes before it grows:
/// 85% of them.
pub open spec fn number_before_resize_spec(capacity: int) -> int {
    capacity * 85 / 100
}

/// The slots a map made to take `capacity` entries gets: the first of
/// `s`, `2 * s`, `4 * s`, ... of which 85% exceeds `capacity`, stopping
/// where doubling would pass the largest table.
pub open spec fn slots_for(capacity: int, s: int) -> int
    decreases MAX_SLOTS - s,
{
    if s < 1 || 2 * s > MAX_SLOTS || number_before_resize_spec(s) > capacity {
        s
    } else {
        slots_for(capacity, 2 * s)
    }
}

fn number_before_resize(capacity: usize) -> (r: usize)
    requires
        capacity <= MAX_SLOTS,
    ensures
        r == number_before_resize_spec(capacity as int),
{
    capacity * 85 / 100
}

/// The slots of a hash map, with the number of entries, the largest distance
/// from a bucket seen, and the number of entries it takes before growing.
pub struct NodeStorage<K, V> {
    nodes: Vec<Option<Node<K, V>>>,
    max_distance_to_initial_bucket: usize,
    number_of_items: usize,
    max_number_before_resize: usize,
}

impl<K, V> NodeStorage<K, V> {
    /// The number of slots.
    pub closed spec fn size(self) -> int {
        self.nodes@.len() as int
    }

    /// Whether slot `i` holds an entry.
    pub closed spec fn occupied(self, i: int) -> bool {
        self.nodes@[i] is Some
    }

    /// The key in slot `i`.
    pub closed spec fn key_at(self, i: int) -> K {
        self.nodes@[i]->Some_0.key
    }

    /// The value in slot `i`.
    pub closed spec fn value_at(self, i: int) -> V {
        self.nodes@[i]->Some_0.value
    }

    /// The hash stored in slot `i`.
    pub closed spec fn hash_at(self, i: int) -> u32 {
        self.nodes@[i]->Some_0.hash
    }

    /// The distance of the entry in slot `i` from its bucket.
    pub closed spec fn dist_at(self, i: int) -> int {
        self.nodes@[i]->Some_0.distance_to_initial_bucket as int
    }

    /// The largest distance a lookup probes.
    pub closed spec fn max_dist(self) -> int {
        self.max_distance_to_initial_bucket as int
    }

    /// The entries held, as (key, value, hash) triples.
    pub closed spec fn entries(self) -> Multiset<(K, V, u32)> {
        contents(self.nodes@)
    }

    /// The number of entries held before the table grows.
    pub closed spec fn capacity_spec(self) -> int {
        self.max_number_before_resize as int
    }

    /// The number of entries.
    pub closed spec fn len_spec(self) -> int {
        self.number_of_items as int
    }

    /// The entry in slot `i` sits `dist_at(i)` slots after its bucket, within
    /// the largest distance.
    pub open spec fn pos_ok(self, i: int) -> bool {
        self.occupied(i) ==> {
            &&& 0 <= self.dist_at(i) <= self.max_dist()
            &&& slot_of(self.hash_at(i), self.dist_at(i), self.size()) == i
        }
    }

    /// When the entry in slot `i` is not in its bucket, the slot before it
    /// holds an entry at most one nearer its own bucket.
    pub open spec fn prev_ok(self, i: int) -> bool {
        self.occupied(i) && self.dist_at(i) > 0 ==> {
            &&& self.occupied(prev_slot(i, self.size()))
            &&& self.dist_at(prev_slot(i, self.size())) + 1 >= self.dist_at(i)
        }
    }

    /// Slot `i` is as `pos_ok` and `prev_ok` say.
    pub open spec fn slot_ok(self, i: int) -> bool {
        self.pos_ok(i) && self.prev_ok(i)
    }

    /// The table's invariant: a power of two slots, fewer entries than slots,
    /// and every slot as `slot_ok` says.
    pub closed spec fn wf(self) -> bool {
        &&& is_pow2(self.nodes@.len() as usize)
        &&& self.nodes@.len() <= MAX_SLOTS
        &&& self.number_of_items == contents(self.nodes@).len()
        &&& self.number_of_items < self.nodes@.len()
        &&& self.max_number_before_resize == number_before_resize_spec(self.nodes@.len() as int)
        &&& self.max_distance_to_initial_bucket < self.nodes@.len()
        &&& forall|i: int| 0 <= i < self.size() ==> #[trigger] self.slot_ok(i)
    }

    /// The slot a lookup of `key` with hash `h` finds, probing from distance
    /// `d`: the first slot up to the largest distance that is empty (none)
    /// or holds `key`.
    pub open spec fn probe(self, key: K, h: u32, d: int) -> Option<int>
        decreases self.max_dist() + 1 - d,
    {
        if d < 0 || d > self.max_dist() {
            None
        } else {
            let p = slot_of(h, d, self.size());
            if !self.occupied(p) {
                None
            } else if self.key_at(p) == key {
                Some(p)
            } else {
                self.probe(key, h, d + 1)
            }
        }
    }

    /// No key is held twice.
    pub open spec fn keys_distinct(self) -> bool {
        forall|i: int, j: int|
            0 <= i < self.size() && 0 <= j < self.size() && i != j && self.occupied(i)
                && self.occupied(j) ==> #[trigger] self.key_at(i) != #[trigger] self.key_at(j)
    }

    /// Walking back `j` slots from an entry `D` slots past its bucket meets
    /// occupied slots, each at least `D - j` past its own bucket.
    proof fn lemma_path(self, p: int, j: int)
        requires
            self.wf(),
            0 <= p < self.size(),
            self.occupied(p),
            0 <= j <= self.dist_at(p),
        ensures
            ({
                let s = slot_of(self.hash_at(p), self.dist_at(p) - j, self.size());
                &&& 0 <= s < self.size()
                &&& self.occupied(s)
                &&& self.dist_at(s) >= self.dist_at(p) - j
            }),
        decreases j,
    {
        let n = self.size();
        let h = self.hash_at(p);
        let dd = self.dist_at(p);
        assert(self.slot_ok(p));
        if j > 0 {
            self.lemma_path(p, j - 1);
            let s1 = slot_of(h, dd - (j - 1), n);
            assert(self.slot_ok(s1));
            lemma_prev_of(h as int % n + dd - (j - 1), n);
            assert(prev_slot(s1, n) == slot_of(h, dd - j, n));
        }
    }

    /// A lookup of the key and hash of the entry in slot `p` finds it, when
    /// no key is held twice.
    pub proof fn lemma_probe_finds(self, p: int)
        requires
            self.wf(),
            self.keys_distinct(),
            0 <= p < self.size(),
            self.occupied(p),
        ensures
            self.probe(self.key_at(p), self.hash_at(p), 0) == Some(p),
    {
        assert(self.slot_ok(p));
        self.lemma_probe_finds_from(p, 0);
    }

    proof fn lemma_probe_finds_from(self, p: int, d: int)
        requires
            self.wf(),
            self.keys_distinct(),
            0 <= p < self.size(),
            self.occupied(p),
            0 <= d <= self.dist_at(p),
        ensures
            self.probe(self.key_at(p), self.hash_at(p), d) == Some(p),
        decreases self.dist_at(p) - d,
    {
        let n = self.size();
        let h = self.hash_at(p);
        let dd = self.dist_at(p);
        assert(self.slot_ok(p));
        self.lemma_path(p, dd - d);
        let s = slot_of(h, d, n);
        if d < dd {
            lemma_mod_apart(h as int % n + d, h as int % n + dd, n);
            assert(s != p);
            assert(self.key_at(s) != self.key_at(p));
            self.lemma_probe_finds_from(p, d + 1);
        }
    }

    /// A lookup finds nothing but slots holding the key.
    pub proof fn lemma_probe_holds_key(self, key: K, h: u32, d: int)
        requires
            self.wf(),
        ensures
            self.probe(key, h, d) matches Some(p) ==> 0 <= p < self.size() && self.occupied(p)
                && self.key_at(p) == key,
        decreases self.max_dist() + 1 - d,
    {
        if 0 <= d <= self.max_dist() {
            self.lemma_probe_holds_key(key, h, d + 1);
        }
    }

    /// A lookup of a key held nowhere finds nothing.
    pub proof fn lemma_probe_absent(self, key: K, h: u32, d: int)
        requires
            self.wf(),
            forall|i: int| 0 <= i < self.size() && #[trigger] self.occupied(i) ==> self.key_at(i) != key,
        ensures
            self.probe(key, h, d) is None,
        decreases self.max_dist() + 1 - d,
    {
        if 0 <= d <= self.max_dist() {
            self.lemma_probe_absent(key, h, d + 1);
        }
    }

    /// The entry in slot `i`, as a (key, value, hash) triple.
    pub open spec fn triple_at(self, i: int) -> (K, V, u32) {
        (self.key_at(i), self.value_at(i), self.hash_at(i))
    }

    /// The entry of an occupied slot is held, and every entry held is in
    /// some slot.
    proof fn lemma_slots_entries(self)
        requires
            self.wf(),
        ensures
            forall|i: int|
                0 <= i < self.size() && #[trigger] self.occupied(i) ==> self.entries().count(
                    self.triple_at(i),
                ) > 0,
            forall|t: (K, V, u32)|
                #[trigger] self.entries().count(t) > 0 ==> exists|i: int|
                    0 <= i < self.size() && self.occupied(i) && #[trigger] self.triple_at(i) == t,
    {
        assert forall|i: int| 0 <= i < self.size() && #[trigger] self.occupied(i) implies self.entries().count(
            self.triple_at(i),
        ) > 0 by {
            lemma_contents_one(self.nodes@, i);
        }
        assert forall|t: (K, V, u32)| #[trigger] self.entries().count(t) > 0 implies exists|i: int|
            0 <= i < self.size() && self.occupied(i) && #[trigger] self.triple_at(i) == t by {
            lemma_contents_has(self.nodes@, t);
            let i = choose|i: int|
                0 <= i < self.nodes@.len() && self.nodes@[i] is Some && triple_of(
                    self.nodes@[i]->Some_0,
                ) == t;
            assert(self.occupied(i) && self.triple_at(i) == t);
        }
    }

    /// Distinct keys among the entries make the keys of the slots distinct.
    pub proof fn lemma_keys_distinct_of_entries(self)
        requires
            self.wf(),
            distinct_keys(self.entries()),
        ensures
            self.keys_distinct(),
    {
        assert forall|i: int, j: int|
            0 <= i < self.size() && 0 <= j < self.size() && i != j && self.occupied(i)
                && self.occupied(j) implies #[trigger] self.key_at(i) != #[trigger] self.key_at(j) by {
            lemma_contents_two(self.nodes@, i, j);
            lemma_contents_one(self.nodes@, j);
            let ti = self.triple_at(i);
            let tj = self.triple_at(j);
            assert(self.entries().count(ti) > 0 && self.entries().count(tj) > 0);
        }
    }

    /// With distinct keys and every entry for `key` hashing to `h`, a lookup
    /// of `key` with `h` finds the slot of its entry exactly when the key is
    /// held.
    pub proof fn lemma_lookup(self, key: K, h: u32)
        requires
            self.wf(),
            distinct_keys(self.entries()),
            hashes_to(self.entries(), key, h),
        ensures
            self.probe(key, h, 0) is Some <==> has_key(self.entries(), key),
            self.probe(key, h, 0) matches Some(p) ==> {
                &&& 0 <= p < self.size()
                &&& self.occupied(p)
                &&& self.key_at(p) == key
                &&& self.hash_at(p) == h
                &&& self.entries().count(self.triple_at(p)) > 0
                &&& map_of(self.entries())[key] == self.value_at(p)
            },
    {
        self.lemma_slots_entries();
        self.lemma_keys_distinct_of_entries();
        self.lemma_probe_holds_key(key, h, 0);
        if has_key(self.entries(), key) {
            let a = choose|a: (K, V, u32)| #[trigger] self.entries().count(a) > 0 && a.0 == key;
            let i = choose|i: int| 0 <= i < self.size() && self.occupied(i) && #[trigger] self.triple_at(i) == a;
            self.lemma_probe_finds(i);
            lemma_map_of_entry(self.entries(), a);
        } else {
            assert forall|i: int| 0 <= i < self.size() && #[trigger] self.occupied(i) implies self.key_at(i) != key by {
                assert(self.entries().count(self.triple_at(i)) > 0);
            }
            self.lemma_probe_absent(key, h, 0);
        }
        if self.probe(key, h, 0) is Some {
            let p = self.probe(key, h, 0)->Some_0;
            assert(self.entries().count(self.triple_at(p)) > 0);
            assert(hashes_to(self.entries(), key, h));
            assert(self.triple_at(p).2 == h);
            lemma_map_of_entry(self.entries(), self.triple_at(p));
        }
    }

    /// An empty table of `capacity` slots, a power of two.
    pub fn with_size(capacity: usize) -> (r: Self)
        requires
            is_pow2(capacity),
            capacity <= MAX_SLOTS,
        ensures
            r.wf(),
            r.size() == capacity,
            r.entries() == Multiset::<(K, V, u32)>::empty(),
            r.len_spec() == 0,
            r.max_dist() == 0,
            r.capacity_spec() == number_before_resize_spec(capacity as int),
    {
        let mut nodes: Vec<Option<Node<K, V>>> = Vec::new();
        let mut i: usize = 0;
        while i < capacity
            invariant
                i <= capacity,
                nodes@.len() == i,
                forall|j: int| 0 <= j < i ==> nodes@[j] is None,
            decreases capacity - i,
        {
            nodes.push(None);
            i = i + 1;
        }
        proof {
            lemma_contents_empty(nodes@);
        }
        let r = NodeStorage {
            nodes,
            max_distance_to_initial_bucket: 0,
            number_of_items: 0,
            max_number_before_resize: number_before_resize(capacity),
        };
        assert forall|i: int| 0 <= i < r.size() implies #[trigger] r.slot_ok(i) by {
            assert(!r.occupied(i));
        }
        r
    }

    /// Adds an entry for `key`, which is taken not to be held, in the first
    /// free slot from the bucket of `hash`, swapping the entry in hand with
    /// every entry met that is no farther from its bucket. Returns the slot
    /// the new entry went to.
    fn insert_new(&mut self, key: K, value: V, hash: u32) -> (r: usize)
        requires
            old(self).wf(),
            old(self).len_spec() + 1 < old(self).size(),
        ensures
            final(self).wf(),
            final(self).size() == old(self).size(),
            final(self).entries() == old(self).entries().insert((key, value, hash)),
            final(self).len_spec() == old(self).len_spec() + 1,
            final(self).capacity_spec() == old(self).capacity_spec(),
            0 <= r < final(self).size(),
            final(self).occupied(r as int),
            final(self).key_at(r as int) == key,
            final(self).value_at(r as int) == value,
            final(self).hash_at(r as int) == hash,
    {
        let n = self.nodes.len();
        proof {
            lemma_contents_has_empty(self.nodes@);
        }
        let ghost e: int = choose|i: int| 0 <= i < n && self.nodes@[i] is None;
        let start = (hash as usize) % n;
        let ghost m0: int = (e - start) % (n as int);
        proof {
            vstd::arithmetic::div_mod::lemma_add_mod_noop_right(start as int, e - start, n as int);
            vstd::arithmetic::div_mod::lemma_small_mod(e as nat, n as nat);
            vstd::arithmetic::div_mod::lemma_small_mod(start as nat, n as nat);
        }
        let ghost mut k: int = 0;
        let ghost mut kq: int = -1;
        let mut working = Node { hash, distance_to_initial_bucket: 0, key, value };
        let mut location = start;
        let mut inserted: Option<usize> = None;
        loop
            invariant_except_break
                n == self.nodes@.len(),
                n >= 2,
                is_pow2(n),
                n <= MAX_SLOTS,
                self.number_of_items == old(self).number_of_items,
                self.number_of_items + 1 < n,
                self.max_number_before_resize == old(self).max_number_before_resize,
                self.max_distance_to_initial_bucket < n,
                forall|i: int| 0 <= i < n ==> #[trigger] self.slot_ok(i),
                0 <= e < n,
                self.nodes@[e] is None,
                0 <= m0 < n,
                e == (start + m0) % (n as int),
                start < n,
                0 <= k <= m0,
                location == (start + k) % (n as int),
                location < n,
                working.distance_to_initial_bucket <= k,
                working.distance_to_initial_bucket <= self.max_distance_to_initial_bucket,
                slot_of(working.hash, working.distance_to_initial_bucket as int, n as int)
                    == location,
                working.distance_to_initial_bucket > 0 ==> {
                    &&& self.occupied(prev_slot(location as int, n as int))
                    &&& self.dist_at(prev_slot(location as int, n as int)) + 1
                        >= working.distance_to_initial_bucket
                },
                contents(self.nodes@).add(entry_of(Some(working))) == old(self).entries().insert(
                    (key, value, hash),
                ),
                inserted is None <==> kq < 0,
                inserted is None ==> working.key == key && working.value == value && working.hash
                    == hash,
                inserted matches Some(q) ==> {
                    &&& 0 <= kq < k
                    &&& q == (start + kq) % (n as int)
                    &&& self.occupied(q as int)
                    &&& self.key_at(q as int) == key
                    &&& self.value_at(q as int) == value
                    &&& self.hash_at(q as int) == hash
                },
            ensures
                n == self.nodes@.len(),
                is_pow2(n),
                n <= MAX_SLOTS,
                self.number_of_items == old(self).number_of_items,
                self.number_of_items + 1 < n,
                self.max_number_before_resize == old(self).max_number_before_resize,
                self.max_distance_to_initial_bucket < n,
                forall|i: int| 0 <= i < n ==> #[trigger] self.slot_ok(i),
                contents(self.nodes@) == old(self).entries().insert((key, value, hash)),
                inserted matches Some(q) && q < n && self.occupied(q as int) && self.key_at(q as int)
                    == key && self.value_at(q as int) == value && self.hash_at(q as int) == hash,
            decreases m0 - k,
        {
            let occupied = self.nodes[location].is_some();
            if occupied {
                let current_distance = match &self.nodes[location] {
                    Some(c) => c.distance_to_initial_bucket,
                    None => 0,
                };
                proof {
                    assert(location != e);
                    if k == m0 {
                        assert(false);
                    }
                }
                if current_distance <= working.distance_to_initial_bucket {
                    let ghost before = self.nodes@;
                    let ghost s0 = *self;
                    let ghost w = working;
                    let mut slot = Some(working);
                    self.nodes.set_and_swap(location, &mut slot);
                    working = slot.unwrap();
                    proof {
                        lemma_contents_update(before, location as int, Some(w));
                        let l = location as int;
                        let nn = n as int;
                        lemma_next_of(l, nn);
                        lemma_prev_of(l + 1, nn);
                        vstd::arithmetic::div_mod::lemma_small_mod(l as nat, nn as nat);
                        lemma_mod_apart(l, l + nn - 1, nn);
                        assert(prev_slot(l, nn) != l);
                        assert(s0.slot_ok(l));
                        assert(slot_of(working.hash, working.distance_to_initial_bucket as int, nn)
                            == l);
                        if kq >= 0 {
                            let q = inserted->Some_0 as int;
                            lemma_mod_apart(start + kq, start + k, nn);
                            assert(q != l);
                            assert(self.nodes@[q] == before[q]);
                        }
                        assert forall|i: int| 0 <= i < nn implies #[trigger] self.slot_ok(i) by {
                            assert(s0.slot_ok(i));
                            if i == l {
                                assert(self.nodes@[prev_slot(l, nn)] == before[prev_slot(l, nn)]);
                            } else if prev_slot(i, nn) == l {
                                assert(self.nodes@[i] == before[i]);
                            } else {
                                assert(self.nodes@[i] == before[i]);
                                assert(self.nodes@[prev_slot(i, nn)] == before[prev_slot(i, nn)]);
                            }
                        }
                        if kq < 0 {
                            kq = k;
                        }
                    }
                    if inserted.is_none() {
                        inserted = Some(location);
                    }
                }
            } else {
                let ghost before = self.nodes@;
                let ghost s0 = *self;
                let ghost w = working;
                self.nodes.set(location, Some(working));
                proof {
                    lemma_contents_update(before, location as int, Some(w));
                    let l = location as int;
                    let nn = n as int;
                    lemma_next_of(l, nn);
                    lemma_prev_of(l + 1, nn);
                    vstd::arithmetic::div_mod::lemma_small_mod(l as nat, nn as nat);
                    lemma_mod_apart(l, l + nn - 1, nn);
                    assert(prev_slot(l, nn) != l);
                    assert forall|i: int| 0 <= i < nn implies #[trigger] self.slot_ok(i) by {
                        assert(s0.slot_ok(i));
                        if i == l {
                            assert(self.nodes@[prev_slot(l, nn)] == before[prev_slot(l, nn)]);
                        } else if prev_slot(i, nn) == l {
                            assert(self.nodes@[i] == before[i]);
                        } else {
                            assert(self.nodes@[i] == before[i]);
                            assert(self.nodes@[prev_slot(i, nn)] == before[prev_slot(i, nn)]);
                        }
                    }
                }
                if inserted.is_none() {
                    inserted = Some(location);
                }
                break;
            }
            let ghost s1 = *self;
            let ghost l = location as int;
            proof {
                assert(self.occupied(l));
                assert(self.dist_at(l) >= working.distance_to_initial_bucket);
            }
            working.distance_to_initial_bucket = working.distance_to_initial_bucket + 1;
            if working.distance_to_initial_bucket > self.max_distance_to_initial_bucket {
                self.max_distance_to_initial_bucket = working.distance_to_initial_bucket;
            }
            proof {
                lemma_prev_of(l + 1, n as int);
                vstd::arithmetic::div_mod::lemma_small_mod(l as nat, n as nat);
                assert forall|i: int| 0 <= i < n implies #[trigger] self.slot_ok(i) by {
                    assert(s1.slot_ok(i));
                }
                lemma_next_of(location as int, n as int);
                lemma_next_of(working.hash as int % (n as int) + working.distance_to_initial_bucket
                    - 1, n as int);
                lemma_next_of(start + k, n as int);
                k = k + 1;
            }
            location = (location + 1) % n;
        }
        let ghost s2 = *self;
        self.number_of_items = self.number_of_items + 1;
        proof {
            assert(contents(self.nodes@).len() == old(self).entries().len() + 1);
            assert forall|i: int| 0 <= i < self.size() implies #[trigger] self.slot_ok(i) by {
                assert(s2.slot_ok(i));
            }
        }
        inserted.unwrap()
    }

    /// Takes the entry out of slot `location`, shifting the entries after
    /// it back by one slot (and one nearer their buckets) up to an empty slot
    /// or an entry in its own bucket. Returns the entry's value.
    fn remove_from_location(&mut self, location: usize) -> (r: V)
        requires
            old(self).wf(),
            location < old(self).size(),
            old(self).occupied(location as int),
        ensures
            final(self).wf(),
            final(self).size() == old(self).size(),
            final(self).entries() == old(self).entries().remove(
                (
                    old(self).key_at(location as int),
                    old(self).value_at(location as int),
                    old(self).hash_at(location as int),
                ),
            ),
            final(self).len_spec() == old(self).len_spec() - 1,
            final(self).capacity_spec() == old(self).capacity_spec(),
            final(self).max_dist() == old(self).max_dist(),
            r == old(self).value_at(location as int),
    {
        let n = self.nodes.len();
        let ghost nn = n as int;
        proof {
            lemma_contents_has_empty(self.nodes@);
        }
        let ghost e: int = choose|i: int| 0 <= i < n && self.nodes@[i] is None;
        let ghost m0: int = (e - location) % nn;
        let ghost removed = self.nodes@[location as int];
        let ghost t = (
            old(self).key_at(location as int),
            old(self).value_at(location as int),
            old(self).hash_at(location as int),
        );
        proof {
            vstd::arithmetic::div_mod::lemma_add_mod_noop_right(location as int, e - location, nn);
            vstd::arithmetic::div_mod::lemma_small_mod(e as nat, n as nat);
            vstd::arithmetic::div_mod::lemma_small_mod(location as nat, n as nat);
            lemma_next_of(location as int, nn);
            assert(self.slot_ok(location as int));
            let nx = (location as int + 1) % nn;
            lemma_prev_of(location + 1, nn);
            assert(self.slot_ok(nx));
            lemma_contents_update(self.nodes@, location as int, None);
            assert(entry_of(self.nodes@[location as int]).len() == 1);
            assert(entry_of(None::<Node<K, V>>).len() == 0);
            let u = contents(self.nodes@.update(location as int, None));
            assert(u.add(entry_of(self.nodes@[location as int])).len() == u.len() + 1);
            assert(contents(self.nodes@).add(entry_of(None::<Node<K, V>>)).len() == contents(self.nodes@).len());
            assert(contents(self.nodes@).len() >= 1);
            assert(self.number_of_items >= 1);
            assert(entry_of(self.nodes@[location as int]) == Multiset::singleton(t));
            assert(u.add(entry_of(self.nodes@[location as int])).count(t) == u.count(t) + 1);
            assert(contents(self.nodes@).add(entry_of(None::<Node<K, V>>)).count(t) == contents(
                self.nodes@,
            ).count(t));
            assert(old(self).entries().count(t) >= 1);
        }
        self.number_of_items = self.number_of_items - 1;
        proof {
            assert forall|i: int| 0 <= i < nn implies #[trigger] self.pos_ok(i) by {
                assert(old(self).slot_ok(i));
            }
            assert forall|i: int| 0 <= i < nn implies #[trigger] self.prev_ok(i) by {
                assert(old(self).slot_ok(i));
            }
        }
        let mut current = location;
        let ghost mut k: int = 0;
        loop
            invariant
                n == self.nodes@.len(),
                n == old(self).nodes@.len(),
                old(self).wf(),
                nn == n,
                is_pow2(n),
                n <= MAX_SLOTS,
                self.number_of_items + 1 == old(self).number_of_items,
                old(self).number_of_items < n,
                self.max_number_before_resize == old(self).max_number_before_resize,
                self.max_distance_to_initial_bucket == old(self).max_distance_to_initial_bucket,
                self.max_distance_to_initial_bucket < n,
                current < n,
                self.nodes@[current as int] == removed,
                removed == old(self).nodes@[location as int],
                removed is Some,
                t == (removed->Some_0.key, removed->Some_0.value, removed->Some_0.hash),
                contents(self.nodes@) == old(self).entries(),
                old(self).entries().count(t) >= 1,
                0 <= e < n,
                self.nodes@[e] is None,
                0 <= k < m0,
                m0 < n,
                e == (location + m0) % nn,
                current == (location + k) % nn,
                forall|i: int| 0 <= i < n && i != current ==> #[trigger] self.pos_ok(i),
                forall|i: int|
                    0 <= i < n && i != current && i != (current + 1) % nn ==> #[trigger] self.prev_ok(i),
                ({
                    let nx = (current + 1) % nn;
                    self.occupied(nx) && self.dist_at(nx) > 1 ==> {
                        &&& self.occupied(prev_slot(current as int, nn))
                        &&& self.dist_at(prev_slot(current as int, nn)) + 2 >= self.dist_at(nx)
                    }
                }),
            decreases m0 - k,
        {
            let next = (current + 1) % n;
            let next_done = match &self.nodes[next] {
                None => true,
                Some(x) => x.distance_to_initial_bucket == 0,
            };
            if next_done {
                let ghost before = self.nodes@;
                let ghost s0 = *self;
                let mut slot: Option<Node<K, V>> = None;
                self.nodes.set_and_swap(current, &mut slot);
                let node = slot.unwrap();
                proof {
                    let c = current as int;
                    lemma_contents_update(before, c, None);
                    assert forall|v: (K, V, u32)| #[trigger] contents(self.nodes@).count(v)
                        == old(self).entries().remove(t).count(v) by {
                        assert(contents(self.nodes@).add(entry_of(removed)).count(v)
                            == contents(before).add(entry_of(None::<Node<K, V>>)).count(v));
                    }
                    assert(contents(self.nodes@) =~= old(self).entries().remove(t));
                    assert(old(self).entries().remove(t).len() == old(self).entries().len() - 1);
                    assert(self.number_of_items == contents(self.nodes@).len());
                    assert forall|i: int| 0 <= i < self.size() implies #[trigger] self.slot_ok(i) by {
                        if i != c {
                            assert(s0.pos_ok(i));
                            assert(self.nodes@[i] == before[i]);
                            if i != next as int {
                                assert(s0.prev_ok(i));
                                if prev_slot(i, nn) != c {
                                    assert(self.nodes@[prev_slot(i, nn)] == before[prev_slot(i, nn)]);
                                } else {
                                    lemma_next_of(i + nn - 1, nn);
                                    vstd::arithmetic::div_mod::lemma_mod_add_multiples_vanish(i, nn);
                                    vstd::arithmetic::div_mod::lemma_small_mod(i as nat, n as nat);
                                    assert(i == (c + 1) % nn);
                                }
                            }
                        }
                    }
                }
                return node.value;
            }
            let ghost before = self.nodes@;
            let ghost s0 = *self;
            let mut moved: Option<Node<K, V>> = None;
            self.nodes.set_and_swap(next, &mut moved);
            let mut m = moved.unwrap();
            let ghost m_old = m;
            m.distance_to_initial_bucket = m.distance_to_initial_bucket - 1;
            let mut slot = Some(m);
            self.nodes.set_and_swap(current, &mut slot);
            self.nodes.set(next, slot);
            proof {
                let c = current as int;
                let nx = next as int;
                let mid = before.update(nx, None);
                assert(e != c && e != nx);
                vstd::arithmetic::div_mod::lemma_small_mod(c as nat, n as nat);
                lemma_mod_apart(c, c + 1, nn);
                assert(c != nx);
                lemma_contents_update(before, nx, None);
                lemma_contents_update(mid, c, Some(m));
                assert(mid.update(c, Some(m))[nx] is None);
                lemma_contents_update(mid.update(c, Some(m)), nx, removed);
                assert(self.nodes@ =~= mid.update(c, Some(m)).update(nx, removed));
                assert(entry_of(Some(m)) == entry_of(Some(m_old)));
                let b = mid.update(c, Some(m));
                assert(mid[c] == removed);
                assert(b[nx] is None);
                assert forall|v: (K, V, u32)| #[trigger] contents(self.nodes@).count(v)
                    == contents(before).count(v) by {
                    assert(contents(mid).add(entry_of(before[nx])).count(v) == contents(before).add(
                        entry_of(None::<Node<K, V>>),
                    ).count(v));
                    assert(contents(b).add(entry_of(mid[c])).count(v) == contents(mid).add(
                        entry_of(Some(m)),
                    ).count(v));
                    assert(contents(self.nodes@).add(entry_of(b[nx])).count(v) == contents(b).add(
                        entry_of(removed),
                    ).count(v));
                }
                assert(contents(self.nodes@) =~= old(self).entries());
                // the positions around the hole
                assert(nn >= 3);
                let nx2 = (nx + 1) % nn;
                let pc = prev_slot(c, nn);
                lemma_next_of(c + 1, nn);
                lemma_mod_apart(c, c + 2, nn);
                lemma_mod_apart(c + 1, c + nn - 1, nn);
                lemma_mod_apart(c, c + nn - 1, nn);
                lemma_prev_of(c + 1, nn);
                lemma_prev_of(nx + 1, nn);
                vstd::arithmetic::div_mod::lemma_small_mod(nx as nat, n as nat);
                assert(prev_slot(nx, nn) == c);
                assert(prev_slot(nx2, nn) == nx);
                assert(nx2 != c && nx2 != nx);
                assert(pc != nx && pc != c);
                assert(0 <= nx2 < nn);
                // the entry moved back sits one nearer its bucket
                assert(s0.pos_ok(nx));
                let hm = m_old.hash as int % nn;
                let dn = m_old.distance_to_initial_bucket as int;
                lemma_prev_of(hm + dn, nn);
                assert(self.nodes@[c] == Some(m));
                assert(self.nodes@[nx] == removed);
                assert forall|i: int| 0 <= i < nn && i != nx implies #[trigger] self.pos_ok(i) by {
                    if i != c {
                        assert(s0.pos_ok(i));
                        assert(self.nodes@[i] == before[i]);
                    }
                }
                assert forall|i: int| 0 <= i < nn && i != nx && i != nx2 implies #[trigger] self.prev_ok(i) by {
                    lemma_prev_then_next(i, nn);
                    if i == c {
                        assert(self.nodes@[pc] == before[pc]);
                    } else {
                        assert(s0.prev_ok(i));
                        assert(self.nodes@[i] == before[i]);
                        assert(prev_slot(i, nn) != c);
                        assert(prev_slot(i, nn) != nx);
                        assert(self.nodes@[prev_slot(i, nn)] == before[prev_slot(i, nn)]);
                    }
                }
                assert(s0.prev_ok(nx2));
                assert(self.nodes@[nx2] == before[nx2]);
            }
            proof {
                lemma_next_of(location + k, nn);
                assert(next as int == (location + (k + 1)) % nn);
                if k + 1 == m0 {
                    assert(next as int == e);
                    assert(false);
                }
            }
            current = next;
            proof {
                k = k + 1;
            }
        }
    }

    /// A table of `new_size` slots holding the same entries, each inserted
    /// afresh in slot order; this table is left without slots.
    fn resized_to(&mut self, new_size: usize) -> (r: Self)
        requires
            old(self).wf(),
            is_pow2(new_size),
            new_size <= MAX_SLOTS,
            new_size >= old(self).size(),
        ensures
            r.wf(),
            r.size() == new_size,
            r.entries() == old(self).entries(),
            r.len_spec() == old(self).len_spec(),
            r.capacity_spec() == number_before_resize_spec(new_size as int),
    {
        let mut new_node_storage = Self::with_size(new_size);
        let mut old_nodes: Vec<Option<Node<K, V>>> = Vec::new();
        std::mem::swap(&mut old_nodes, &mut self.nodes);
        let ghost orig = old_nodes@;
        let n = old_nodes.len();
        let mut i: usize = 0;
        while i < n
            invariant
                n == orig.len(),
                orig == old(self).nodes@,
                old(self).wf(),
                old_nodes@.len() == n,
                i <= n,
                forall|j: int| i <= j < n ==> old_nodes@[j] == orig[j],
                new_node_storage.wf(),
                new_node_storage.size() == new_size,
                new_node_storage.capacity_spec() == number_before_resize_spec(new_size as int),
                new_node_storage.entries() == contents(orig.subrange(0, i as int)),
                new_node_storage.len_spec() == contents(orig.subrange(0, i as int)).len(),
                new_size >= n,
            decreases n - i,
        {
            let mut slot: Option<Node<K, V>> = None;
            old_nodes.set_and_swap(i, &mut slot);
            proof {
                assert(orig.subrange(0, i + 1).drop_last() =~= orig.subrange(0, i as int));
                assert(orig.subrange(0, i + 1).last() == orig[i as int]);
                lemma_contents_prefix_len(orig, i + 1);
            }
            match slot {
                Some(node) => {
                    new_node_storage.insert_new(node.key, node.value, node.hash);
                },
                None => {},
            }
            i = i + 1;
        }
        proof {
            assert(orig.subrange(0, n as int) =~= orig);
        }
        new_node_storage
    }

    /// The (key, value) pairs held, in slot order.
    pub closed spec fn pairs(self) -> Seq<(K, V)> {
        occupied_pairs(self.nodes@)
    }

    /// Whether `k` and `v` are the key and value of some entry held.
    pub open spec fn holds_pair(self, k: K, v: V) -> bool {
        exists|h: u32| #[trigger] self.entries().count((k, v, h)) > 0
    }

    /// The keys and values held, in slot order, one pair per entry.
    pub fn iter(&self) -> (r: Vec<(&K, &V)>)
        requires
            self.wf(),
        ensures
            r@.len() == self.pairs().len(),
            r@.len() == self.entries().len(),
            forall|i: int| 0 <= i < r@.len() ==> self.holds_pair(*(#[trigger] r@[i]).0, *r@[i].1),
            forall|i: int|
                0 <= i < r@.len() ==> *(#[trigger] r@[i]).0 == self.pairs()[i].0 && *r@[i].1
                    == self.pairs()[i].1,
    {
        let mut out: Vec<(&K, &V)> = Vec::new();
        let mut i: usize = 0;
        while i < self.nodes.len()
            invariant
                i <= self.nodes@.len(),
                out@.len() == occupied_pairs(self.nodes@.subrange(0, i as int)).len(),
                forall|j: int|
                    0 <= j < out@.len() ==> *(#[trigger] out@[j]).0 == occupied_pairs(
                        self.nodes@.subrange(0, i as int),
                    )[j].0 && *out@[j].1 == occupied_pairs(self.nodes@.subrange(0, i as int))[j].1,
            decreases self.nodes@.len() - i,
        {
            proof {
                assert(self.nodes@.subrange(0, i + 1).drop_last() =~= self.nodes@.subrange(0, i as int));
                assert(self.nodes@.subrange(0, i + 1).last() == self.nodes@[i as int]);
            }
            match &self.nodes[i] {
                Some(node) => {
                    out.push((&node.key, &node.value));
                },
                None => {},
            }
            i = i + 1;
        }
        proof {
            assert(self.nodes@.subrange(0, self.nodes@.len() as int) =~= self.nodes@);
            lemma_occupied_pairs_len(self.nodes@);
            assert forall|i: int| 0 <= i < out@.len() implies self.holds_pair(*(#[trigger] out@[i]).0, *out@[i].1) by {
                lemma_pairs_held(self.nodes@, i);
                let pr = occupied_pairs(self.nodes@)[i];
                let h = choose|h: u32| #[trigger] contents(self.nodes@).count((pr.0, pr.1, h)) > 0;
                assert(*out@[i].0 == pr.0 && *out@[i].1 == pr.1);
                assert(self.entries().count((*out@[i].0, *out@[i].1, h)) > 0);
            }
        }
        out
    }

    /// The number of entries it takes before the table grows.
    pub fn capacity(&self) -> (r: usize)
        ensures
            r == self.capacity_spec(),
    {
        self.max_number_before_resize
    }

    /// The number of slots.
    pub fn backing_vec_size(&self) -> (r: usize)
        ensures
            r == self.size(),
    {
        self.nodes.len()
    }

    /// The number of entries.
    pub fn len(&self) -> (r: usize)
        requires
            self.wf(),
        ensures
            r == self.len_spec(),
            r == self.entries().len(),
    {
        self.number_of_items
    }
}

impl<K: PartialEq, V> NodeStorage<K, V> {
    /// The slot holding `key`, probing from the bucket of `hash` up to the
    /// largest distance and stopping at an empty slot.
    pub fn location(&self, key: &K, hash: u32) -> (r: Option<usize>)
        requires
            self.wf(),
            key_eq_is_identity::<K>(),
        ensures
            match r {
                Some(p) => self.probe(*key, hash, 0) == Some(p as int),
                None => self.probe(*key, hash, 0) is None,
            },
    {
        let n = self.nodes.len();
        let home = (hash as usize) % n;
        let mut d: usize = 0;
        while d <= self.max_distance_to_initial_bucket
            invariant
                self.wf(),
                key_eq_is_identity::<K>(),
                n == self.size(),
                home == hash as int % n as int,
                d <= self.max_dist() + 1,
                self.probe(*key, hash, 0) == self.probe(*key, hash, d as int),
            decreases self.max_dist() + 1 - d,
        {
            let location = (home + d) % n;
            match &self.nodes[location] {
                None => {
                    return None;
                },
                Some(node) => {
                    let same = node.key == *key;
                    if same {
                        return Some(location);
                    }
                },
            }
            d = d + 1;
        }
        None
    }

    /// What setting `key`, whose hash is `hash`, to `value` does to the table
    /// `old`, giving `new` and returning `r`: a key found by a lookup with
    /// `hash` gets the new key and value, and its old value is returned;
    /// otherwise the entry is added. With distinct keys and every entry for
    /// `key` hashing to `hash`, the map gains `key` with `value`, the keys
    /// stay distinct and every other key keeps its entries.
    pub open spec fn inserted(old: Self, new: Self, key: K, value: V, hash: u32, r: Option<V>) -> bool {
        &&& new.wf()
        &&& match old.probe(key, hash, 0) {
            Some(p) => {
                &&& r == Some(old.value_at(p))
                &&& new.entries() == old.entries().remove(old.triple_at(p)).insert(
                    (key, value, old.hash_at(p)),
                )
            },
            None => {
                &&& r is None
                &&& new.entries() == old.entries().insert((key, value, hash))
            },
        }
        &&& distinct_keys(old.entries()) && hashes_to(old.entries(), key, hash) ==> {
            &&& distinct_keys(new.entries())
            &&& map_of(new.entries()) == map_of(old.entries()).insert(key, value)
            &&& r == (if map_of(old.entries()).contains_key(key) {
                Some(map_of(old.entries())[key])
            } else {
                None
            })
            &&& hashes_to(new.entries(), key, hash)
            &&& forall|k: K, h: u32|
                k != key ==> hashes_to(new.entries(), k, h) == hashes_to(old.entries(), k, h)
        }
    }

    /// What a lookup of `key` with hash `hash` in `s` returns: the value of
    /// the slot found. With distinct keys and every entry for `key` hashing
    /// to `hash`, the value the map holds for `key`, if any.
    pub open spec fn found(s: Self, key: K, hash: u32, r: Option<&V>) -> bool {
        &&& match s.probe(key, hash, 0) {
            Some(p) => r matches Some(v) && *v == s.value_at(p),
            None => r is None,
        }
        &&& distinct_keys(s.entries()) && hashes_to(s.entries(), key, hash) ==> {
            &&& r is Some <==> map_of(s.entries()).contains_key(key)
            &&& r matches Some(v) ==> *v == map_of(s.entries())[key]
        }
    }

    /// What a lookup of the key and value of `key` with hash `hash` in `s`
    /// returns: those of the slot found.
    pub open spec fn found_key_value(s: Self, key: K, hash: u32, r: Option<(&K, &V)>) -> bool {
        &&& match s.probe(key, hash, 0) {
            Some(p) => r matches Some(kv) && *kv.0 == s.key_at(p) && *kv.1 == s.value_at(p),
            None => r is None,
        }
        &&& distinct_keys(s.entries()) && hashes_to(s.entries(), key, hash) ==> {
            &&& r is Some <==> map_of(s.entries()).contains_key(key)
            &&& r matches Some(kv) ==> *kv.0 == key && *kv.1 == map_of(s.entries())[key]
        }
    }

    /// What removing `key`, whose hash is `hash`, from `old` does, giving
    /// `new` and returning `r`: the entry a lookup finds is taken out and its
    /// value returned. With distinct keys and every entry for `key` hashing
    /// to `hash`, the map loses `key` and every other key keeps its entries.
    pub open spec fn removed(old: Self, new: Self, key: K, hash: u32, r: Option<V>) -> bool {
        &&& new.wf()
        &&& new.size() == old.size()
        &&& match old.probe(key, hash, 0) {
            Some(p) => {
                &&& r == Some(old.value_at(p))
                &&& new.entries() == old.entries().remove(old.triple_at(p))
            },
            None => {
                &&& r is None
                &&& new.entries() == old.entries()
            },
        }
        &&& distinct_keys(old.entries()) && hashes_to(old.entries(), key, hash) ==> {
            &&& distinct_keys(new.entries())
            &&& map_of(new.entries()) == map_of(old.entries()).remove(key)
            &&& r == (if map_of(old.entries()).contains_key(key) {
                Some(map_of(old.entries())[key])
            } else {
                None
            })
            &&& forall|k: K, h: u32|
                k != key ==> hashes_to(new.entries(), k, h) == hashes_to(old.entries(), k, h)
        }
    }

    /// A lookup of a key just set, with the hash it was set with, gives the
    /// value set, when the keys were distinct and every entry for the key
    /// hashed to that hash.
    pub proof fn lemma_get_after_insert(
        old: Self,
        new: Self,
        key: K,
        value: V,
        h: u32,
        r: Option<V>,
        got: Option<&V>,
    )
        requires
            Self::inserted(old, new, key, value, h, r),
            distinct_keys(old.entries()),
            hashes_to(old.entries(), key, h),
            Self::found(new, key, h, got),
        ensures
            got matches Some(v) && *v == value,
    {
        assert(map_of(new.entries()).contains_key(key));
    }

    /// Setting a key leaves what a lookup of any other key gives, when the
    /// keys were distinct and every entry for each key hashed to the hash it
    /// is looked up with.
    pub proof fn lemma_insert_keeps_others(
        old: Self,
        new: Self,
        key: K,
        value: V,
        h: u32,
        r: Option<V>,
        other: K,
        h2: u32,
        before: Option<&V>,
        after: Option<&V>,
    )
        requires
            Self::inserted(old, new, key, value, h, r),
            distinct_keys(old.entries()),
            hashes_to(old.entries(), key, h),
            other != key,
            hashes_to(old.entries(), other, h2),
            Self::found(old, other, h2, before),
            Self::found(new, other, h2, after),
        ensures
            before is Some <==> after is Some,
            before matches Some(b) ==> after matches Some(a) && *a == *b,
    {
        assert(hashes_to(new.entries(), other, h2));
        assert(map_of(new.entries()).contains_key(other) == map_of(old.entries()).contains_key(other));
    }

    /// After removing a key, a lookup of it with the same hash finds
    /// nothing, when the keys were distinct and every entry for the key hashed
    /// to that hash.
    pub proof fn lemma_get_after_remove(
        old: Self,
        new: Self,
        key: K,
        h: u32,
        r: Option<V>,
        got: Option<&V>,
    )
        requires
            Self::removed(old, new, key, h, r),
            distinct_keys(old.entries()),
            hashes_to(old.entries(), key, h),
            Self::found(new, key, h, got),
        ensures
            got is None,
    {
        assert(!map_of(new.entries()).contains_key(key));
        assert forall|a: (K, V, u32)| #[trigger] new.entries().count(a) > 0 && a.0 == key implies a.2 == h by {
            assert(has_key(new.entries(), key));
        }
    }

    /// Replaces the key and value in slot `location`, keeping its hash and
    /// place; returns the value replaced.
    fn replace_at_location(&mut self, location: usize, key: K, value: V) -> (r: V)
        requires
            old(self).wf(),
            location < old(self).size(),
            old(self).occupied(location as int),
        ensures
            final(self).wf(),
            final(self).size() == old(self).size(),
            final(self).len_spec() == old(self).len_spec(),
            final(self).capacity_spec() == old(self).capacity_spec(),
            r == old(self).value_at(location as int),
            final(self).entries() == old(self).entries().remove(old(self).triple_at(location as int)).insert(
                (key, value, old(self).hash_at(location as int)),
            ),
            final(self).occupied(location as int),
            final(self).triple_at(location as int) == (key, value, old(self).hash_at(location as int)),
    {
        let ghost before = self.nodes@;
        let ghost s0 = *self;
        let mut slot: Option<Node<K, V>> = None;
        self.nodes.set_and_swap(location, &mut slot);
        let node = slot.unwrap();
        let new_node = Node {
            hash: node.hash,
            distance_to_initial_bucket: node.distance_to_initial_bucket,
            key,
            value,
        };
        let ghost mid = self.nodes@;
        self.nodes.set(location, Some(new_node));
        proof {
            let l = location as int;
            let t = s0.triple_at(l);
            let t2 = (key, value, s0.hash_at(l));
            lemma_contents_update(before, l, None);
            lemma_contents_update(mid, l, Some(new_node));
            assert(mid[l] is None);
            lemma_contents_one(before, l);
            assert forall|v: (K, V, u32)| #[trigger] contents(self.nodes@).count(v)
                == s0.entries().remove(t).insert(t2).count(v) by {
                assert(contents(mid).add(entry_of(before[l])).count(v) == contents(before).add(
                    entry_of(None::<Node<K, V>>),
                ).count(v));
                assert(contents(self.nodes@).add(entry_of(mid[l])).count(v) == contents(mid).add(
                    entry_of(Some(new_node)),
                ).count(v));
            }
            assert(contents(self.nodes@) =~= s0.entries().remove(t).insert(t2));
            assert forall|i: int| 0 <= i < self.size() implies #[trigger] self.slot_ok(i) by {
                assert(s0.slot_ok(i));
                if i != l {
                    assert(self.nodes@[i] == before[i]);
                }
                if prev_slot(i, self.size()) != l {
                    assert(self.nodes@[prev_slot(i, self.size())] == before[prev_slot(i, self.size())]);
                }
            }
        }
        node.value
    }

    /// Sets `key`, whose hash is `hash`, to `value`. A key found by a lookup
    /// with `hash` gets the new key and value; otherwise the table first
    /// doubles its slots when it holds as many entries as it takes, and the
    /// entry is added. Returns the value replaced, if any. With distinct
    /// keys and every entry for `key` hashing to `hash`, the map gains `key`
    /// with `value` and every other key keeps its entry.
    pub fn insert_hashed(&mut self, key: K, value: V, hash: u32) -> (r: Option<V>)
        requires
            old(self).wf(),
            key_eq_is_identity::<K>(),
            old(self).len_spec() < old(self).capacity_spec() || 2 * old(self).size() <= MAX_SLOTS,
        ensures
            Self::inserted(*old(self), *final(self), key, value, hash, r),
    {
        let found = self.location(&key, hash);
        proof {
            if distinct_keys(old(self).entries()) && hashes_to(old(self).entries(), key, hash) {
                old(self).lemma_lookup(key, hash);
            }
            old(self).lemma_probe_holds_key(key, hash, 0);
        }
        match found {
            Some(location) => {
                let r = self.replace_at_location(location, key, value);
                proof {
                    let m = old(self).entries();
                    let t = old(self).triple_at(location as int);
                    if distinct_keys(m) && hashes_to(m, key, hash) {
                        lemma_take_entry(m, t);
                        lemma_add_entry(m.remove(t), (key, value, hash));
                        assert(map_of(m).remove(key).insert(key, value) =~= map_of(m).insert(key, value));
                    }
                }
                Some(r)
            },
            None => {
                if self.capacity() <= self.len() {
                    let new_size = self.nodes.len() * 2;
                    proof {
                        lemma_double_pow2(self.nodes@.len() as usize);
                    }
                    let resized = self.resized_to(new_size);
                    *self = resized;
                } else {
                    proof {
                        lemma_resize_below_size(self.size());
                    }
                }
                self.insert_new(key, value, hash);
                proof {
                    let m = old(self).entries();
                    if distinct_keys(m) && hashes_to(m, key, hash) {
                        lemma_add_entry(m, (key, value, hash));
                    }
                }
                None
            },
        }
    }

    /// The value a lookup of `key` with `hash` finds in `s`, if any.
    pub open spec fn replaced(s: Self, key: K, hash: u32) -> Option<V> {
        match s.probe(key, hash, 0) {
            Some(p) => Some(s.value_at(p)),
            None => None,
        }
    }

    /// Sets `key`, whose hash is `hash`, to `value` as `insert_hashed` does,
    /// and hands out the value in the slot it went to, to be changed in
    /// place: the table ends as if `key` had been set to the value the
    /// reference holds at the end.
    pub fn insert_and_get_hashed(&mut self, key: K, value: V, hash: u32) -> (r: &mut V)
        requires
            old(self).wf(),
            key_eq_is_identity::<K>(),
            old(self).len_spec() < old(self).capacity_spec() || 2 * old(self).size() <= MAX_SLOTS,
        ensures
            *r == value,
            Self::inserted(
                *old(self),
                *final(self),
                key,
                *final(r),
                hash,
                Self::replaced(*old(self), key, hash),
            ),
    {
        let ghost after = *final(self);
        let found = self.location(&key, hash);
        proof {
            if distinct_keys(old(self).entries()) && hashes_to(old(self).entries(), key, hash) {
                old(self).lemma_lookup(key, hash);
            }
            old(self).lemma_probe_holds_key(key, hash, 0);
        }
        let location = match found {
            Some(location) => {
                self.replace_at_location(location, key, value);
                location
            },
            None => {
                if self.capacity() <= self.len() {
                    let new_size = self.nodes.len() * 2;
                    proof {
                        lemma_double_pow2(self.nodes@.len() as usize);
                    }
                    let resized = self.resized_to(new_size);
                    *self = resized;
                } else {
                    proof {
                        lemma_resize_below_size(self.size());
                    }
                }
                self.insert_new(key, value, hash)
            },
        };
        let ghost mid = *self;
        let node = self.nodes[location].as_mut().unwrap();
        let v = &mut node.value;
        proof {
            let w = *final(v);
            let l = location as int;
            let m = old(self).entries();
            Self::lemma_value_changed(mid, after, l, w);
            let x = mid.triple_at(l);
            let y = (key, w, x.2);
            assert(mid.entries().remove(x) =~= (match found {
                Some(p) => m.remove(old(self).triple_at(p as int)),
                None => m,
            }));
            if distinct_keys(m) && hashes_to(m, key, hash) {
                match found {
                    Some(p) => {
                        let t = old(self).triple_at(p as int);
                        lemma_take_entry(m, t);
                        lemma_add_entry(m.remove(t), y);
                        assert(map_of(m).remove(key).insert(key, w) =~= map_of(m).insert(key, w));
                    },
                    None => {
                        lemma_add_entry(m, y);
                    },
                }
            }
        }
        v
    }

    /// The value of `key`, whose hash is `hash`, as a lookup with `hash`
    /// finds it. With distinct keys and every entry for `key` hashing to
    /// `hash`, the value the map holds for `key`, if any.
    pub fn get_hashed(&self, key: &K, hash: u32) -> (r: Option<&V>)
        requires
            self.wf(),
            key_eq_is_identity::<K>(),
        ensures
            Self::found(*self, *key, hash, r),
    {
        let found = self.location(key, hash);
        proof {
            if distinct_keys(self.entries()) && hashes_to(self.entries(), *key, hash) {
                self.lemma_lookup(*key, hash);
            }
            self.lemma_probe_holds_key(*key, hash, 0);
        }
        match found {
            Some(location) => match &self.nodes[location] {
                Some(node) => Some(&node.value),
                None => None,
            },
            None => None,
        }
    }

    /// Whether `new` is `old` with the value in slot `p` replaced by
    /// `value`.
    pub closed spec fn value_changed(old: Self, new: Self, p: int, value: V) -> bool {
        &&& new.nodes@ == old.nodes@.update(
            p,
            Some(Node { value, ..old.nodes@[p]->Some_0 }),
        )
        &&& new.max_distance_to_initial_bucket == old.max_distance_to_initial_bucket
        &&& new.number_of_items == old.number_of_items
        &&& new.max_number_before_resize == old.max_number_before_resize
    }

    /// Changing the value in an occupied slot keeps the table well formed
    /// and swaps that entry's value.
    pub proof fn lemma_value_changed(old: Self, new: Self, p: int, value: V)
        requires
            old.wf(),
            0 <= p < old.size(),
            old.occupied(p),
            Self::value_changed(old, new, p, value),
        ensures
            new.wf(),
            new.size() == old.size(),
            new.len_spec() == old.len_spec(),
            new.capacity_spec() == old.capacity_spec(),
            new.entries() == old.entries().remove(old.triple_at(p)).insert(
                (old.key_at(p), value, old.hash_at(p)),
            ),
    {
        let n2 = Node { value, ..old.nodes@[p]->Some_0 };
        lemma_contents_update(old.nodes@, p, Some(n2));
        lemma_contents_one(old.nodes@, p);
        let t = old.triple_at(p);
        let t2 = (old.key_at(p), value, old.hash_at(p));
        assert forall|v: (K, V, u32)| #[trigger] contents(new.nodes@).count(v)
            == old.entries().remove(t).insert(t2).count(v) by {
            assert(contents(new.nodes@).add(entry_of(old.nodes@[p])).count(v) == contents(
                old.nodes@,
            ).add(entry_of(Some(n2))).count(v));
        }
        assert(contents(new.nodes@) =~= old.entries().remove(t).insert(t2));
        assert forall|i: int| 0 <= i < new.size() implies #[trigger] new.slot_ok(i) by {
            assert(old.slot_ok(i));
            if i != p {
                assert(new.nodes@[i] == old.nodes@[i]);
            }
            if prev_slot(i, new.size()) != p {
                assert(new.nodes@[prev_slot(i, new.size())] == old.nodes@[prev_slot(i, new.size())]);
            }
        }
    }

    /// Whether a lookup of `key` with `hash` in `old` finds a slot that
    /// held `before`, and `new` is `old` with that value replaced by
    /// `after`: a well formed table where, with distinct keys and every
    /// entry for `key` hashing to `hash`, the map read `before` for `key`
    /// and now reads `after`.
    pub open spec fn changed_at_probe(old: Self, new: Self, key: K, hash: u32, before: V, after: V) -> bool {
        &&& old.probe(key, hash, 0) is Some
        &&& before == old.value_at(old.probe(key, hash, 0)->Some_0)
        &&& Self::value_changed(old, new, old.probe(key, hash, 0)->Some_0, after)
        &&& new.wf()
        &&& distinct_keys(old.entries()) && hashes_to(old.entries(), key, hash) ==> {
            &&& distinct_keys(new.entries())
            &&& map_of(old.entries()).contains_key(key)
            &&& map_of(old.entries())[key] == before
            &&& map_of(new.entries()) == map_of(old.entries()).insert(key, after)
        }
    }

    /// Changing the value of the slot a lookup of `key` finds changes the
    /// value the map reads for `key`, and nothing else.
    pub proof fn lemma_changed_at_probe(old: Self, new: Self, key: K, hash: u32, after: V)
        requires
            old.wf(),
            key_eq_is_identity::<K>(),
            old.probe(key, hash, 0) is Some,
            Self::value_changed(old, new, old.probe(key, hash, 0)->Some_0, after),
        ensures
            Self::changed_at_probe(
                old,
                new,
                key,
                hash,
                old.value_at(old.probe(key, hash, 0)->Some_0),
                after,
            ),
    {
        let p = old.probe(key, hash, 0)->Some_0;
        old.lemma_probe_holds_key(key, hash, 0);
        Self::lemma_value_changed(old, new, p, after);
        if distinct_keys(old.entries()) && hashes_to(old.entries(), key, hash) {
            old.lemma_lookup(key, hash);
            let t = old.triple_at(p);
            lemma_take_entry(old.entries(), t);
            lemma_add_entry(old.entries().remove(t), (key, after, hash));
            assert(new.entries() == old.entries().remove(t).insert((key, after, hash)));
            lemma_map_of_entry(old.entries(), t);
            assert(map_of(old.entries()).remove(key).insert(key, after) =~= map_of(old.entries()).insert(key, after));
        }
    }

    /// The value of the entry a lookup of `key` with `hash` finds, to be
    /// changed in place.
    pub fn get_mut_hashed(&mut self, key: &K, hash: u32) -> (r: Option<&mut V>)
        requires
            old(self).wf(),
            key_eq_is_identity::<K>(),
        ensures
            match r {
                Some(v) => Self::changed_at_probe(*old(self), *final(self), *key, hash, *v, *final(v)),
                None => old(self).probe(*key, hash, 0) is None && *final(self) == *old(self),
            },
            final(self).wf(),
    {
        let ghost after = *final(self);
        let found = self.location(key, hash);
        proof {
            old(self).lemma_probe_holds_key(*key, hash, 0);
        }
        match found {
            Some(location) => match &mut self.nodes[location] {
                Some(node) => {
                    let v = &mut node.value;
                    proof {
                        Self::lemma_changed_at_probe(*old(self), after, *key, hash, *final(v));
                    }
                    Some(v)
                },
                None => None,
            },
            None => None,
        }
    }

    /// The key and value of `key`, whose hash is `hash`, as a lookup with
    /// `hash` finds them.
    pub fn get_key_value_hashed(&self, key: &K, hash: u32) -> (r: Option<(&K, &V)>)
        requires
            self.wf(),
            key_eq_is_identity::<K>(),
        ensures
            Self::found_key_value(*self, *key, hash, r),
    {
        let found = self.location(key, hash);
        proof {
            if distinct_keys(self.entries()) && hashes_to(self.entries(), *key, hash) {
                self.lemma_lookup(*key, hash);
            }
            self.lemma_probe_holds_key(*key, hash, 0);
        }
        match found {
            Some(location) => match &self.nodes[location] {
                Some(node) => Some((&node.key, &node.value)),
                None => None,
            },
            None => None,
        }
    }

    /// Takes out the entry a lookup of `key` with `hash` finds, returning
    /// its value. With distinct keys and every entry for `key` hashing to
    /// `hash`, the map loses `key` and every other key keeps its entry.
    pub fn remove_hashed(&mut self, key: &K, hash: u32) -> (r: Option<V>)
        requires
            old(self).wf(),
            key_eq_is_identity::<K>(),
        ensures
            Self::removed(*old(self), *final(self), *key, hash, r),
    {
        let found = self.location(key, hash);
        proof {
            if distinct_keys(old(self).entries()) && hashes_to(old(self).entries(), *key, hash) {
                old(self).lemma_lookup(*key, hash);
            }
            old(self).lemma_probe_holds_key(*key, hash, 0);
        }
        match found {
            Some(location) => {
                let r = self.remove_from_location(location);
                proof {
                    let m = old(self).entries();
                    if distinct_keys(m) && hashes_to(m, *key, hash) {
                        lemma_take_entry(m, old(self).triple_at(location as int));
                    }
                }
                Some(r)
            },
            None => {
                proof {
                    if distinct_keys(old(self).entries()) && hashes_to(old(self).entries(), *key, hash) {
                        assert(map_of(old(self).entries()).remove(*key) =~= map_of(old(self).entries()));
                    }
                }
                None
            },
        }
    }
}

/// A hash map from `K` to `V`, hashing keys with rustc-hash's `FxHasher`.
pub struct HashMap<K, V> {
    nodes: NodeStorage<K, V>,
}

impl<K, V> HashMap<K, V> {
    /// The table of slots.
    pub closed spec fn storage(self) -> NodeStorage<K, V> {
        self.nodes
    }

    /// The table is well formed.
    pub open spec fn wf(self) -> bool {
        self.storage().wf()
    }

    /// The entries held, as (key, value, hash) triples.
    pub open spec fn entries(self) -> Multiset<(K, V, u32)> {
        self.storage().entries()
    }

    /// An empty map with 16 slots.
    pub fn new() -> (r: Self)
        ensures
            r.wf(),
            r.entries() == Multiset::<(K, V, u32)>::empty(),
            r.storage().size() == 16,
            r.storage().capacity_spec() == number_before_resize_spec(16),
    {
        assert(is_pow2(16usize)) by (bit_vector);
        Self::with_size(16)
    }

    /// An empty map with `size` slots, a power of two.
    pub fn with_size(size: usize) -> (r: Self)
        requires
            is_pow2(size),
            size <= MAX_SLOTS,
        ensures
            r.wf(),
            r.entries() == Multiset::<(K, V, u32)>::empty(),
            r.storage().size() == size,
            r.storage().capacity_spec() == number_before_resize_spec(size as int),
    {
        HashMap { nodes: NodeStorage::with_size(size) }
    }

    /// An empty map taking at least `capacity` entries before it grows: its
    /// slots are the smallest power of two of which 85% exceeds `capacity`.
    pub fn with_capacity(capacity: usize) -> (r: Self)
        requires
            capacity < number_before_resize_spec(MAX_SLOTS as int),
        ensures
            r.wf(),
            r.entries() == Multiset::<(K, V, u32)>::empty(),
            r.storage().size() == slots_for(capacity as int, 1),
            r.storage().capacity_spec() == number_before_resize_spec(r.storage().size()),
            r.storage().capacity_spec() > capacity,
            r.storage().size() == 1 || number_before_resize_spec(r.storage().size() / 2) <= capacity,
    {
        let mut attempted_size: usize = 1;
        assert(is_pow2(1usize)) by (bit_vector);
        while number_before_resize(attempted_size) <= capacity
            invariant
                is_pow2(attempted_size),
                1 <= attempted_size <= MAX_SLOTS,
                capacity < number_before_resize_spec(MAX_SLOTS as int),
                attempted_size == 1 || number_before_resize_spec(attempted_size as int / 2) <= capacity,
                slots_for(capacity as int, attempted_size as int) == slots_for(capacity as int, 1),
            decreases MAX_SLOTS - attempted_size,
        {
            if attempted_size >= MAX_SLOTS {
                assert(false);
            }
            proof {
                lemma_double_pow2(attempted_size);
                lemma_pow2_below(attempted_size);
            }
            attempted_size = attempted_size * 2;
        }
        Self::with_size(attempted_size)
    }

    /// The number of entries.
    pub fn len(&self) -> (r: usize)
        requires
            self.wf(),
        ensures
            r == self.entries().len(),
    {
        self.nodes.len()
    }

    /// The number of entries the map takes before it grows.
    pub fn capacity(&self) -> (r: usize)
        ensures
            r == self.storage().capacity_spec(),
    {
        self.nodes.capacity()
    }

    /// Whether the map holds no entry.
    pub fn is_empty(&self) -> (r: bool)
        requires
            self.wf(),
        ensures
            r == (self.entries().len() == 0),
    {
        self.len() == 0
    }

    /// The keys and values held, one pair per entry.
    pub fn iter(&self) -> (r: Vec<(&K, &V)>)
        requires
            self.wf(),
        ensures
            r@.len() == self.entries().len(),
            forall|i: int|
                0 <= i < r@.len() ==> *(#[trigger] r@[i]).0 == self.storage().pairs()[i].0
                    && *r@[i].1 == self.storage().pairs()[i].1,
            forall|i: int| 0 <= i < r@.len() ==> self.storage().holds_pair(*(#[trigger] r@[i]).0, *r@[i].1),
    {
        self.nodes.iter()
    }

    /// The keys held, one per entry.
    pub fn keys(&self) -> (r: Vec<&K>)
        requires
            self.wf(),
        ensures
            r@.len() == self.entries().len(),
            forall|i: int| 0 <= i < r@.len() ==> *(#[trigger] r@[i]) == self.storage().pairs()[i].0,
    {
        let pairs = self.iter();
        let mut out: Vec<&K> = Vec::new();
        let mut i: usize = 0;
        while i < pairs.len()
            invariant
                i <= pairs@.len(),
                out@.len() == i,
                forall|j: int| 0 <= j < i ==> *(#[trigger] out@[j]) == *pairs@[j].0,
            decreases pairs@.len() - i,
        {
            out.push(pairs[i].0);
            i = i + 1;
        }
        out
    }

    /// The values held, one per entry.
    pub fn values(&self) -> (r: Vec<&V>)
        requires
            self.wf(),
        ensures
            r@.len() == self.entries().len(),
            forall|i: int| 0 <= i < r@.len() ==> *(#[trigger] r@[i]) == self.storage().pairs()[i].1,
    {
        let pairs = self.iter();
        let mut out: Vec<&V> = Vec::new();
        let mut i: usize = 0;
        while i < pairs.len()
            invariant
                i <= pairs@.len(),
                out@.len() == i,
                forall|j: int| 0 <= j < i ==> *(#[trigger] out@[j]) == *pairs@[j].1,
            decreases pairs@.len() - i,
        {
            out.push(pairs[i].1);
            i = i + 1;
        }
        out
    }

    /// Takes out every entry, keeping the number of slots.
    pub fn clear(&mut self)
        requires
            old(self).wf(),
        ensures
            final(self).wf(),
            final(self).entries() == Multiset::<(K, V, u32)>::empty(),
            final(self).storage().size() == old(self).storage().size(),
    {
        self.nodes = NodeStorage::with_size(self.nodes.backing_vec_size());
    }
}

impl<K: PartialEq + Hash, V> HashMap<K, V> {
    /// The hash of `key`: rustc-hash's `FxHasher` fed with the key, cut to
    /// 32 bits. Nothing is stated of the value, which depends on the width
    /// of the machine's words as well as on the key.
    #[verifier::external_body]
    fn hash(&self, key: &K) -> (r: u32) {
        let mut hasher = rustc_hash::FxHasher::default();
        key.hash(&mut hasher);
        hasher.finish() as u32
    }

    /// Sets `key` to `value`, returning the value it had: the table's
    /// `insert_hashed` with the hash of `key`.
    pub fn insert(&mut self, key: K, value: V) -> (r: Option<V>)
        requires
            old(self).wf(),
            key_eq_is_identity::<K>(),
            old(self).storage().len_spec() < old(self).storage().capacity_spec() || 2
                * old(self).storage().size() <= MAX_SLOTS,
        ensures
            final(self).wf(),
            exists|h: u32|
                NodeStorage::inserted(old(self).storage(), final(self).storage(), key, value, h, r),
    {
        let hash = self.hash(&key);
        let r = self.nodes.insert_hashed(key, value, hash);
        assert(NodeStorage::inserted(old(self).storage(), self.storage(), key, value, hash, r));
        r
    }

    /// Whether the map holds `key`, as a lookup with its hash finds it.
    pub fn contains_key(&self, k: &K) -> (r: bool)
        requires
            self.wf(),
            key_eq_is_identity::<K>(),
        ensures
            exists|h: u32| r == self.storage().probe(*k, h, 0) is Some,
    {
        let hash = self.hash(k);
        let found = self.nodes.get_hashed(k, hash);
        found.is_some()
    }

    /// The key and value held for `key`, as a lookup with its hash finds
    /// them.
    pub fn get_key_value(&self, key: &K) -> (r: Option<(&K, &V)>)
        requires
            self.wf(),
            key_eq_is_identity::<K>(),
        ensures
            exists|h: u32| NodeStorage::found_key_value(self.storage(), *key, h, r),
    {
        let hash = self.hash(key);
        self.nodes.get_key_value_hashed(key, hash)
    }

    /// The value held for `key`, as a lookup with its hash finds it.
    pub fn get(&self, key: &K) -> (r: Option<&V>)
        requires
            self.wf(),
            key_eq_is_identity::<K>(),
        ensures
            exists|h: u32| NodeStorage::found(self.storage(), *key, h, r),
    {
        let hash = self.hash(key);
        self.nodes.get_hashed(key, hash)
    }

    /// `get_mut_hashed` on the table, stated over `storage()`.
    fn get_mut_with(&mut self, key: &K, hash: u32) -> (r: Option<&mut V>)
        requires
            old(self).wf(),
            key_eq_is_identity::<K>(),
        ensures
            match r {
                Some(v) => NodeStorage::changed_at_probe(
                    old(self).storage(),
                    final(self).storage(),
                    *key,
                    hash,
                    *v,
                    *final(v),
                ),
                None => old(self).storage().probe(*key, hash, 0) is None && *final(self) == *old(self),
            },
            final(self).wf(),
    {
        self.nodes.get_mut_hashed(key, hash)
    }

    /// The value held for `key`, as a lookup with its hash finds it, to be
    /// changed in place.
    pub fn get_mut(&mut self, key: &K) -> (r: Option<&mut V>)
        requires
            old(self).wf(),
            key_eq_is_identity::<K>(),
        ensures
            match r {
                Some(v) => exists|h: u32| #[trigger]
                    NodeStorage::changed_at_probe(
                        old(self).storage(),
                        final(self).storage(),
                        *key,
                        h,
                        *v,
                        *final(v),
                    ),
                None => *final(self) == *old(self) && exists|h: u32|
                    #[trigger] old(self).storage().probe(*key, h, 0) is None,
            },
            final(self).wf(),
    {
        let hash = self.hash(key);
        self.get_mut_with(key, hash)
    }

    /// `insert_and_get_hashed` on the table, stated over `storage()`.
    fn insert_and_get_with(&mut self, key: K, value: V, hash: u32) -> (r: &mut V)
        requires
            old(self).wf(),
            key_eq_is_identity::<K>(),
            old(self).storage().len_spec() < old(self).storage().capacity_spec() || 2
                * old(self).storage().size() <= MAX_SLOTS,
        ensures
            *r == value,
            NodeStorage::inserted(
                old(self).storage(),
                final(self).storage(),
                key,
                *final(r),
                hash,
                NodeStorage::replaced(old(self).storage(), key, hash),
            ),
    {
        self.nodes.insert_and_get_hashed(key, value, hash)
    }

    /// Sets `key` to `value`, as `insert` does, and hands out the value in
    /// its slot to be changed in place.
    fn insert_and_get(&mut self, key: K, value: V) -> (r: &mut V)
        requires
            old(self).wf(),
            key_eq_is_identity::<K>(),
            old(self).storage().len_spec() < old(self).storage().capacity_spec() || 2
                * old(self).storage().size() <= MAX_SLOTS,
        ensures
            *r == value,
            exists|h: u32|
                #[trigger] NodeStorage::inserted(
                    old(self).storage(),
                    final(self).storage(),
                    key,
                    *final(r),
                    h,
                    NodeStorage::replaced(old(self).storage(), key, h),
                ),
    {
        let hash = self.hash(&key);
        self.insert_and_get_with(key, value, hash)
    }

    /// The entry of `key`: occupied when a lookup with its hash finds it,
    /// vacant otherwise. The entry borrows the map, and what is done
    /// through it is what the map holds afterwards.
    pub fn entry(&mut self, key: K) -> (r: Entry<'_, K, V>)
        requires
            old(self).wf(),
            key_eq_is_identity::<K>(),
        ensures
            match r {
                Entry::Occupied(e) => {
                    &&& e.key == key
                    &&& *e.map == *old(self)
                    &&& *final(e.map) == *final(self)
                    &&& e.valid()
                    &&& exists|h: u32|
                        #[trigger] old(self).storage().probe(key, h, 0) == Some(e.location as int)
                },
                Entry::Vacant(e) => {
                    &&& e.key == key
                    &&& *e.map == *old(self)
                    &&& *final(e.map) == *final(self)
                    &&& exists|h: u32| #[trigger] old(self).storage().probe(key, h, 0) is None
                },
            },
    {
        let hash = self.hash(&key);
        let location = self.nodes.location(&key, hash);
        proof {
            self.storage().lemma_probe_holds_key(key, hash, 0);
        }
        match location {
            Some(location) => Entry::Occupied(OccupiedEntry { key, map: self, location }),
            None => Entry::Vacant(VacantEntry { key, map: self }),
        }
    }

    /// Takes out the entry for `key`, as a lookup with its hash finds it,
    /// returning its value.
    pub fn remove(&mut self, key: &K) -> (r: Option<V>)
        requires
            old(self).wf(),
            key_eq_is_identity::<K>(),
        ensures
            final(self).wf(),
            exists|h: u32| NodeStorage::removed(old(self).storage(), final(self).storage(), *key, h, r),
    {
        let hash = self.hash(key);
        let r = self.nodes.remove_hashed(key, hash);
        assert(NodeStorage::removed(old(self).storage(), self.storage(), *key, hash, r));
        r
    }
}


/// An entry of a `HashMap` that holds a value for the key it was looked up
/// with. Its fields are public so that contracts can speak of the map
/// through the entry; the methods ask that they describe an occupied slot.
pub struct OccupiedEntry<'a, K, V> {
    /// The key the entry was looked up with.
    pub key: K,
    /// The map the entry belongs to.
    pub map: &'a mut HashMap<K, V>,
    /// The slot that holds the entry.
    pub location: usize,
}

/// An entry of a `HashMap` for a key it holds no value for.
pub struct VacantEntry<'a, K, V> {
    /// The key the entry was looked up with.
    pub key: K,
    /// The map the entry belongs to.
    pub map: &'a mut HashMap<K, V>,
}

/// The entry of a `HashMap` for one key, occupied or vacant.
pub enum Entry<'a, K, V> {
    /// The map holds a value for the key.
    Occupied(OccupiedEntry<'a, K, V>),
    /// The map holds no value for the key.
    Vacant(VacantEntry<'a, K, V>),
}

impl<'a, K: PartialEq, V> OccupiedEntry<'a, K, V> {
    /// The map is well formed and the entry's slot holds its key.
    pub open spec fn valid(self) -> bool {
        &&& self.map.wf()
        &&& (self.location as int) < self.map.storage().size()
        &&& self.map.storage().occupied(self.location as int)
        &&& self.map.storage().key_at(self.location as int) == self.key
    }

    /// The value in the entry's slot.
    pub open spec fn value(self) -> V {
        self.map.storage().value_at(self.location as int)
    }

    /// The key the entry was looked up with.
    pub fn key(&self) -> (r: &K)
        ensures
            *r == self.key,
    {
        &self.key
    }

    /// The value of the entry.
    pub fn get(&self) -> (r: &V)
        requires
            self.valid(),
        ensures
            *r == self.value(),
    {
        &self.map.nodes.nodes[self.location].as_ref().unwrap().value
    }

    /// The value of the entry, to be changed in place; the entry keeps its
    /// key and slot.
    pub fn get_mut(&mut self) -> (r: &mut V)
        requires
            old(self).valid(),
        ensures
            *r == old(self).value(),
            final(self).key == old(self).key,
            final(self).location == old(self).location,
            *final(final(self).map) == *final(old(self).map),
            NodeStorage::value_changed(
                old(self).map.storage(),
                final(self).map.storage(),
                old(self).location as int,
                *final(r),
            ),
            final(self).valid(),
    {
        let ghost after = *final(self);
        let location = self.location;
        let node = self.map.nodes.nodes[location].as_mut().unwrap();
        let v = &mut node.value;
        proof {
            NodeStorage::lemma_value_changed(
                old(self).map.storage(),
                after.map.storage(),
                location as int,
                *final(v),
            );
        }
        v
    }
}


impl<'a, K: PartialEq, V> OccupiedEntry<'a, K, V> {
    /// The value of the entry, to be changed in place for as long as the
    /// map is borrowed.
    pub fn into_mut(self) -> (r: &'a mut V)
        requires
            self.valid(),
        ensures
            *r == self.value(),
            NodeStorage::value_changed(
                old(self.map).storage(),
                final(self.map).storage(),
                self.location as int,
                *final(r),
            ),
            final(self.map).wf(),
    {
        let ghost after = *final(self.map);
        let location = self.location;
        let map = self.map;
        let node = map.nodes.nodes[location].as_mut().unwrap();
        let v = &mut node.value;
        proof {
            NodeStorage::lemma_value_changed(
                self.map.storage(),
                after.storage(),
                location as int,
                *final(v),
            );
        }
        v
    }

    /// Sets the value of the entry, returning the value it had.
    pub fn insert(&mut self, value: V) -> (r: V)
        requires
            old(self).valid(),
        ensures
            r == old(self).value(),
            final(self).key == old(self).key,
            final(self).location == old(self).location,
            *final(final(self).map) == *final(old(self).map),
            NodeStorage::value_changed(
                old(self).map.storage(),
                final(self).map.storage(),
                old(self).location as int,
                value,
            ),
            final(self).valid(),
    {
        let ghost before = old(self).map.storage();
        let location = self.location;
        let node = self.map.nodes.nodes[location].as_mut().unwrap();
        let mut v = value;
        std::mem::swap(&mut node.value, &mut v);
        proof {
            NodeStorage::lemma_value_changed(before, self.map.storage(), location as int, value);
        }
        v
    }

    /// Takes the entry out of the map, returning its key and value. With
    /// distinct keys the map loses the key and keeps every other one.
    pub fn remove_entry(self) -> (r: (K, V))
        requires
            self.valid(),
        ensures
            r == (self.key, self.value()),
            final(self.map).wf(),
            final(self.map).storage().entries() == old(self.map).storage().entries().remove(
                old(self.map).storage().triple_at(self.location as int),
            ),
            distinct_keys(old(self.map).storage().entries()) ==> {
                &&& distinct_keys(final(self.map).storage().entries())
                &&& map_of(final(self.map).storage().entries()) == map_of(
                    old(self.map).storage().entries(),
                ).remove(self.key)
            },
    {
        let ghost before = self.map.storage();
        let location = self.location;
        let key = self.key;
        let map = self.map;
        let value = map.nodes.remove_from_location(location);
        proof {
            before.lemma_slots_entries();
            if distinct_keys(before.entries()) {
                lemma_take_entry(before.entries(), before.triple_at(location as int));
            }
        }
        (key, value)
    }

    /// Takes the entry out of the map, returning its value.
    pub fn remove(self) -> (r: V)
        requires
            self.valid(),
        ensures
            r == self.value(),
            final(self.map).wf(),
            final(self.map).storage().entries() == old(self.map).storage().entries().remove(
                old(self.map).storage().triple_at(self.location as int),
            ),
            distinct_keys(old(self.map).storage().entries()) ==> {
                &&& distinct_keys(final(self.map).storage().entries())
                &&& map_of(final(self.map).storage().entries()) == map_of(
                    old(self.map).storage().entries(),
                ).remove(self.key)
            },
    {
        let (_, value) = self.remove_entry();
        value
    }
}


impl<'a, K: PartialEq + Hash, V> VacantEntry<'a, K, V> {
    /// The map is well formed and has room for one more entry, or may
    /// double its slots.
    pub open spec fn valid(self) -> bool {
        &&& self.map.wf()
        &&& self.map.storage().len_spec() < self.map.storage().capacity_spec() || 2
            * self.map.storage().size() <= MAX_SLOTS
    }

    /// The key the entry was looked up with.
    pub fn key(&self) -> (r: &K)
        ensures
            *r == self.key,
    {
        &self.key
    }

    /// Gives the key back, leaving the map as it was.
    pub fn into_key(self) -> (r: K)
        ensures
            r == self.key,
            *final(self.map) == *old(self.map),
    {
        self.key
    }

    /// Sets the entry's key to `value`, and hands out the value in its slot
    /// to be changed in place: the map ends as if the key had been set to
    /// the value the reference holds at the end.
    pub fn insert(self, value: V) -> (r: &'a mut V)
        requires
            self.valid(),
            key_eq_is_identity::<K>(),
        ensures
            *r == value,
            exists|h: u32|
                #[trigger] NodeStorage::inserted(
                    old(self.map).storage(),
                    final(self.map).storage(),
                    self.key,
                    *final(r),
                    h,
                    NodeStorage::replaced(old(self.map).storage(), self.key, h),
                ),
    {
        let map = self.map;
        map.insert_and_get(self.key, value)
    }
}


impl<'a, K: PartialEq + Hash, V> Entry<'a, K, V> {
    /// The entry describes an occupied slot of a well formed map, or a
    /// vacant key of a map with room for it.
    pub open spec fn valid(self) -> bool {
        match self {
            Entry::Occupied(e) => e.valid(),
            Entry::Vacant(e) => e.valid(),
        }
    }

    /// What handing out a value from `self` does, the map ending as
    /// `end`: an occupied entry hands out its value (`before`), and the map
    /// ends with `after` in its slot; a vacant entry hands out `value`, and
    /// the map ends as if its key had been set to `after`.
    pub open spec fn handed_out(self, end: HashMap<K, V>, value: V, before: V, after: V) -> bool {
        match self {
            Entry::Occupied(e) => {
                &&& before == e.value()
                &&& NodeStorage::value_changed(
                    e.map.storage(),
                    end.storage(),
                    e.location as int,
                    after,
                )
            },
            Entry::Vacant(e) => {
                &&& before == value
                &&& exists|h: u32|
                    #[trigger] NodeStorage::inserted(
                        e.map.storage(),
                        end.storage(),
                        e.key,
                        after,
                        h,
                        NodeStorage::replaced(e.map.storage(), e.key, h),
                    )
            },
        }
    }

    /// The value in the entry, setting the key to `value` first if the
    /// entry is vacant; to be changed in place for as long as the map is
    /// borrowed.
    pub fn or_insert(self, value: V) -> (r: &'a mut V)
        requires
            self.valid(),
            key_eq_is_identity::<K>(),
        ensures
            self.handed_out(
                match self {
                    Entry::Occupied(e) => *final(e.map),
                    Entry::Vacant(e) => *final(e.map),
                },
                value,
                *r,
                *final(r),
            ),
    {
        match self {
            Entry::Occupied(e) => e.into_mut(),
            Entry::Vacant(e) => e.insert(value),
        }
    }

    /// The value in the entry, setting the key to what `f` returns first
    /// if the entry is vacant.
    pub fn or_insert_with<F: FnOnce() -> V>(self, f: F) -> (r: &'a mut V)
        requires
            self.valid(),
            key_eq_is_identity::<K>(),
            self is Vacant ==> f.requires(()),
        ensures
            self is Vacant ==> f.ensures((), *r),
            self.handed_out(
                match self {
                    Entry::Occupied(e) => *final(e.map),
                    Entry::Vacant(e) => *final(e.map),
                },
                *r,
                *r,
                *final(r),
            ),
    {
        match self {
            Entry::Occupied(e) => e.into_mut(),
            Entry::Vacant(e) => e.insert(f()),
        }
    }

    /// The value in the entry, setting the key to what `f` returns for it
    /// first if the entry is vacant.
    pub fn or_insert_with_key<F: FnOnce(&K) -> V>(self, f: F) -> (r: &'a mut V)
        requires
            self.valid(),
            key_eq_is_identity::<K>(),
            self matches Entry::Vacant(e) ==> f.requires((&e.key,)),
        ensures
            self matches Entry::Vacant(e) ==> f.ensures((&e.key,), *r),
            self.handed_out(
                match self {
                    Entry::Occupied(e) => *final(e.map),
                    Entry::Vacant(e) => *final(e.map),
                },
                *r,
                *r,
                *final(r),
            ),
    {
        match self {
            Entry::Occupied(e) => e.into_mut(),
            Entry::Vacant(e) => {
                let value = f(&e.key);
                e.insert(value)
            },
        }
    }

    /// Calls `f` on the value of an occupied entry, and gives the entry
    /// back; a vacant entry is given back as it is.
    pub fn and_modify<F: FnOnce(&mut V)>(self, f: F) -> (r: Self)
        requires
            self.valid(),
            self is Occupied ==> forall|x: &mut V| #[trigger] f.requires((x,)),
        ensures
            r.valid(),
            match (self, r) {
                (Entry::Occupied(e), Entry::Occupied(n)) => {
                    &&& n.key == e.key
                    &&& n.location == e.location
                    &&& *final(n.map) == *final(e.map)
                    &&& exists|x: &mut V|
                        #[trigger] f.ensures((x,), ()) && *x == e.value()
                            && NodeStorage::value_changed(
                            e.map.storage(),
                            n.map.storage(),
                            e.location as int,
                            *final(x),
                        )
                },
                (Entry::Vacant(e), Entry::Vacant(n)) => n == e,
                _ => false,
            },
    {
        match self {
            Entry::Occupied(mut e) => {
                let v = e.get_mut();
                f(v);
                Entry::Occupied(e)
            },
            Entry::Vacant(e) => Entry::Vacant(e),
        }
    }

    /// The key the entry was looked up with.
    pub fn key(&self) -> (r: &K)
        ensures
            *r == match *self {
                Entry::Occupied(e) => e.key,
                Entry::Vacant(e) => e.key,
            },
    {
        match self {
            Entry::Occupied(e) => &e.key,
            Entry::Vacant(e) => &e.key,
        }
    }
}


impl<'a, K: PartialEq + Hash, V: Default> Entry<'a, K, V> {
    /// The value in the entry, setting the key to `V`'s default first if
    /// the entry is vacant.
    pub fn or_default(self) -> (r: &'a mut V)
        requires
            self.valid(),
            key_eq_is_identity::<K>(),
        ensures
            self is Vacant ==> call_ensures(V::default, (), *r),
            self.handed_out(
                match self {
                    Entry::Occupied(e) => *final(e.map),
                    Entry::Vacant(e) => *final(e.map),
                },
                *r,
                *r,
                *final(r),
            ),
    {
        match self {
            Entry::Occupied(e) => e.into_mut(),
            Entry::Vacant(e) => e.insert(V::default()),
        }
    }
}

} // verus!
