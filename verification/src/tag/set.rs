use vstd::prelude::*;

use crate::tag::id::TagId;

verus! {

/// Whether bit `i` of `bits` is set, for `i` in the bitset's range.
pub open spec fn bit_set(bits: u128, i: int) -> bool {
    0 <= i < 128 && (bits >> (i as u128)) & 1u128 == 1u128
}

/// The tag ids whose bits are set.
pub open spec fn bit_ids(bits: u128) -> Set<int> {
    Set::new(|i: int| bit_set(bits, i))
}

/// Number of set bits among the lowest `n`.
pub open spec fn popcount(bits: u128, n: nat) -> nat
    decreases n,
{
    if n == 0 {
        0
    } else {
        popcount(bits, (n - 1) as nat) + if bit_set(bits, n - 1) { 1nat } else { 0nat }
    }
}

proof fn lemma_or_bit(b: u128, k: u128, i: u128)
    by (bit_vector)
    requires
        k < 128,
        i < 128,
    ensures
        ((b | (1u128 << k)) >> i) & 1u128 == if i == k { 1u128 } else { (b >> i) & 1u128 },
{
}

proof fn lemma_clear_bit(b: u128, k: u128, i: u128)
    by (bit_vector)
    requires
        k < 128,
        i < 128,
    ensures
        ((b & !(1u128 << k)) >> i) & 1u128 == if i == k { 0u128 } else { (b >> i) & 1u128 },
{
}

proof fn lemma_mask_bit(b: u128, k: u128)
    by (bit_vector)
    requires
        k < 128,
    ensures
        ((b & (1u128 << k)) != 0u128) == ((b >> k) & 1u128 == 1u128),
{
}

proof fn lemma_bit_is_01(b: u128, i: u128)
    by (bit_vector)
    ensures
        (b >> i) & 1u128 == 1u128 || (b >> i) & 1u128 == 0u128,
{
}

proof fn lemma_and_bit(a: u128, b: u128, i: u128)
    by (bit_vector)
    requires
        i < 128,
    ensures
        ((a & b) >> i) & 1u128 == 1u128 <==> ((a >> i) & 1u128 == 1u128 && (b >> i) & 1u128 == 1u128),
{
}

proof fn lemma_xor_bit(a: u128, b: u128, i: u128)
    by (bit_vector)
    requires
        i < 128,
    ensures
        ((a ^ b) >> i) & 1u128 == 1u128 <==> ((a >> i) & 1u128 != (b >> i) & 1u128),
{
}

proof fn lemma_shift_step(b: u128, i: u128)
    by (bit_vector)
    requires
        i < 127,
    ensures
        ((b >> 1u128) >> i) & 1u128 == (b >> (i + 1u128)) & 1u128,
{
}

proof fn lemma_shift_facts(b: u128)
    by (bit_vector)
    ensures
        b != 0u128 && b & 1u128 == 0u128 ==> (b >> 1u128) != 0u128,
        b != 0u128 ==> (b >> 1u128) < b,
        ((b >> 1u128) >> 127u128) & 1u128 == 0u128,
        b & 1u128 == (b >> 0u128) & 1u128,
{
}

proof fn lemma_zero_bits(i: u128)
    by (bit_vector)
    ensures
        (0u128 >> i) & 1u128 == 0u128,
{
}

/// A nonzero bitset has a set bit.
proof fn lemma_nonzero_has_bit(b: u128)
    requires
        b != 0,
    ensures
        exists|i: int| bit_set(b, i),
    decreases b,
{
    lemma_shift_facts(b);
    lemma_bit_is_01(b, 0u128);
    if b & 1u128 == 1u128 {
        assert(bit_set(b, 0));
    } else {
        let c = b >> 1u128;
        lemma_nonzero_has_bit(c);
        let i = choose|i: int| bit_set(c, i);
        if i == 127 {
            assert(false);
        } else {
            lemma_shift_step(b, i as u128);
            assert(bit_set(b, i + 1));
        }
    }
}

/// Two bitsets with the same set bits are equal.
proof fn lemma_bits_ext(a: u128, b: u128)
    requires
        forall|i: int| bit_set(a, i) == bit_set(b, i),
    ensures
        a == b,
{
    if a != b {
        let z = a ^ b;
        assert(z != 0) by (bit_vector)
            requires
                a != b,
                z == a ^ b,
        ;
        lemma_nonzero_has_bit(z);
        let i = choose|i: int| bit_set(z, i);
        lemma_xor_bit(a, b, i as u128);
        lemma_bit_is_01(a, i as u128);
        lemma_bit_is_01(b, i as u128);
        assert(bit_set(a, i) != bit_set(b, i));
    }
}

proof fn lemma_popcount_card(b: u128, n: nat)
    requires
        n <= 128,
    ensures
        Set::new(|i: int| bit_set(b, i) && i < n).finite(),
        Set::new(|i: int| bit_set(b, i) && i < n).len() == popcount(b, n),
    decreases n,
{
    let s = Set::new(|i: int| bit_set(b, i) && i < n);
    if n == 0 {
        assert(s =~= Set::empty());
    } else {
        let m = (n - 1) as nat;
        lemma_popcount_card(b, m);
        let t = Set::new(|i: int| bit_set(b, i) && i < m);
        if bit_set(b, m as int) {
            assert(s =~= t.insert(m as int));
        } else {
            assert(s =~= t);
        }
    }
}

/// Set of `TagId`s attached to an entity, stored as a `u128` inline
/// bitset over the tag ids. `contains` is O(1) and the bulk filters
/// (`contains_all`, `intersects`) are single bitwise operations.
#[derive(PartialEq, Eq, Structural, Debug)]
pub struct TagSet(u128);

impl Clone for TagSet {
    fn clone(&self) -> (r: Self)
        ensures
            r == *self,
    {
        TagSet(self.0)
    }
}

impl Copy for TagSet {}

impl View for TagSet {
    type V = Set<int>;

    closed spec fn view(&self) -> Set<int> {
        bit_ids(self.0)
    }
}

/// Iterator state over the ids of a `TagSet`, in ascending order.
pub struct TagSetIter {
    bits: u128,
}

impl View for TagSetIter {
    type V = Set<int>;

    closed spec fn view(&self) -> Set<int> {
        bit_ids(self.bits)
    }
}

impl TagSet {
    /// The ids are always within the bitset's range.
    pub proof fn lemma_ids_in_range(&self)
        ensures
            forall|i: int| self@.contains(i) ==> 0 <= i < 128,
            self@.finite(),
            self@.subset_of(Set::new(|i: int| 0 <= i < 128)),
    {
        lemma_popcount_card(self.0, 128);
        assert(self@ =~= Set::new(|i: int| bit_set(self.0, i) && i < 128));
    }

    /// The empty set.
    pub fn new() -> (r: Self)
        ensures
            r@ == Set::<int>::empty(),
    {
        proof {
            assert forall|i: int| !bit_set(0u128, i) by {
                if 0 <= i < 128 {
                    lemma_zero_bits(i as u128);
                }
            }
        }
        let r = TagSet(0);
        assert(r@ =~= Set::<int>::empty());
        r
    }

    /// Adds `id`; returns `true` if it was not already present. The id
    /// must be below the bitset cap, which `TagRegistry::intern` enforces.
    pub fn insert(&mut self, id: TagId) -> (r: bool)
        requires
            (id.0 as int) < 128,
        ensures
            final(self)@ == old(self)@.insert(id.0 as int),
            r == !old(self)@.contains(id.0 as int),
    {
        let k = id.0 as u128;
        let mask = 1u128 << k;
        let was_set = (self.0 & mask) != 0;
        let b = self.0;
        proof {
            lemma_mask_bit(b, k);
            assert forall|i: int| bit_set(b | mask, i) == (bit_set(b, i) || i == id.0 as int) by {
                if 0 <= i < 128 {
                    lemma_or_bit(b, k, i as u128);
                    lemma_bit_is_01(b, i as u128);
                }
            }
        }
        self.0 = b | mask;
        assert forall|i: int| self@.contains(i) == old(self)@.insert(id.0 as int).contains(i) by {
            assert(bit_set(b | mask, i) == (bit_set(b, i) || i == id.0 as int));
        }
        assert(self@ =~= old(self)@.insert(id.0 as int));
        !was_set
    }

    /// Removes `id`; returns `true` if it was present.
    pub fn remove(&mut self, id: TagId) -> (r: bool)
        ensures
            final(self)@ == old(self)@.remove(id.0 as int),
            r == old(self)@.contains(id.0 as int),
    {
        if id.0 >= 128 {
            assert(old(self)@.remove(id.0 as int) =~= old(self)@);
            return false;
        }
        let k = id.0 as u128;
        let mask = 1u128 << k;
        let was_set = (self.0 & mask) != 0;
        let b = self.0;
        proof {
            lemma_mask_bit(b, k);
            assert forall|i: int| bit_set(b & !mask, i) == (bit_set(b, i) && i != k) by {
                if 0 <= i < 128 {
                    lemma_clear_bit(b, k, i as u128);
                    lemma_bit_is_01(b, i as u128);
                }
            }
        }
        self.0 = self.0 & !mask;
        assert(self@ =~= old(self)@.remove(id.0 as int));
        was_set
    }

    /// Whether `id` is in the set.
    pub fn contains(&self, id: TagId) -> (r: bool)
        ensures
            r == self@.contains(id.0 as int),
    {
        if id.0 >= 128 {
            return false;
        }
        let k = id.0 as u128;
        proof {
            lemma_bit_is_01(self.0, k);
        }
        (self.0 >> k) & 1 != 0
    }

    /// Superset test: every tag in `required` is also in `self`.
    pub fn contains_all(&self, required: &TagSet) -> (r: bool)
        ensures
            r == required@.subset_of(self@),
    {
        let a = self.0;
        let q = required.0;
        let r = (a & q) == q;
        proof {
            if r {
                assert forall|i: int| required@.contains(i) implies self@.contains(i) by {
                    lemma_and_bit(a, q, i as u128);
                }
            } else {
                if forall|i: int| bit_set(a & q, i) == bit_set(q, i) {
                    lemma_bits_ext(a & q, q);
                }
                let i = choose|i: int| bit_set(a & q, i) != bit_set(q, i);
                lemma_and_bit(a, q, i as u128);
                assert(required@.contains(i) && !self@.contains(i));
            }
        }
        r
    }

    /// Whether the two sets share at least one tag.
    pub fn intersects(&self, other: &TagSet) -> (r: bool)
        ensures
            r == exists|i: int| self@.contains(i) && other@.contains(i),
    {
        let a = self.0;
        let o = other.0;
        let r = (a & o) != 0;
        proof {
            if r {
                lemma_nonzero_has_bit(a & o);
                let i = choose|i: int| bit_set(a & o, i);
                lemma_and_bit(a, o, i as u128);
                assert(self@.contains(i) && other@.contains(i));
            } else {
                assert forall|i: int| !(self@.contains(i) && other@.contains(i)) by {
                    if 0 <= i < 128 {
                        lemma_and_bit(a, o, i as u128);
                        lemma_zero_bits(i as u128);
                    }
                }
            }
        }
        r
    }

    /// Number of tags in the set.
    pub fn len(&self) -> (r: usize)
        ensures
            r == self@.len(),
    {
        let mut n: usize = 0;
        let mut i: u32 = 0;
        while i < 128
            invariant
                i <= 128,
                n <= i,
                n == popcount(self.0, i as nat),
            decreases 128 - i,
        {
            proof {
                lemma_bit_is_01(self.0, i as u128);
            }
            if (self.0 >> (i as u128)) & 1 == 1 {
                n = n + 1;
            }
            i = i + 1;
        }
        proof {
            lemma_popcount_card(self.0, 128);
            assert(self@ =~= Set::new(|j: int| bit_set(self.0, j) && j < 128));
        }
        n
    }

    /// Whether the set has no tags.
    pub fn is_empty(&self) -> (r: bool)
        ensures
            r == (self@ == Set::<int>::empty()),
    {
        let r = self.0 == 0;
        proof {
            if r {
                assert forall|i: int| !self@.contains(i) by {
                    if 0 <= i < 128 {
                        lemma_zero_bits(i as u128);
                    }
                }
                assert(self@ =~= Set::<int>::empty());
            } else {
                lemma_nonzero_has_bit(self.0);
                let i = choose|i: int| bit_set(self.0, i);
                assert(self@.contains(i));
            }
        }
        r
    }

    /// Iterator over the set's ids, in ascending order.
    pub fn iter(&self) -> (r: TagSetIter)
        ensures
            r@ == self@,
    {
        TagSetIter { bits: self.0 }
    }
}

impl TagSetIter {
    /// Yields the smallest remaining id and removes it, or `None` once
    /// every id has been yielded.
    pub fn next(&mut self) -> (r: Option<TagId>)
        ensures
            r is None <==> old(self)@ == Set::<int>::empty(),
            r is None ==> final(self)@ == old(self)@,
            r matches Some(id) ==> {
                &&& old(self)@.contains(id.0 as int)
                &&& forall|j: int| old(self)@.contains(j) ==> id.0 <= j
                &&& final(self)@ == old(self)@.remove(id.0 as int)
            },
    {
        if self.bits == 0 {
            proof {
                assert forall|i: int| !old(self)@.contains(i) by {
                    if 0 <= i < 128 {
                        lemma_zero_bits(i as u128);
                    }
                }
                assert(old(self)@ =~= Set::<int>::empty());
            }
            return None;
        }
        proof {
            lemma_nonzero_has_bit(self.bits);
        }
        let b = self.bits;
        let mut k: u16 = 0;
        while k < 128 && (b >> (k as u128)) & 1 != 1
            invariant
                b == self.bits,
                k <= 128,
                exists|i: int| bit_set(b, i),
                forall|j: int| 0 <= j < k ==> !bit_set(b, j),
            decreases 128 - k,
        {
            k = k + 1;
        }
        if k >= 128 {
            proof {
                let i = choose|i: int| bit_set(b, i);
                assert(!bit_set(b, i));
            }
            return None;
        }
        assert(bit_set(b, k as int));
        let mask = 1u128 << (k as u128);
        proof {
            assert forall|i: int| bit_set(b & !mask, i) == (bit_set(b, i) && i != k) by {
                if 0 <= i < 128 {
                    lemma_clear_bit(b, k as u128, i as u128);
                    lemma_bit_is_01(b, i as u128);
                }
            }
        }
        self.bits = b & !mask;
        assert(old(self)@.contains(k as int));
        assert(self@ =~= old(self)@.remove(k as int));
        Some(TagId(k))
    }
}

/// One step of iteration: from the ids `before`, `next` yields `id`, the
/// smallest of them, and leaves `after`.
pub open spec fn next_step(before: Set<int>, id: int, after: Set<int>) -> bool {
    &&& before.contains(id)
    &&& forall|j: int| before.contains(j) ==> id <= j
    &&& after == before.remove(id)
}

/// Law: iterating a tag set to the end yields each of its ids once, in
/// strictly ascending order. Given the iterator's states and the ids that
/// successive `next` calls yielded until the set was exhausted, the ids
/// ascend strictly, are exactly the starting set's members, and are as
/// many as it has.
pub proof fn law_iteration_yields_ascending_ids(states: Seq<Set<int>>, ids: Seq<int>)
    requires
        states.len() == ids.len() + 1,
        forall|k: int| 0 <= k < ids.len() ==> #[trigger] next_step(states[k], ids[k], states[k + 1]),
        states.last() == Set::<int>::empty(),
    ensures
        forall|k: int, l: int| 0 <= k < l < ids.len() ==> ids[k] < ids[l],
        forall|j: int| states[0].contains(j) <==> ids.contains(j),
        states[0].finite(),
        states[0].len() == ids.len(),
    decreases ids.len(),
{
    if ids.len() > 0 {
        let s2 = states.drop_first();
        let i2 = ids.drop_first();
        assert forall|k: int| 0 <= k < i2.len() implies #[trigger] next_step(s2[k], i2[k], s2[k + 1]) by {
            let k1 = k + 1;
            assert(next_step(states[k1], ids[k1], states[k1 + 1]));
            assert(s2[k] == states[k1] && i2[k] == ids[k1] && s2[k + 1] == states[k1 + 1]);
        }
        law_iteration_yields_ascending_ids(s2, i2);
        assert(s2[0] == states[1]);
        assert(s2.last() == states.last());
        assert(next_step(states[0], ids[0], states[0int + 1]));
        assert(states[0] =~= states[1].insert(ids[0]));
        assert forall|k: int, l: int| 0 <= k < l < ids.len() implies ids[k] < ids[l] by {
            if k == 0 {
                assert(i2[l - 1] == ids[l]);
                assert(i2.contains(ids[l]));
                assert(states[1].contains(ids[l]));
            } else {
                assert(i2[k - 1] == ids[k] && i2[l - 1] == ids[l]);
            }
        }
        assert forall|j: int| states[0].contains(j) <==> ids.contains(j) by {
            if ids.contains(j) && j != ids[0] {
                let k = choose|k: int| 0 <= k < ids.len() && ids[k] == j;
                assert(i2[k - 1] == j);
                assert(i2.contains(j));
                assert(s2[0].contains(j));
            }
            if states[1].contains(j) {
                assert(s2[0].contains(j));
                assert(i2.contains(j));
                let k = choose|k: int| 0 <= k < i2.len() && i2[k] == j;
                assert(ids[k + 1] == j);
            }
        }
    } else {
        assert(states[0] == states.last());
    }
}

} // verus!
