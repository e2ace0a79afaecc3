//! Affinity masks: growable bitsets of logical-processor IDs with verified
//! set algebra and raw-word export for OS affinity calls.

use vstd::assert_by_contradiction;
use vstd::prelude::*;

verus! {

/// Whether bit `b` of the word `w` is set. Meaningful only for `b < 64`.
pub open spec fn word_bit(w: u64, b: u64) -> bool {
    b < 64 && (w >> b) & 1u64 == 1u64
}

/// A bitset of logical-processor IDs. Word `k` of the backing vector holds
/// IDs `64*k ..= 64*k + 63`; IDs past the last word are absent.
pub struct AffinityMask {
    bits: Vec<u64>,
}

proof fn lemma_set_bit(w: u64, b: u64, c: u64)
    by (bit_vector)
    requires
        b < 64,
    ensures
        word_bit(w | (1u64 << b), c) == (word_bit(w, c) || c == b),
{
}

proof fn lemma_clear_bit(w: u64, b: u64, c: u64)
    by (bit_vector)
    requires
        b < 64,
    ensures
        word_bit(w & !(1u64 << b), c) == (word_bit(w, c) && c != b),
{
}

proof fn lemma_or_bit(x: u64, y: u64, c: u64)
    by (bit_vector)
    ensures
        word_bit(x | y, c) == (word_bit(x, c) || word_bit(y, c)),
{
}

proof fn lemma_and_bit(x: u64, y: u64, c: u64)
    by (bit_vector)
    ensures
        word_bit(x & y, c) == (word_bit(x, c) && word_bit(y, c)),
{
}

pub(crate) proof fn lemma_zero_word_bits()
    by (bit_vector)
    ensures
        forall|c: u64| !word_bit(0u64, c),
{
}

pub(crate) proof fn lemma_word_eq_by_bits(x: u64, y: u64)
    requires
        forall|c: u64| c < 64 ==> word_bit(x, c) == word_bit(y, c),
    ensures
        x == y,
{
    assert(x == y) by (bit_vector)
        requires
            word_bit(x, 0) == word_bit(y, 0),
            word_bit(x, 1) == word_bit(y, 1),
            word_bit(x, 2) == word_bit(y, 2),
            word_bit(x, 3) == word_bit(y, 3),
            word_bit(x, 4) == word_bit(y, 4),
            word_bit(x, 5) == word_bit(y, 5),
            word_bit(x, 6) == word_bit(y, 6),
            word_bit(x, 7) == word_bit(y, 7),
            word_bit(x, 8) == word_bit(y, 8),
            word_bit(x, 9) == word_bit(y, 9),
            word_bit(x, 10) == word_bit(y, 10),
            word_bit(x, 11) == word_bit(y, 11),
            word_bit(x, 12) == word_bit(y, 12),
            word_bit(x, 13) == word_bit(y, 13),
            word_bit(x, 14) == word_bit(y, 14),
            word_bit(x, 15) == word_bit(y, 15),
            word_bit(x, 16) == word_bit(y, 16),
            word_bit(x, 17) == word_bit(y, 17),
            word_bit(x, 18) == word_bit(y, 18),
            word_bit(x, 19) == word_bit(y, 19),
            word_bit(x, 20) == word_bit(y, 20),
            word_bit(x, 21) == word_bit(y, 21),
            word_bit(x, 22) == word_bit(y, 22),
            word_bit(x, 23) == word_bit(y, 23),
            word_bit(x, 24) == word_bit(y, 24),
            word_bit(x, 25) == word_bit(y, 25),
            word_bit(x, 26) == word_bit(y, 26),
            word_bit(x, 27) == word_bit(y, 27),
            word_bit(x, 28) == word_bit(y, 28),
            word_bit(x, 29) == word_bit(y, 29),
            word_bit(x, 30) == word_bit(y, 30),
            word_bit(x, 31) == word_bit(y, 31),
            word_bit(x, 32) == word_bit(y, 32),
            word_bit(x, 33) == word_bit(y, 33),
            word_bit(x, 34) == word_bit(y, 34),
            word_bit(x, 35) == word_bit(y, 35),
            word_bit(x, 36) == word_bit(y, 36),
            word_bit(x, 37) == word_bit(y, 37),
            word_bit(x, 38) == word_bit(y, 38),
            word_bit(x, 39) == word_bit(y, 39),
            word_bit(x, 40) == word_bit(y, 40),
            word_bit(x, 41) == word_bit(y, 41),
            word_bit(x, 42) == word_bit(y, 42),
            word_bit(x, 43) == word_bit(y, 43),
            word_bit(x, 44) == word_bit(y, 44),
            word_bit(x, 45) == word_bit(y, 45),
            word_bit(x, 46) == word_bit(y, 46),
            word_bit(x, 47) == word_bit(y, 47),
            word_bit(x, 48) == word_bit(y, 48),
            word_bit(x, 49) == word_bit(y, 49),
            word_bit(x, 50) == word_bit(y, 50),
            word_bit(x, 51) == word_bit(y, 51),
            word_bit(x, 52) == word_bit(y, 52),
            word_bit(x, 53) == word_bit(y, 53),
            word_bit(x, 54) == word_bit(y, 54),
            word_bit(x, 55) == word_bit(y, 55),
            word_bit(x, 56) == word_bit(y, 56),
            word_bit(x, 57) == word_bit(y, 57),
            word_bit(x, 58) == word_bit(y, 58),
            word_bit(x, 59) == word_bit(y, 59),
            word_bit(x, 60) == word_bit(y, 60),
            word_bit(x, 61) == word_bit(y, 61),
            word_bit(x, 62) == word_bit(y, 62),
            word_bit(x, 63) == word_bit(y, 63),
    ;
}

proof fn lemma_word_identities(x: u64)
    by (bit_vector)
    ensures
        x | x == x,
        x & x == x,
        0u64 | x == x,
        x | 0u64 == x,
        0u64 & x == 0u64,
        x & 0u64 == 0u64,
{
}

/// A sequence whose entries grow strictly from left to right.
pub open spec fn strictly_increasing(s: Seq<usize>) -> bool {
    forall|i: int, j: int| 0 <= i < j < s.len() ==> s[i] < s[j]
}

pub(crate) proof fn lemma_push_contains(s: Seq<usize>, x: usize)
    ensures
        forall|y: usize| #[trigger] s.push(x).contains(y) == (s.contains(y) || y == x),
{
    assert forall|y: usize| #[trigger] s.push(x).contains(y) == (s.contains(y) || y == x) by {
        if s.contains(y) {
            let i = choose|i: int| 0 <= i < s.len() && s[i] == y;
            assert(s.push(x)[i] == y);
        }
        if y == x {
            assert(s.push(x)[s.len() as int] == y);
        }
        if s.push(x).contains(y) {
            let i = choose|i: int| 0 <= i < s.push(x).len() && s.push(x)[i] == y;
            if i < s.len() {
                assert(s[i] == y);
            }
        }
    }
}

proof fn lemma_push_increasing(s: Seq<usize>, x: usize)
    requires
        strictly_increasing(s),
        forall|y: usize| s.contains(y) ==> y < x,
    ensures
        strictly_increasing(s.push(x)),
{
    assert forall|i: int, j: int|
        0 <= i < j < s.push(x).len() implies s.push(x)[i] < s.push(x)[j] by {
        if j == s.len() {
            assert(s.contains(s[i]));
        }
    }
}

/// `(64*k + c) / 64 == k` and `(64*k + c) % 64 == c` for `c < 64`.
proof fn lemma_word_id_split(k: nat, c: nat)
    by (nonlinear_arith)
    requires
        c < 64,
    ensures
        (64 * k + c) / 64 == k,
        (64 * k + c) % 64 == c,
{
}

/// Division by 64 is monotone.
proof fn lemma_div64_ordered(a: nat, b: nat)
    by (nonlinear_arith)
    requires
        a <= b,
    ensures
        a / 64 <= b / 64,
        64 * (a / 64) + a % 64 == a,
        a % 64 < 64,
{
}

impl AffinityMask {
    /// The backing words can never outgrow what `usize` IDs can address.
    #[verifier::type_invariant]
    pub closed spec fn inv(self) -> bool {
        self.bits@.len() <= usize::MAX as nat / 64 + 1
    }

    /// The backing words, zero-extended to every index.
    pub closed spec fn word_at(self, k: int) -> u64 {
        if 0 <= k < self.bits@.len() {
            self.bits@[k]
        } else {
            0u64
        }
    }

    /// How many backing words the mask currently holds.
    pub closed spec fn words_len(self) -> nat {
        self.bits@.len()
    }

    /// Whether logical-processor ID `id` is in the mask.
    pub open spec fn has(self, id: usize) -> bool {
        word_bit(self.word_at(id as int / 64), (id % 64) as u64)
    }

    /// The set of IDs in the mask.
    pub open spec fn id_set(self) -> Set<usize> {
        Set::new(|id: usize| self.has(id))
    }

    /// Two masks hold exactly the same IDs.
    pub open spec fn same_ids(self, other: AffinityMask) -> bool {
        forall|id: usize| self.has(id) == other.has(id)
    }

    /// The word-level statement of what `union` returns.
    pub open spec fn is_union_of(self, a: AffinityMask, b: AffinityMask) -> bool {
        &&& self.words_len() == vstd::math::max(a.words_len() as int, b.words_len() as int)
        &&& forall|k: int| self.word_at(k) == a.word_at(k) | b.word_at(k)
    }

    /// The word-level statement of what `intersection` returns.
    pub open spec fn is_intersection_of(self, a: AffinityMask, b: AffinityMask) -> bool {
        &&& self.words_len() == vstd::math::min(a.words_len() as int, b.words_len() as int)
        &&& forall|k: int| self.word_at(k) == a.word_at(k) & b.word_at(k)
    }

    /// Creates an empty mask with no IDs set.
    pub fn empty() -> (r: AffinityMask)
        ensures
            r.words_len() == 0,
            forall|id: usize| !r.has(id),
            forall|k: int| r.word_at(k) == 0u64,
    {
        let r = AffinityMask { bits: Vec::new() };
        proof {
            lemma_zero_word_bits();
        }
        r
    }

    /// Reads one backing word, zero when past the end.
    fn word(&self, k: usize) -> (w: u64)
        ensures
            w == self.word_at(k as int),
    {
        if k < self.bits.len() {
            self.bits[k]
        } else {
            0u64
        }
    }

    /// Adds `logical_core_id` to the mask, growing the backing vector if
    /// needed; adding an ID already present changes nothing.
    pub fn add(&mut self, logical_core_id: usize)
        ensures
            forall|id: usize|
                final(self).has(id) == (old(self).has(id) || id == logical_core_id),
            final(self).words_len() == vstd::math::max(
                old(self).words_len() as int,
                logical_core_id as int / 64 + 1,
            ),
            forall|k: int|
                k != logical_core_id as int / 64 ==> final(self).word_at(k) == old(self).word_at(
                    k,
                ),
            final(self).word_at(logical_core_id as int / 64) == old(self).word_at(
                logical_core_id as int / 64,
            ) | (1u64 << ((logical_core_id % 64) as u64)),
    {
        proof {
            use_type_invariant(&*self);
            lemma_div64_ordered(logical_core_id as nat, usize::MAX as nat);
        }
        let word_idx: usize = logical_core_id / 64;
        let bit: u64 = (logical_core_id % 64) as u64;

        let mut bits: Vec<u64> = Vec::new();
        core::mem::swap(&mut bits, &mut self.bits);
        if word_idx >= bits.len() {
            bits.resize(word_idx + 1, 0u64);
        }
        let w = bits[word_idx];
        bits.set(word_idx, w | (1u64 << bit));
        core::mem::swap(&mut bits, &mut self.bits);

        proof {
            let m = *self;
            let o = *old(self);
            assert forall|id: usize| m.has(id) == (o.has(id) || id == logical_core_id) by {
                lemma_div64_ordered(id as nat, id as nat);
                let k = id as int / 64;
                let c = (id % 64) as u64;
                if k == word_idx as int {
                    lemma_set_bit(o.word_at(k), bit, c);
                    if c == bit && id != logical_core_id {
                        // same word, same bit position, but distinct ids: impossible
                        lemma_div64_ordered(logical_core_id as nat, logical_core_id as nat);
                    }
                } else {
                    lemma_zero_word_bits();
                    if id == logical_core_id {
                        assert(false);
                    }
                }
            }
        }
    }

    /// Removes `logical_core_id` from the mask; removing an absent ID
    /// changes nothing.
    pub fn remove(&mut self, logical_core_id: usize)
        ensures
            forall|id: usize|
                final(self).has(id) == (old(self).has(id) && id != logical_core_id),
            final(self).words_len() == old(self).words_len(),
            forall|k: int|
                k != logical_core_id as int / 64 ==> final(self).word_at(k) == old(self).word_at(
                    k,
                ),
    {
        proof {
            use_type_invariant(&*self);
        }
        let word_idx: usize = logical_core_id / 64;
        let bit: u64 = (logical_core_id % 64) as u64;

        let mut bits: Vec<u64> = Vec::new();
        core::mem::swap(&mut bits, &mut self.bits);
        if word_idx < bits.len() {
            let w = bits[word_idx];
            bits.set(word_idx, w & !(1u64 << bit));
        }
        core::mem::swap(&mut bits, &mut self.bits);

        proof {
            let m = *self;
            let o = *old(self);
            assert forall|id: usize|
                m.has(id) == (o.has(id) && id != logical_core_id) by {
                let k = id as int / 64;
                let c = (id % 64) as u64;
                lemma_div64_ordered(id as nat, id as nat);
                lemma_div64_ordered(logical_core_id as nat, logical_core_id as nat);
                if k == word_idx as int && (word_idx as int) < o.bits@.len() {
                    lemma_clear_bit(o.word_at(k), bit, c);
                } else {
                    lemma_zero_word_bits();
                }
            }
        }
    }

    /// Whether `logical_core_id` is in the mask.
    pub fn contains(&self, logical_core_id: usize) -> (r: bool)
        ensures
            r == self.has(logical_core_id),
    {
        let word_idx: usize = logical_core_id / 64;
        let bit: u64 = (logical_core_id % 64) as u64;
        let w = self.word(word_idx);
        (w >> bit) & 1u64 == 1u64
    }

    /// Creates a mask holding exactly `logical_core_id`.
    pub fn single(logical_core_id: usize) -> (r: AffinityMask)
        ensures
            forall|id: usize| r.has(id) == (id == logical_core_id),
            r.words_len() == logical_core_id as int / 64 + 1,
    {
        let mut mask = AffinityMask::empty();
        mask.add(logical_core_id);
        mask
    }

    /// Lists the IDs in the mask in ascending order.
    pub fn iter(&self) -> (r: Vec<usize>)
        ensures
            strictly_increasing(r@),
            forall|id: usize| r@.contains(id) == self.has(id),
    {
        proof {
            use_type_invariant(self);
            lemma_div64_ordered(usize::MAX as nat, usize::MAX as nat);
        }
        let mut r: Vec<usize> = Vec::new();
        let n = self.bits.len();
        for wi in 0..n
            invariant
                n == self.bits@.len(),
                self.inv(),
                strictly_increasing(r@),
                forall|id: usize| r@.contains(id) == (self.has(id) && id as int / 64 < wi as int),
                forall|id: usize| r@.contains(id) ==> (id as int) < 64 * (wi as int),
        {
            let w = self.bits[wi];
            assert(w == self.word_at(wi as int));
            proof {
                assert(64 * wi as int <= 64 * (usize::MAX as int / 64)) by (nonlinear_arith)
                    requires
                        0 <= wi as int <= usize::MAX as int / 64,
                ;
            }
            let mut b: u64 = 0;
            while b < 64
                invariant
                    b <= 64,
                    n == self.bits@.len(),
                    self.inv(),
                    wi < n,
                    w == self.word_at(wi as int),
                    64 * wi as int + 63 <= usize::MAX as int,
                    strictly_increasing(r@),
                    forall|id: usize|
                        r@.contains(id) == (self.has(id) && (id as int / 64 < wi as int || (id
                            as int / 64 == wi as int && (id as int % 64) < b as int))),
                    forall|id: usize| r@.contains(id) ==> (id as int) < 64 * (wi as int) + b as int,
                decreases 64 - b,
            {
                let ghost prev = r@;
                let id: usize = wi * 64 + (b as usize);
                proof {
                    lemma_word_id_split(wi as nat, b as nat);
                    assert(id as int / 64 == wi as int);
                    assert((id % 64) as u64 == b);
                    assert(self.has(id) == word_bit(w, b));
                }
                if (w >> b) & 1u64 == 1u64 {
                    r.push(id);
                    proof {
                        assert(self.has(id));
                        lemma_push_contains(prev, id);
                        lemma_push_increasing(prev, id);
                    }
                }
                proof {
                    assert forall|y: usize|
                        r@.contains(y) == (self.has(y) && (y as int / 64 < wi as int || (y
                            as int / 64 == wi as int && (y as int % 64) < b as int
                            + 1))) by {
                        lemma_div64_ordered(y as nat, y as nat);
                        if y as int / 64 == wi as int && y as int % 64 == b as int {
                            assert(y as int == 64 * (wi as int) + b as int);
                            assert(y == id);
                        }
                    }
                    assert forall|y: usize|
                        r@.contains(y) implies (y as int) < 64 * (wi as int) + b as int + 1 by {
                        if prev.contains(y) {
                        }
                    }
                }
                b = b + 1;
            }
            proof {
                assert forall|id: usize|
                    r@.contains(id) == (self.has(id) && id as int / 64 < wi as int + 1) by {
                    lemma_div64_ordered(id as nat, id as nat);
                }
            }
        }
        proof {
            assert forall|id: usize| r@.contains(id) == self.has(id) by {
                if self.has(id) {
                    lemma_div64_ordered(id as nat, id as nat);
                    if id as int / 64 >= n as int {
                        lemma_zero_word_bits();
                    }
                }
            }
        }
        r
    }

    /// How many IDs the mask holds.
    pub fn count(&self) -> (r: usize)
        ensures
            self.id_set().finite(),
            r == self.id_set().len(),
    {
        let v = self.iter();
        proof {
            assert(v@.no_duplicates());
            v@.unique_seq_to_set();
            vstd::seq_lib::seq_to_set_is_finite(v@);
            assert(v@.to_set() =~= self.id_set());
        }
        v.len()
    }

    /// Whether the mask holds no ID at all.
    pub fn is_empty(&self) -> (r: bool)
        ensures
            r == (forall|id: usize| !self.has(id)),
    {
        proof {
            use_type_invariant(self);
            lemma_div64_ordered(usize::MAX as nat, usize::MAX as nat);
        }
        let n = self.bits.len();
        for wi in 0..n
            invariant
                n == self.bits@.len(),
                self.inv(),
                forall|k: int| 0 <= k < wi as int ==> self.word_at(k) == 0u64,
        {
            let w = self.bits[wi];
            if w != 0 {
                proof {
                    assert(w == self.word_at(wi as int));
                    assert(64 * wi as int <= 64 * (usize::MAX as int / 64)) by (nonlinear_arith)
                        requires
                            0 <= wi as int <= usize::MAX as int / 64,
                    ;
                    assert_by_contradiction!(!(forall|id: usize| !self.has(id)), {
                        assert forall|c: u64| c < 64 implies word_bit(w, c) == word_bit(
                            0u64,
                            c,
                        ) by {
                            lemma_word_id_split(wi as nat, c as nat);
                            let id = (64 * wi as int + c as int) as usize;
                            assert(!self.has(id));
                            lemma_zero_word_bits();
                        }
                        lemma_word_eq_by_bits(w, 0u64);
                    });
                }
                return false;
            }
        }
        proof {
            lemma_zero_word_bits();
            assert forall|id: usize| !self.has(id) by {
                assert(self.word_at(id as int / 64) == 0u64);
            }
        }
        true
    }

    /// The mask holding the IDs of both operands.
    pub fn union(&self, other: &AffinityMask) -> (r: AffinityMask)
        ensures
            r.is_union_of(*self, *other),
            forall|id: usize| r.has(id) == (self.has(id) || other.has(id)),
    {
        proof {
            use_type_invariant(self);
            use_type_invariant(other);
        }
        let n = if self.bits.len() > other.bits.len() {
            self.bits.len()
        } else {
            other.bits.len()
        };
        let mut bits: Vec<u64> = Vec::new();
        for k in 0..n
            invariant
                bits@.len() == k,
                forall|j: int| 0 <= j < k as int ==> bits@[j] == self.word_at(j) | other.word_at(j),
        {
            bits.push(self.word(k) | other.word(k));
        }
        let r = AffinityMask { bits };
        proof {
            assert forall|k: int| r.word_at(k) == self.word_at(k) | other.word_at(k) by {
                if !(0 <= k < n as int) {
                    lemma_word_identities(0u64);
                }
            }
            assert forall|id: usize| r.has(id) == (self.has(id) || other.has(id)) by {
                lemma_or_bit(
                    self.word_at(id as int / 64),
                    other.word_at(id as int / 64),
                    (id % 64) as u64,
                );
            }
        }
        r
    }

    /// The mask holding the IDs common to both operands.
    pub fn intersection(&self, other: &AffinityMask) -> (r: AffinityMask)
        ensures
            r.is_intersection_of(*self, *other),
            forall|id: usize| r.has(id) == (self.has(id) && other.has(id)),
    {
        proof {
            use_type_invariant(self);
            use_type_invariant(other);
        }
        let n = if self.bits.len() < other.bits.len() {
            self.bits.len()
        } else {
            other.bits.len()
        };
        let mut bits: Vec<u64> = Vec::new();
        for k in 0..n
            invariant
                bits@.len() == k,
                forall|j: int| 0 <= j < k as int ==> bits@[j] == self.word_at(j) & other.word_at(j),
        {
            bits.push(self.word(k) & other.word(k));
        }
        let r = AffinityMask { bits };
        proof {
            assert forall|k: int| r.word_at(k) == self.word_at(k) & other.word_at(k) by {
                if !(0 <= k < n as int) {
                    lemma_word_identities(self.word_at(k));
                    lemma_word_identities(other.word_at(k));
                }
            }
            assert forall|id: usize| r.has(id) == (self.has(id) && other.has(id)) by {
                lemma_and_bit(
                    self.word_at(id as int / 64),
                    other.word_at(id as int / 64),
                    (id % 64) as u64,
                );
            }
        }
        r
    }

    /// The first 64 IDs as a raw word, for OS calls capped at 64 processors.
    pub fn as_raw_u64(&self) -> (r: u64)
        ensures
            r == self.word_at(0),
            forall|c: u64| c < 64 ==> word_bit(r, c) == self.has(c as usize),
    {
        proof {
            assert forall|c: u64| c < 64 implies word_bit(self.word_at(0), c) == self.has(
                c as usize,
            ) by {
                lemma_word_id_split(0, c as nat);
            }
        }
        self.word(0)
    }

    /// The full backing words: entry `k` holds IDs `64*k ..= 64*k + 63`.
    pub fn as_raw_bits(&self) -> (r: &[u64])
        ensures
            r@.len() == self.words_len(),
            forall|k: int| 0 <= k < r@.len() ==> r@[k] == self.word_at(k),
    {
        self.bits.as_slice()
    }

    /// Creates a mask holding exactly the IDs in `core_ids`.
    pub fn from_cores(core_ids: &[usize]) -> (r: AffinityMask)
        ensures
            forall|id: usize| r.has(id) == core_ids@.contains(id),
    {
        let mut mask = AffinityMask::empty();
        let n = core_ids.len();
        for pos in 0..n
            invariant
                n == core_ids@.len(),
                forall|id: usize|
                    mask.has(id) == core_ids@.subrange(0, pos as int).contains(id),
        {
            let ghost prefix = core_ids@.subrange(0, pos as int);
            let id = core_ids[pos];
            mask.add(id);
            proof {
                let next = core_ids@.subrange(0, pos as int + 1);
                assert(next == prefix.push(id));
                assert forall|x: usize| next.contains(x) == (prefix.contains(x) || x == id) by {
                    if prefix.contains(x) {
                        let i = choose|i: int| 0 <= i < prefix.len() && prefix[i] == x;
                        assert(next[i] == x);
                    }
                    if x == id {
                        assert(next[next.len() - 1] == x);
                    }
                    if next.contains(x) {
                        let i = choose|i: int| 0 <= i < next.len() && next[i] == x;
                        if i < prefix.len() {
                            assert(prefix[i] == x);
                        }
                    }
                }
            }
        }
        proof {
            assert(core_ids@.subrange(0, n as int) == core_ids@);
        }
        mask
    }
}

impl PartialEq for AffinityMask {
    /// Two masks are equal when they hold the same IDs, whatever the
    /// lengths of their backing vectors.
    fn eq(&self, other: &AffinityMask) -> (r: bool) {
        proof {
            use_type_invariant(self);
            use_type_invariant(other);
            lemma_div64_ordered(usize::MAX as nat, usize::MAX as nat);
        }
        let n = if self.bits.len() > other.bits.len() {
            self.bits.len()
        } else {
            other.bits.len()
        };
        for k in 0..n
            invariant
                self.inv(),
                other.inv(),
                n as int <= usize::MAX as int / 64 + 1,
                forall|j: int| 0 <= j < k as int ==> self.word_at(j) == other.word_at(j),
        {
            let a = self.word(k);
            let b = other.word(k);
            if a != b {
                proof {
                    assert(64 * k as int <= 64 * (usize::MAX as int / 64)) by (nonlinear_arith)
                        requires
                            0 <= k as int <= usize::MAX as int / 64,
                    ;
                    assert_by_contradiction!(!self.same_ids(*other), {
                        assert forall|c: u64| c < 64 implies word_bit(a, c) == word_bit(
                            b,
                            c,
                        ) by {
                            lemma_word_id_split(k as nat, c as nat);
                            let id = (64 * k as int + c as int) as usize;
                            assert(self.has(id) == other.has(id));
                        }
                        lemma_word_eq_by_bits(a, b);
                    });
                }
                return false;
            }
        }
        proof {
            assert forall|id: usize| self.has(id) == other.has(id) by {
                assert(self.word_at(id as int / 64) == other.word_at(id as int / 64));
            }
        }
        true
    }
}

impl Eq for AffinityMask {

}

impl vstd::std_specs::cmp::PartialEqSpecImpl for AffinityMask {
    open spec fn obeys_eq_spec() -> bool {
        true
    }

    open spec fn eq_spec(&self, other: &AffinityMask) -> bool {
        self.same_ids(*other)
    }
}

impl Default for AffinityMask {
    /// The default mask is the empty mask.
    fn default() -> (r: AffinityMask)
        ensures
            r.words_len() == 0,
            forall|id: usize| !r.has(id),
    {
        AffinityMask::empty()
    }
}

/// Law: the union of a mask with itself holds the same IDs and the same
/// words, so it equals the mask.
pub proof fn lemma_union_self_identity(m: AffinityMask, u: AffinityMask)
    requires
        u.is_union_of(m, m),
    ensures
        forall|k: int| u.word_at(k) == m.word_at(k),
        u.same_ids(m),
{
    assert forall|k: int| u.word_at(k) == m.word_at(k) by {
        lemma_word_identities(m.word_at(k));
    }
}

/// Law: the intersection of a mask with itself holds the same IDs and the
/// same words, so it equals the mask.
pub proof fn lemma_intersection_self_identity(m: AffinityMask, r: AffinityMask)
    requires
        r.is_intersection_of(m, m),
    ensures
        forall|k: int| r.word_at(k) == m.word_at(k),
        r.same_ids(m),
{
    assert forall|k: int| r.word_at(k) == m.word_at(k) by {
        lemma_word_identities(m.word_at(k));
    }
}

/// Law: the union of the empty mask with any mask holds exactly that
/// mask's IDs.
pub proof fn lemma_union_empty_identity(e: AffinityMask, m: AffinityMask, u: AffinityMask)
    requires
        forall|k: int| e.word_at(k) == 0u64,
        u.is_union_of(e, m),
    ensures
        forall|k: int| u.word_at(k) == m.word_at(k),
        u.same_ids(m),
{
    assert forall|k: int| u.word_at(k) == m.word_at(k) by {
        lemma_word_identities(m.word_at(k));
    }
}

/// Law: rebuilding a mask from the IDs it lists gives back an equal mask;
/// the two hypotheses are the contracts of `iter` and `from_cores`.
pub proof fn lemma_from_cores_iter_roundtrip(m: AffinityMask, ids: Seq<usize>, r: AffinityMask)
    requires
        forall|id: usize| ids.contains(id) == m.has(id),
        forall|id: usize| r.has(id) == ids.contains(id),
    ensures
        r.same_ids(m),
{
}

/// Law: a mask holding exactly one ID has that ID and no other, and its
/// ID set has cardinality one.
pub proof fn lemma_single_semantics(s: AffinityMask, i: usize)
    requires
        forall|id: usize| s.has(id) == (id == i),
    ensures
        s.has(i),
        s.id_set() =~= Set::empty().insert(i),
        s.id_set().finite(),
        s.id_set().len() == 1,
{
    broadcast use vstd::set::group_set_axioms;

    assert(s.id_set() =~= Set::empty().insert(i));
}

/// Law: removing the only ID of a one-ID mask leaves no ID at all; the
/// hypotheses are the contracts of `single` and `remove`.
pub proof fn lemma_single_remove_empty(s: AffinityMask, i: usize, r: AffinityMask)
    requires
        forall|id: usize| s.has(id) == (id == i),
        forall|id: usize| r.has(id) == (s.has(id) && id != i),
    ensures
        forall|id: usize| !r.has(id),
        r.id_set() =~= Set::<usize>::empty(),
{
    assert(r.id_set() =~= Set::<usize>::empty());
}

/// Law: adding an ID of 64 or above never touches the low word reported
/// by `as_raw_u64`, and never shrinks the backing words; it lengthens
/// them exactly when the ID lies past the current last word. The
/// hypotheses are the word-level contract of `add`.
pub proof fn lemma_add_high_id(m: AffinityMask, m2: AffinityMask, id: usize)
    requires
        id >= 64,
        m2.words_len() == vstd::math::max(m.words_len() as int, id as int / 64 + 1),
        forall|k: int| k != id as int / 64 ==> m2.word_at(k) == m.word_at(k),
    ensures
        m2.word_at(0) == m.word_at(0),
        m2.words_len() >= m.words_len(),
        m.words_len() <= id as int / 64 ==> m2.words_len() > m.words_len(),
{
    lemma_div64_ordered(64, id as nat);
}

} // verus!
