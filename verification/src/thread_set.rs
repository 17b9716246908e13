//! A fixed-width set of worker-thread identifiers, held in one machine word.

use vstd::prelude::*;

verus! {

/// Largest number of worker threads a [`ThreadSet`] can describe.
pub const MAX_THREADS: usize = 64;

/// Identifier of a worker thread, in `0..MAX_THREADS`.
pub type ThreadId = usize;

/// Whether binary digit `t` of `bits` is one. Digits outside `0..64` are never set.
pub open spec fn bit_is_set(bits: u64, t: int) -> bool {
    0 <= t < 64 && (bits >> (t as u64)) & 1 == 1
}

/// Number of ones among the `n` lowest binary digits of `bits`.
pub open spec fn count_bits(bits: u64, n: nat) -> nat
    decreases n,
{
    if n == 0 {
        0
    } else {
        count_bits(bits, (n - 1) as nat) + if bit_is_set(bits, n - 1) {
            1nat
        } else {
            0nat
        }
    }
}

/// The threads below `n` whose digit is set in `bits`.
pub open spec fn members_below(bits: u64, n: int) -> Set<int> {
    Set::new(|t: int| t < n && bit_is_set(bits, t))
}

/// `u64::count_ones` returns the number of ones in the binary representation
/// of its argument; a `u64` has 64 binary digits.
pub assume_specification[ u64::count_ones ](i: u64) -> (r: u32)
    ensures
        r == count_bits(i, 64),
;

proof fn lemma_shift_one(t0: u64, t: u64)
    by (bit_vector)
    requires
        t0 < 64,
        t < 64,
    ensures
        (((1u64 << t0) >> t) & 1 == 1) <==> t == t0,
        (1u64 << t0) >= 1,
{
}

proof fn lemma_low_mask(mask: u64, n: u64, t: u64)
    by (bit_vector)
    requires
        n < 64,
        t < 64,
        mask == (1u64 << n) - 1,
    ensures
        ((mask >> t) & 1 == 1) <==> t < n,
{
}

proof fn lemma_full_mask(t: u64)
    by (bit_vector)
    requires
        t < 64,
    ensures
        (0xffff_ffff_ffff_ffffu64 >> t) & 1 == 1,
        (0u64 >> t) & 1 == 0,
{
}

proof fn lemma_or_bit(a: u64, t0: u64, t: u64)
    by (bit_vector)
    requires
        t0 < 64,
        t < 64,
    ensures
        (((a | (1u64 << t0)) >> t) & 1 == 1) <==> (((a >> t) & 1 == 1) || t == t0),
{
}

proof fn lemma_clear_bit(a: u64, t0: u64, t: u64)
    by (bit_vector)
    requires
        t0 < 64,
        t < 64,
    ensures
        (((a & !(1u64 << t0)) >> t) & 1 == 1) <==> (((a >> t) & 1 == 1) && t != t0),
{
}

proof fn lemma_and_bits(a: u64, b: u64, t: u64)
    by (bit_vector)
    requires
        t < 64,
    ensures
        (((a & b) >> t) & 1 == 1) <==> (((a >> t) & 1 == 1) && ((b >> t) & 1 == 1)),
{
}

proof fn lemma_test_bit(a: u64, t: u64)
    by (bit_vector)
    requires
        t < 64,
    ensures
        (a & (1u64 << t) != 0) <==> ((a >> t) & 1 == 1),
{
}

proof fn lemma_top_digit(a: u64, b: u64)
    by (bit_vector)
    requires
        (a >> 63) & 1 == (b >> 63) & 1,
    ensures
        a >> 63 == b >> 63,
{
}

proof fn lemma_next_digit(a: u64, b: u64, k: u64, above: u64)
    by (bit_vector)
    requires
        k < 63,
        above == k + 1,
        a >> above == b >> above,
        (a >> k) & 1 == (b >> k) & 1,
    ensures
        a >> k == b >> k,
{
}

proof fn lemma_digit_is_binary(a: u64, k: u64)
    by (bit_vector)
    requires
        k < 64,
    ensures
        (a >> k) & 1 == 0 || (a >> k) & 1 == 1,
        k == 0 ==> a >> k == a,
{
}

proof fn lemma_same_digits_from(a: u64, b: u64, k: u64)
    requires
        k < 64,
        forall|t: int| bit_is_set(a, t) == bit_is_set(b, t),
    ensures
        a >> k == b >> k,
    decreases 64 - k,
{
    assert(bit_is_set(a, k as int) == bit_is_set(b, k as int));
    lemma_digit_is_binary(a, k);
    lemma_digit_is_binary(b, k);
    if k == 63 {
        lemma_top_digit(a, b);
    } else {
        let above: u64 = (k + 1) as u64;
        lemma_same_digits_from(a, b, above);
        lemma_next_digit(a, b, k, above);
    }
}

/// Two words with the same set digits are the same word.
proof fn lemma_same_bits(a: u64, b: u64)
    requires
        forall|t: int| bit_is_set(a, t) == bit_is_set(b, t),
    ensures
        a == b,
{
    lemma_same_digits_from(a, b, 0);
    lemma_digit_is_binary(a, 0);
    lemma_digit_is_binary(b, 0);
}

proof fn lemma_members_below(bits: u64, n: nat)
    requires
        n <= 64,
    ensures
        members_below(bits, n as int).finite(),
        members_below(bits, n as int).len() == count_bits(bits, n),
    decreases n,
{
    if n == 0 {
        assert(members_below(bits, 0) =~= Set::<int>::empty());
    } else {
        lemma_members_below(bits, (n - 1) as nat);
        let lower = members_below(bits, n - 1);
        if bit_is_set(bits, n - 1) {
            assert(members_below(bits, n as int) =~= lower.insert(n - 1));
        } else {
            assert(members_below(bits, n as int) =~= lower);
        }
    }
}

/// A set of worker threads: the threads an account is scheduled on, or the
/// threads a transaction may be scheduled on.
#[derive(Copy, Clone, Debug, PartialEq, Eq, Structural)]
pub struct ThreadSet(u64);

impl View for ThreadSet {
    type V = Set<int>;

    closed spec fn view(&self) -> Set<int> {
        Set::new(|t: int| bit_is_set(self.0, t))
    }
}

impl ThreadSet {
    /// Every member is a thread identifier below `MAX_THREADS`, so the set is finite.
    pub proof fn lemma_bounded(self)
        ensures
            self@.finite(),
            self@.len() <= MAX_THREADS,
            forall|t: int| self@.contains(t) ==> 0 <= t < MAX_THREADS,
    {
        lemma_members_below(self.0, 64);
        assert(self@ =~= members_below(self.0, 64));
        Self::lemma_count_bits_bounded(self.0, 64);
    }

    proof fn lemma_count_bits_bounded(bits: u64, n: nat)
        ensures
            count_bits(bits, n) <= n,
        decreases n,
    {
        if n > 0 {
            Self::lemma_count_bits_bounded(bits, (n - 1) as nat);
        }
    }

    /// Sets are compared by their members: two sets with the same members are equal.
    pub proof fn lemma_extensional(self, other: ThreadSet)
        requires
            self@ == other@,
        ensures
            self == other,
    {
        assert forall|t: int| bit_is_set(self.0, t) == bit_is_set(other.0, t) by {
            assert(self@.contains(t) == bit_is_set(self.0, t));
            assert(other@.contains(t) == bit_is_set(other.0, t));
        }
        lemma_same_bits(self.0, other.0);
    }

    /// The empty set.
    #[inline(always)]
    pub fn none() -> (set: Self)
        ensures
            set@ == Set::<int>::empty(),
    {
        proof {
            assert forall|t: int| !bit_is_set(0u64, t) by {
                if 0 <= t < 64 {
                    lemma_full_mask(t as u64);
                }
            }
            assert(Set::new(|t: int| bit_is_set(0u64, t)) =~= Set::<int>::empty());
        }
        ThreadSet(0)
    }

    /// The set of all threads in `0..num_threads`.
    #[inline(always)]
    pub fn any(num_threads: usize) -> (set: Self)
        requires
            num_threads <= MAX_THREADS,
        ensures
            set@ == Set::new(|t: int| 0 <= t < num_threads),
    {
        let bits: u64 = if num_threads == 64 {
            u64::MAX
        } else {
            proof {
                lemma_shift_one(num_threads as u64, 0);
            }
            (1u64 << (num_threads as u64)) - 1
        };
        proof {
            assert forall|t: int| bit_is_set(bits, t) == (0 <= t < num_threads) by {
                if 0 <= t < 64 {
                    if num_threads == 64 {
                        lemma_full_mask(t as u64);
                    } else {
                        lemma_low_mask(bits, num_threads as u64, t as u64);
                    }
                }
            }
            assert(Set::new(|t: int| bit_is_set(bits, t)) =~= Set::new(
                |t: int| 0 <= t < num_threads,
            ));
        }
        ThreadSet(bits)
    }

    /// The set holding `thread_id` alone.
    #[inline(always)]
    pub fn only(thread_id: ThreadId) -> (set: Self)
        requires
            thread_id < MAX_THREADS,
        ensures
            set@ == set![thread_id as int],
    {
        let bits: u64 = 1u64 << (thread_id as u64);
        proof {
            assert forall|t: int| bit_is_set(bits, t) == (t == thread_id) by {
                if 0 <= t < 64 {
                    lemma_shift_one(thread_id as u64, t as u64);
                }
            }
            assert(Set::new(|t: int| bit_is_set(bits, t)) =~= set![thread_id as int]);
        }
        ThreadSet(bits)
    }

    /// Number of threads in the set.
    #[inline(always)]
    pub fn num_threads(&self) -> (count: u8)
        ensures
            count == self@.len(),
    {
        proof {
            lemma_members_below(self.0, 64);
            assert(self@ =~= members_below(self.0, 64));
            Self::lemma_count_bits_bounded(self.0, 64);
        }
        self.0.count_ones() as u8
    }

    /// The sole member of the set, if the set has exactly one.
    #[inline(always)]
    pub fn only_one_scheduled(&self) -> (thread_id: Option<ThreadId>)
        ensures
            match thread_id {
                Some(t) => t < MAX_THREADS && self@ == set![t as int],
                None => self@.len() != 1,
            },
    {
        if self.num_threads() == 1 {
            let lowest: u32 = self.0.trailing_zeros();
            proof {
                self.lemma_bounded();
                vstd::std_specs::bits::axiom_u64_trailing_zeros(self.0);
                if self.0 == 0 {
                    assert forall|t: int| !bit_is_set(0u64, t) by {
                        if 0 <= t < 64 {
                            lemma_full_mask(t as u64);
                        }
                    }
                    assert(self@ =~= Set::<int>::empty());
                }
                assert(bit_is_set(self.0, lowest as int));
                assert(self@.contains(lowest as int));
                let rest = self@.remove(lowest as int);
                assert(rest.len() == 0);
                assert(rest =~= Set::<int>::empty());
                assert(self@ =~= set![lowest as int]);
            }
            Some(lowest as ThreadId)
        } else {
            None
        }
    }

    /// Whether the set has no member.
    #[inline(always)]
    pub fn is_empty(&self) -> (empty: bool)
        ensures
            empty == (self@ == Set::<int>::empty()),
    {
        proof {
            if self.0 == 0 {
                assert forall|t: int| !bit_is_set(0u64, t) by {
                    if 0 <= t < 64 {
                        lemma_full_mask(t as u64);
                    }
                }
                assert(self@ =~= Set::<int>::empty());
            } else {
                vstd::std_specs::bits::axiom_u64_trailing_zeros(self.0);
                let lowest = self.0.trailing_zeros();
                assert(bit_is_set(self.0, lowest as int));
                assert(self@.contains(lowest as int));
            }
        }
        self.0 == 0
    }

    /// Whether `thread_id` is in the set.
    #[inline(always)]
    pub fn contains(&self, thread_id: ThreadId) -> (found: bool)
        ensures
            found == self@.contains(thread_id as int),
    {
        if thread_id >= MAX_THREADS {
            return false;
        }
        proof {
            lemma_test_bit(self.0, thread_id as u64);
        }
        self.0 & (1u64 << (thread_id as u64)) != 0
    }

    /// Adds `thread_id` to the set.
    #[inline(always)]
    pub fn insert(&mut self, thread_id: ThreadId)
        requires
            thread_id < MAX_THREADS,
        ensures
            final(self)@ == old(self)@.insert(thread_id as int),
    {
        let bits: u64 = self.0 | (1u64 << (thread_id as u64));
        proof {
            assert forall|t: int|
                bit_is_set(bits, t) == (bit_is_set(self.0, t) || t == thread_id) by {
                if 0 <= t < 64 {
                    lemma_or_bit(self.0, thread_id as u64, t as u64);
                }
            }
            assert(Set::new(|t: int| bit_is_set(bits, t)) =~= self@.insert(thread_id as int));
        }
        self.0 = bits;
    }

    /// Takes `thread_id` out of the set.
    #[inline(always)]
    pub fn remove(&mut self, thread_id: ThreadId)
        requires
            thread_id < MAX_THREADS,
        ensures
            final(self)@ == old(self)@.remove(thread_id as int),
    {
        let bits: u64 = self.0 & !(1u64 << (thread_id as u64));
        proof {
            assert forall|t: int|
                bit_is_set(bits, t) == (bit_is_set(self.0, t) && t != thread_id) by {
                if 0 <= t < 64 {
                    lemma_clear_bit(self.0, thread_id as u64, t as u64);
                }
            }
            assert(Set::new(|t: int| bit_is_set(bits, t)) =~= self@.remove(thread_id as int));
        }
        self.0 = bits;
    }

    /// Keeps only the threads that are also in `rhs`.
    #[inline(always)]
    pub fn bitand_assign(&mut self, rhs: Self)
        ensures
            final(self)@ == old(self)@.intersect(rhs@),
    {
        let bits: u64 = self.0 & rhs.0;
        proof {
            assert forall|t: int|
                bit_is_set(bits, t) == (bit_is_set(self.0, t) && bit_is_set(rhs.0, t)) by {
                if 0 <= t < 64 {
                    lemma_and_bits(self.0, rhs.0, t as u64);
                }
            }
            assert(Set::new(|t: int| bit_is_set(bits, t)) =~= self@.intersect(rhs@));
        }
        self.0 = bits;
    }

    /// The members of the set in increasing order.
    #[inline(always)]
    pub fn threads_iter(self) -> (threads: Vec<ThreadId>)
        ensures
            forall|i: int| 0 <= i < threads.len() ==> self@.contains(#[trigger] threads[i] as int),
            forall|t: int| self@.contains(t) ==> exists|i: int|
                0 <= i < threads.len() && #[trigger] threads[i] == t,
            forall|i: int, j: int| 0 <= i < j < threads.len() ==> threads[i] < threads[j],
    {
        let mut threads: Vec<ThreadId> = Vec::new();
        let mut thread_id: ThreadId = 0;
        while thread_id < MAX_THREADS
            invariant
                thread_id <= MAX_THREADS,
                forall|i: int|
                    0 <= i < threads.len() ==> self@.contains(#[trigger] threads[i] as int)
                        && threads[i] < thread_id,
                forall|t: int|
                    self@.contains(t) && t < thread_id ==> exists|i: int|
                        0 <= i < threads.len() && #[trigger] threads[i] == t,
                forall|i: int, j: int| 0 <= i < j < threads.len() ==> threads[i] < threads[j],
            decreases MAX_THREADS - thread_id,
        {
            if self.contains(thread_id) {
                let ghost before = threads@;
                threads.push(thread_id);
                proof {
                    assert forall|t: int| self@.contains(t) && t < thread_id + 1 implies exists|
                        i: int,
                    | 0 <= i < threads.len() && #[trigger] threads[i] == t by {
                        if t == thread_id {
                            assert(threads[before.len() as int] == t);
                        } else {
                            let i = choose|i: int| 0 <= i < before.len() && before[i] == t;
                            assert(threads[i] == t);
                        }
                    }
                }
            }
            thread_id += 1;
        }
        threads
    }
}

} // verus!
