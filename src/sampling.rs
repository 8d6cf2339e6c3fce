use crate::memory::ReplayMemory;
use vstd::prelude::*;

verus! {

/// `slots` names pairwise distinct slots, each below `length`.
pub open spec fn distinct_slots(slots: Seq<usize>, length: nat) -> bool {
    &&& slots.no_duplicates()
    &&& forall|i: int| 0 <= i < slots.len() ==> slots[i] < length
}

/// `out` holds, position by position, clones of the items at `slots` of `items`.
pub open spec fn gathered<T: Clone>(items: Seq<T>, slots: Seq<usize>, out: Seq<T>) -> bool {
    &&& out.len() == slots.len()
    &&& forall|i: int| #![auto] 0 <= i < slots.len() ==> cloned(items[slots[i] as int], out[i])
}

/// Relies on rand::seq::index::sample, fed by rand::thread_rng: exactly `amount`
/// distinct indices below `length`, in random order. It panics when `amount`
/// exceeds `length`, and, in a debug build, when `length` is beyond `u32::MAX`
/// and `amount` is not below it.
#[verifier::external_body]
fn draw_slots(length: usize, amount: usize) -> (r: Vec<usize>)
    requires
        amount <= length,
        length <= u32::MAX as usize || amount < length,
    ensures
        r@.len() == amount,
        distinct_slots(r@, length as nat),
{
    rand::seq::index::sample(&mut rand::thread_rng(), length, amount).into_vec()
}

/// Relies on rand::seq::SliceRandom::shuffle, fed by rand::thread_rng: the slice
/// is permuted in place by swaps, so it holds the same values as before.
#[verifier::external_body]
fn shuffle_slots(slots: &mut Vec<usize>)
    ensures
        final(slots)@.to_multiset() == old(slots)@.to_multiset(),
{
    <[usize] as rand::seq::SliceRandom>::shuffle(slots.as_mut_slice(), &mut rand::thread_rng())
}

/// Every slot below `length` exactly once, in random order.
fn all_slots_shuffled(length: usize) -> (r: Vec<usize>)
    ensures
        r@.len() == length,
        distinct_slots(r@, length as nat),
{
    let mut slots: Vec<usize> = Vec::with_capacity(length);
    let mut i: usize = 0;
    while i < length
        invariant
            i <= length,
            slots@.len() == i,
            forall|k: int| 0 <= k < i ==> slots@[k] == k,
        decreases length - i,
    {
        slots.push(i);
        i = i + 1;
    }
    let ghost ordered = slots@;
    proof {
        ordered.lemma_multiset_has_no_duplicates();
    }
    shuffle_slots(&mut slots);
    proof {
        broadcast use vstd::seq_lib::to_multiset_contains, vstd::seq_lib::to_multiset_len;

        assert(slots@.to_multiset().len() == ordered.to_multiset().len());
        assert(slots@.len() == length);
        slots@.lemma_multiset_has_no_duplicates_conv();
        assert forall|k: int| 0 <= k < slots@.len() implies slots@[k] < length by {
            let x = slots@[k];
            assert(slots@.contains(x));
            assert(slots@.to_multiset().count(x) > 0);
            assert(ordered.contains(x));
        }
    }
    slots
}

impl<T: Clone> ReplayMemory<T> {
    /// Returns clones of the items at the given slots, in the order given.
    pub fn sample_at(&self, slots: &Vec<usize>) -> (r: Vec<T>)
        requires
            forall|i: int| 0 <= i < slots@.len() ==> slots@[i] < self@.slots.len(),
        ensures
            gathered(self@.slots, slots@, r@),
    {
        let mut out: Vec<T> = Vec::with_capacity(slots.len());
        let mut i: usize = 0;
        while i < slots.len()
            invariant
                i <= slots@.len(),
                forall|k: int| 0 <= k < slots@.len() ==> slots@[k] < self@.slots.len(),
                gathered(self@.slots, slots@.take(i as int), out@),
            decreases slots@.len() - i,
        {
            let item = self.slot(slots[i]).clone();
            out.push(item);
            i = i + 1;
        }
        proof {
            assert(slots@.take(slots@.len() as int) =~= slots@);
        }
        out
    }

    /// Returns `sample_size` items drawn uniformly at random without replacement,
    /// or every item in random order when fewer than `sample_size` are held.
    pub fn sample(&self, sample_size: usize) -> (r: Vec<T>)
        ensures
            r@.len() == if sample_size <= self@.slots.len() {
                sample_size as nat
            } else {
                self@.slots.len()
            },
            exists|slots: Seq<usize>|
                distinct_slots(slots, self@.slots.len()) && #[trigger] gathered(
                    self@.slots,
                    slots,
                    r@,
                ),
    {
        let len = self.len();
        let amount = if sample_size <= len {
            sample_size
        } else {
            len
        };
        let slots = if len <= u32::MAX as usize || amount < len {
            draw_slots(len, amount)
        } else {
            all_slots_shuffled(len)
        };
        let r = self.sample_at(&slots);
        proof {
            assert(distinct_slots(slots@, self@.slots.len()));
        }
        r
    }
}

} // verus!
