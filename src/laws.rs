use crate::memory::RingState;
use vstd::arithmetic::div_mod::{
    lemma_add_mod_noop_right, lemma_fundamental_div_mod, lemma_fundamental_div_mod_converse,
    lemma_mod_add_multiples_vanish, lemma_mod_multiples_basic, lemma_small_mod, lemma_sub_mod_noop,
};
use vstd::prelude::*;
use vstd::seq_lib::lemma_seq_union_to_multiset_commutative;

verus! {

/// Where the items of `items`, pushed in order into an empty memory of capacity
/// `capacity`, end up: slot `j` holds the last of them whose position is `j`
/// modulo the capacity, and there are as many slots as items, up to the capacity.
pub open spec fn ring_of<T>(items: Seq<T>, capacity: nat) -> Seq<T> {
    let n = items.len() as int;
    let len = if n <= capacity {
        n
    } else {
        capacity as int
    };
    Seq::new(len as nat, |j: int| items[n - 1 - (n - 1 - j) % (capacity as int)])
}

/// Stepping back by one from `x` lowers the remainder by one, or wraps it to
/// `c - 1` when it was zero.
proof fn lemma_mod_pred(x: int, c: int)
    requires
        x >= 1,
        c > 0,
    ensures
        (x - 1) % c == if x % c == 0 {
            c - 1
        } else {
            x % c - 1
        },
{
    let q = x / c;
    let r = x % c;
    lemma_fundamental_div_mod(x, c);
    assert(c * q == q * c) by (nonlinear_arith);
    if r > 0 {
        lemma_fundamental_div_mod_converse(x - 1, c, q, r - 1);
    } else {
        assert((q - 1) * c == q * c - c) by (nonlinear_arith);
        lemma_fundamental_div_mod_converse(x - 1, c, q - 1, c - 1);
    }
}

/// Two slots below `c` that agree modulo `c` are the same slot.
proof fn lemma_same_residue(a: int, j: int, c: int)
    requires
        c > 0,
        0 <= j < c,
        a >= j,
        (a - j) % c == 0,
    ensures
        j == a % c,
{
    let m = a % c;
    lemma_small_mod(j as nat, c as nat);
    lemma_sub_mod_noop(a, j, c);
    let y = m - j;
    if y > 0 {
        lemma_small_mod(y as nat, c as nat);
    } else if y < 0 {
        lemma_mod_add_multiples_vanish(y, c);
        lemma_small_mod((c + y) as nat, c as nat);
    }
}

/// Whatever is pushed, a well-formed memory stays well formed, keeps its
/// capacity, and never holds more items than that capacity.
pub proof fn lemma_capacity_invariant<T>(state: RingState<T>, items: Seq<T>)
    requires
        state.wf(),
    ensures
        state.pushed_all(items).wf(),
        state.pushed_all(items).capacity == state.capacity,
        state.pushed_all(items).slots.len() <= state.capacity,
    decreases items.len(),
{
    if items.len() > 0 {
        lemma_capacity_invariant(state, items.drop_last());
        state.pushed_all(items.drop_last()).lemma_pushed_wf(items.last());
    }
}

/// Pushing items in order into an empty memory of positive capacity leaves the
/// last `capacity` of them (all of them, while fewer were pushed), slot `j`
/// holding the latest one whose position is `j` modulo the capacity; the cursor
/// stands at the number of items pushed, modulo the capacity.
pub proof fn lemma_overwrite_oldest<T>(capacity: nat, items: Seq<T>)
    requires
        capacity > 0,
    ensures
        RingState::<T>::empty(capacity).pushed_all(items).slots == ring_of(items, capacity),
        RingState::<T>::empty(capacity).pushed_all(items).cursor == items.len() % capacity,
    decreases items.len(),
{
    let c = capacity as int;
    let n = items.len() as int;
    if n == 0 {
        assert(ring_of(items, capacity) =~= Seq::<T>::empty());
        lemma_small_mod(0, capacity);
    } else {
        let prefix = items.drop_last();
        let np = n - 1;
        let s = RingState::<T>::empty(capacity).pushed_all(prefix);
        lemma_overwrite_oldest(capacity, prefix);
        lemma_capacity_invariant(RingState::<T>::empty(capacity), prefix);
        let after = s.pushed(items.last());
        if np < c {
            lemma_small_mod(np as nat, capacity);
            assert forall|j: int| 0 <= j < n implies after.slots[j] == ring_of(items, capacity)[j] by {
                lemma_small_mod((n - 1 - j) as nat, capacity);
                if j < np {
                    lemma_small_mod((np - 1 - j) as nat, capacity);
                }
            }
            assert(after.slots =~= ring_of(items, capacity));
        } else {
            let m = np % c;
            assert forall|j: int| 0 <= j < c implies after.slots[j] == ring_of(items, capacity)[j] by {
                if j == m {
                    lemma_fundamental_div_mod(np, c);
                    assert(np - m == (np / c) * c) by (nonlinear_arith)
                        requires
                            np == c * (np / c) + m,
                    ;
                    lemma_mod_multiples_basic(np / c, c);
                } else {
                    if (np - j) % c == 0 {
                        lemma_same_residue(np, j, c);
                    }
                    lemma_mod_pred(np - j, c);
                }
            }
            assert(after.slots =~= ring_of(items, capacity));
            lemma_add_mod_noop_right(1, np, c);
        }
    }
}

/// Once at least `capacity` items have been pushed into an empty memory of
/// positive capacity, it holds exactly the last `capacity` of them: the slots
/// are those items rotated so that the oldest stands under the cursor.
pub proof fn lemma_last_items_remain<T>(capacity: nat, items: Seq<T>)
    requires
        capacity > 0,
        items.len() >= capacity,
    ensures
        ({
            let n = items.len() as int;
            let last = items.subrange(n - capacity, n);
            let m = n % (capacity as int);
            &&& RingState::<T>::empty(capacity).pushed_all(items).slots == last.subrange(
                capacity - m,
                capacity as int,
            ) + last.subrange(0, capacity - m)
            &&& RingState::<T>::empty(capacity).pushed_all(items).slots.to_multiset()
                == last.to_multiset()
        }),
{
    let c = capacity as int;
    let n = items.len() as int;
    let last = items.subrange(n - c, n);
    let q = n / c;
    let m = n % c;
    lemma_overwrite_oldest(capacity, items);
    lemma_fundamental_div_mod(n, c);
    assert(q >= 1) by (nonlinear_arith)
        requires
            n == c * q + m,
            0 <= m < c,
            n >= c,
    ;
    assert(0 <= m < c);
    let front = last.subrange(c - m, c);
    let back = last.subrange(0, c - m);
    assert forall|j: int| 0 <= j < c implies ring_of(items, capacity)[j] == (front + back)[j] by {
        if j < m {
            assert(n - 1 - j == q * c + (m - 1 - j)) by (nonlinear_arith)
                requires
                    n == c * q + m,
            ;
            lemma_fundamental_div_mod_converse(n - 1 - j, c, q, m - 1 - j);
        } else {
            assert(n - 1 - j == (q - 1) * c + (c + m - 1 - j)) by (nonlinear_arith)
                requires
                    n == c * q + m,
            ;
            lemma_fundamental_div_mod_converse(n - 1 - j, c, q - 1, c + m - 1 - j);
        }
    }
    assert(ring_of(items, capacity) =~= front + back);
    lemma_seq_union_to_multiset_commutative(front, back);
    assert(back + front =~= last);
}

/// A memory of capacity zero holds nothing, however many items are pushed.
pub proof fn lemma_zero_capacity<T>(items: Seq<T>)
    ensures
        RingState::<T>::empty(0).pushed_all(items) == RingState::<T>::empty(0),
        RingState::<T>::empty(0).pushed_all(items).slots.len() == 0,
    decreases items.len(),
{
    if items.len() > 0 {
        lemma_zero_capacity(items.drop_last());
    }
}

} // verus!
