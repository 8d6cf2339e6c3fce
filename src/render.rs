use crate::memory::ReplayMemory;
use vstd::prelude::*;
use vstd::string::{to_string_from_display_ensures, StringExecFns};

verus! {

/// The texts joined with a comma and a space between each two of them.
pub open spec fn joined(texts: Seq<String>) -> Seq<char>
    decreases texts.len(),
{
    if texts.len() == 0 {
        Seq::empty()
    } else if texts.len() == 1 {
        texts[0]@
    } else {
        joined(texts.drop_last()) + ", "@ + texts.last()@
    }
}

/// The listing form `ReplayMemory([t0, t1, ...])`.
pub open spec fn listing(texts: Seq<String>) -> Seq<char> {
    "ReplayMemory(["@ + joined(texts) + "])"@
}

/// Writes the listing of the given item texts, in order.
pub fn render_texts(texts: &Vec<String>) -> (r: String)
    ensures
        r@ == listing(texts@),
{
    let mut r = String::from_str("ReplayMemory([");
    let mut i: usize = 0;
    while i < texts.len()
        invariant
            i <= texts@.len(),
            r@ == "ReplayMemory(["@ + joined(texts@.take(i as int)),
        decreases texts@.len() - i,
    {
        proof {
            assert(texts@.take(i + 1).drop_last() =~= texts@.take(i as int));
        }
        if i > 0 {
            r.append(", ");
        }
        r.append(texts[i].as_str());
        i = i + 1;
    }
    proof {
        assert(texts@.take(texts@.len() as int) =~= texts@);
    }
    r.append("])");
    r
}

impl<T: std::fmt::Display> ReplayMemory<T> {
    /// Writes the items in physical slot order as `ReplayMemory([e0, e1, ...])`,
    /// each as its `Display` form.
    pub fn render(&self) -> (r: String)
        ensures
            exists|texts: Seq<String>|
                texts.len() == self@.slots.len() && (forall|i: int|
                    0 <= i < texts.len() ==> to_string_from_display_ensures::<T>(
                        &self@.slots[i],
                        #[trigger] texts[i],
                    )) && r@ == #[trigger] listing(texts),
    {
        let mut texts: Vec<String> = Vec::with_capacity(self.len());
        let mut i: usize = 0;
        while i < self.len()
            invariant
                i <= self@.slots.len(),
                texts@.len() == i,
                forall|k: int|
                    0 <= k < i ==> to_string_from_display_ensures::<T>(
                        &self@.slots[k],
                        #[trigger] texts@[k],
                    ),
            decreases self@.slots.len() - i,
        {
            texts.push(self.slot(i).to_string());
            i = i + 1;
        }
        render_texts(&texts)
    }
}

} // verus!
