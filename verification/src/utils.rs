//! Small helpers shared by the buses, the tracks and the router.

use vstd::prelude::*;
use crate::fanout::{Consumer, Polled};

verus! {

/// Tells whether `id` is among `ids`.
pub fn contains_id(ids: &Vec<u8>, id: u8) -> (found: bool)
    ensures
        found == ids@.contains(id),
{
    let mut i: usize = 0;
    while i < ids.len()
        invariant
            i <= ids.len(),
            forall|k: int| 0 <= k < i ==> ids@[k] != id,
        decreases ids.len() - i,
    {
        if ids[i] == id {
            return true;
        }
        i = i + 1;
    }
    false
}

/// How many polls a flush makes at most. A queue made for a depth of `d`
/// holds as many items as the next power of two at or above `d`: one for a
/// depth of 0, and less than `2 * d` otherwise. So this many polls outlast
/// whatever was queued when the flush began.
pub open spec fn drain_bound(depth: u32) -> nat {
    if depth == 0 {
        1
    } else {
        (2 * depth) as nat
    }
}

/// What a flush takes from a queue: items, one after the other, until a poll
/// brings none or the bound is reached.
pub open spec fn is_drain<T>(taken: Seq<Polled<T>>, bound: nat) -> bool {
    &&& 1 <= taken.len() <= bound
    &&& forall|i: int| 0 <= i < taken.len() - 1 ==> #[trigger] taken[i] is Item
    &&& taken.len() < bound ==> !(taken.last() is Item)
}

/// Throws away what a consumer has waiting, so that what it reads next was
/// captured after this call. Streams of the same queue other than the
/// consumer's own are not touched.
pub fn get_flushed_broadcast_queue<T: Copy>(queue: Consumer<T>) -> (flushed: Consumer<T>)
    ensures
        flushed.depth() == queue.depth(),
        flushed.independent() == queue.independent(),
        flushed.mark() == queue.mark(),
        flushed.polled().len() >= queue.polled().len(),
        flushed.polled().take(queue.polled().len() as int) == queue.polled(),
        is_drain(flushed.polled().skip(queue.polled().len() as int), drain_bound(queue.depth())),
{
    let mut flushed = queue;
    let depth = flushed.get_depth();
    let bound: u64 = if depth == 0 {
        1
    } else {
        2 * (depth as u64)
    };
    let ghost mut taken: Seq<Polled<(u8, T)>> = Seq::empty();
    let mut count: u64 = 0;
    let mut more = true;
    while more && count < bound
        invariant
            bound == drain_bound(queue.depth()),
            bound >= 1,
            flushed.depth() == queue.depth(),
            flushed.independent() == queue.independent(),
            flushed.mark() == queue.mark(),
            flushed.polled() == queue.polled() + taken,
            taken.len() == count,
            count <= bound,
            more ==> forall|i: int| 0 <= i < taken.len() ==> #[trigger] taken[i] is Item,
            !more ==> count >= 1 && !(taken.last() is Item) && forall|i: int|
                0 <= i < taken.len() - 1 ==> #[trigger] taken[i] is Item,
        decreases bound - count + if more { 1nat } else { 0nat },
    {
        let polled = flushed.poll();
        proof {
            taken = taken.push(polled);
        }
        count = count + 1;
        match polled {
            Polled::Item(_) => {},
            _ => {
                more = false;
            },
        }
    }
    proof {
        assert(flushed.polled().skip(queue.polled().len() as int) == taken);
        assert(flushed.polled().take(queue.polled().len() as int) == queue.polled());
    }
    flushed
}

} // verus!
