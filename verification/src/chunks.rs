//! Runs of consecutive delivery numbers, each of which one disposition can speak of.

use vstd::prelude::*;

use crate::definitions::DeliveryNumber;
use crate::receiver_delivery::DeliveryInfo;

verus! {

/// Whether the second number is the one after the first, without wrapping.
pub open spec fn follows(left: DeliveryNumber, right: DeliveryNumber) -> bool {
    left + 1 == right
}

/// Whether the second number is the one after the first, without wrapping.
pub fn is_consecutive(left: &DeliveryNumber, right: &DeliveryNumber) -> (consecutive: bool)
    ensures
        consecutive == follows(*left, *right),
{
    *left < u32::MAX && *left + 1 == *right
}

/// Whether one disposition can speak of both deliveries: their numbers are consecutive and they
/// are settled alike.
pub open spec fn joins(left: DeliveryInfo, right: DeliveryInfo) -> bool {
    follows(left.delivery_id, right.delivery_id) && left.rcv_settle_mode == right.rcv_settle_mode
}

/// The places, among the first `count`, at which a new run begins, the very first aside.
pub open spec fn run_starts<A>(items: Seq<A>, joined: spec_fn(A, A) -> bool, count: nat) -> Seq<
    usize,
>
    decreases count,
{
    if count <= 1 {
        seq![]
    } else {
        let before = run_starts(items, joined, (count - 1) as nat);
        if joined(items[count - 2], items[count - 1]) {
            before
        } else {
            before.push((count - 1) as usize)
        }
    }
}

/// What the starts of runs are: every place at which two neighbours do not belong together, in
/// order, and no other.
pub proof fn lemma_run_starts<A>(items: Seq<A>, joined: spec_fn(A, A) -> bool, count: nat)
    requires
        count <= items.len() <= usize::MAX,
    ensures
        ({
            let starts = run_starts(items, joined, count);
            &&& forall|k: int|
                0 <= k < starts.len() ==> {
                    let at = #[trigger] starts[k];
                    &&& 1 <= at < count
                    &&& !joined(items[at - 1], items[at as int])
                }
            &&& forall|k: int, l: int|
                0 <= k < l < starts.len() ==> #[trigger] starts[k] < #[trigger] starts[l]
            &&& forall|at: usize|
                1 <= at < count && !joined(items[at - 1], items[at as int]) ==> #[trigger]
                    starts.contains(at)
        }),
    decreases count,
{
    if count > 1 {
        lemma_run_starts(items, joined, (count - 1) as nat);
        let before = run_starts(items, joined, (count - 1) as nat);
        let starts = run_starts(items, joined, count);
        assert forall|at: usize|
            1 <= at < count && !joined(items[at - 1], items[at as int]) implies #[trigger]
            starts.contains(at) by {
            if at < count - 1 {
                assert(before.contains(at));
                let k = choose|k: int| 0 <= k < before.len() && before[k] == at;
                assert(starts[k] == at);
            } else {
                assert(starts[starts.len() - 1] == at);
            }
        }
    }
}

/// Where the run of a number begins.
pub open spec fn run_start(starts: Seq<usize>, run: int) -> int {
    if run <= 0 {
        0
    } else {
        starts[run - 1] as int
    }
}

/// Where the run of a number ends.
pub open spec fn run_end(starts: Seq<usize>, length: nat, run: int) -> int {
    if run >= starts.len() {
        length as int
    } else {
        starts[run] as int
    }
}

/// Numbers follow each other without wrapping, and one disposition speaks of two deliveries only
/// if their numbers do and both are settled alike.
pub proof fn law_neighbours_join(left: DeliveryInfo, right: DeliveryInfo)
    ensures
        joins(left, right) <==> {
            &&& right.delivery_id == left.delivery_id + 1
            &&& left.rcv_settle_mode == right.rcv_settle_mode
        },
        follows(left.delivery_id, right.delivery_id) <==> right.delivery_id == left.delivery_id
            + 1,
{
}

} // verus!
