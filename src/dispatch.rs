//! The per-frame merge: how each child is told of the running instruction,
//! and how its proposal folds into it.
use vstd::prelude::*;
use crate::ats_plugin::AtsHandles;
use crate::child::Capabilities;

verus! {

/// What one child is to be handed in a frame, before its turn comes.
///
/// `power`, `brake` and `reverser` hold the value to pass to the matching
/// setter, and are `None` where that setter is not to be called; `elapse`
/// says whether the child's own per-frame entry point is to run.
#[derive(Clone, Copy, Debug, PartialEq, Eq, Structural)]
pub struct ChildStep {
    pub power: Option<i32>,
    pub brake: Option<i32>,
    pub reverser: Option<i32>,
    pub elapse: bool,
}

impl ChildStep {
    /// No setter is to be called.
    pub open spec fn is_silent(self) -> bool {
        self.power is None && self.brake is None && self.reverser is None
    }
}

/// The running instruction at the start of a frame: the host's own last
/// inputs, with constant-speed control left as it is.
pub open spec fn seed_of(power: i32, brake: i32, reverser: i32) -> AtsHandles {
    AtsHandles { brake, power, reverser, constant_speed: 0 }
}

/// A setter is owed where the child has it and has not yet seen the value.
pub open spec fn notice(present: bool, seen: bool, value: i32) -> Option<i32> {
    if present && !seen {
        Some(value)
    } else {
        None
    }
}

/// What a child with the given table and last seen input is handed when the
/// running instruction is `aggregate`.
pub open spec fn step_for(caps: Capabilities, last: Option<AtsHandles>, aggregate: AtsHandles) -> ChildStep {
    ChildStep {
        power: notice(caps.set_power, last is Some && last->0.power == aggregate.power, aggregate.power),
        brake: notice(caps.set_brake, last is Some && last->0.brake == aggregate.brake, aggregate.brake),
        reverser: notice(
            caps.set_reverser,
            last is Some && last->0.reverser == aggregate.reverser,
            aggregate.reverser,
        ),
        elapse: caps.elapse,
    }
}

/// A child's proposal folded into the running instruction: its handle
/// positions replace the running ones, while constant-speed control only
/// moves up (continue < enable < disable), so that no later child undoes an
/// earlier request by having no opinion.
pub open spec fn merged(aggregate: AtsHandles, proposal: AtsHandles) -> AtsHandles {
    AtsHandles {
        brake: proposal.brake,
        power: proposal.power,
        reverser: proposal.reverser,
        constant_speed: if proposal.constant_speed >= aggregate.constant_speed {
            proposal.constant_speed
        } else {
            aggregate.constant_speed
        },
    }
}

/// Folds a child's proposal into the running instruction.
pub fn merge_handles(aggregate: &AtsHandles, proposal: &AtsHandles) -> (r: AtsHandles)
    ensures
        r == merged(*aggregate, *proposal),
{
    AtsHandles {
        brake: proposal.brake,
        power: proposal.power,
        reverser: proposal.reverser,
        constant_speed: if proposal.constant_speed >= aggregate.constant_speed {
            proposal.constant_speed
        } else {
            aggregate.constant_speed
        },
    }
}

/// The running instruction after the first `k` children of a frame have had
/// their turn. `caps[i]` is child `i`'s table and `proposals[i]` what its
/// per-frame entry point returns; a child without one leaves it unchanged.
pub open spec fn aggregate_after(caps: Seq<Capabilities>, seed: AtsHandles, proposals: Seq<AtsHandles>, k: nat) -> AtsHandles
    decreases k,
{
    if k == 0 {
        seed
    } else {
        let before = aggregate_after(caps, seed, proposals, (k - 1) as nat);
        if caps[k - 1].elapse {
            merged(before, proposals[k - 1])
        } else {
            before
        }
    }
}

/// The instruction a whole frame returns to the host.
pub open spec fn frame_result(caps: Seq<Capabilities>, seed: AtsHandles, proposals: Seq<AtsHandles>) -> AtsHandles {
    aggregate_after(caps, seed, proposals, caps.len())
}

pub proof fn lemma_aggregate_prefix(caps: Seq<Capabilities>, seed: AtsHandles, proposals: Seq<AtsHandles>, extra: AtsHandles, k: nat)
    requires
        k <= proposals.len(),
    ensures
        aggregate_after(caps, seed, proposals.push(extra), k) == aggregate_after(caps, seed, proposals, k),
    decreases k,
{
    if k > 0 {
        lemma_aggregate_prefix(caps, seed, proposals, extra, (k - 1) as nat);
        assert(proposals.push(extra)[k - 1] == proposals[k - 1]);
    }
}

/// In a frame, the handle positions come from the last child that has its
/// own per-frame entry point: later children without one change nothing.
pub proof fn lemma_last_proposal_wins(caps: Seq<Capabilities>, seed: AtsHandles, proposals: Seq<AtsHandles>, j: int)
    requires
        proposals.len() == caps.len(),
        0 <= j < caps.len(),
        caps[j].elapse,
        forall|k: int| j < k < caps.len() ==> !(#[trigger] caps[k]).elapse,
    ensures
        frame_result(caps, seed, proposals).power == proposals[j].power,
        frame_result(caps, seed, proposals).brake == proposals[j].brake,
        frame_result(caps, seed, proposals).reverser == proposals[j].reverser,
{
    lemma_untouched_after(caps, seed, proposals, j + 1, caps.len() as nat);
}

proof fn lemma_untouched_after(caps: Seq<Capabilities>, seed: AtsHandles, proposals: Seq<AtsHandles>, from: int, k: nat)
    requires
        0 <= from <= k <= caps.len(),
        forall|m: int| from <= m < caps.len() ==> !(#[trigger] caps[m]).elapse,
    ensures
        aggregate_after(caps, seed, proposals, k) == aggregate_after(caps, seed, proposals, from as nat),
    decreases k,
{
    if k > from {
        lemma_untouched_after(caps, seed, proposals, from, (k - 1) as nat);
    }
}

/// Constant-speed control in a frame is the highest of the seed's and of
/// every proposal of a child with its own per-frame entry point: so it does
/// not depend on the order of the children.
pub proof fn lemma_constant_speed_is_maximum(caps: Seq<Capabilities>, seed: AtsHandles, proposals: Seq<AtsHandles>)
    requires
        proposals.len() == caps.len(),
    ensures
        frame_result(caps, seed, proposals).constant_speed >= seed.constant_speed,
        forall|k: int| 0 <= k < caps.len() && (#[trigger] caps[k]).elapse ==> frame_result(caps, seed, proposals).constant_speed
            >= proposals[k].constant_speed,
        frame_result(caps, seed, proposals).constant_speed == seed.constant_speed || exists|k: int|
            0 <= k < caps.len() && (#[trigger] caps[k]).elapse && frame_result(caps, seed, proposals).constant_speed
                == proposals[k].constant_speed,
{
    lemma_constant_speed_upto(caps, seed, proposals, caps.len() as nat);
}

proof fn lemma_constant_speed_upto(caps: Seq<Capabilities>, seed: AtsHandles, proposals: Seq<AtsHandles>, n: nat)
    requires
        proposals.len() == caps.len(),
        n <= caps.len(),
    ensures
        aggregate_after(caps, seed, proposals, n).constant_speed >= seed.constant_speed,
        forall|k: int| 0 <= k < n && (#[trigger] caps[k]).elapse ==> aggregate_after(caps, seed, proposals, n).constant_speed
            >= proposals[k].constant_speed,
        aggregate_after(caps, seed, proposals, n).constant_speed == seed.constant_speed || exists|k: int|
            0 <= k < n && (#[trigger] caps[k]).elapse && aggregate_after(caps, seed, proposals, n).constant_speed
                == proposals[k].constant_speed,
    decreases n,
{
    if n > 0 {
        lemma_constant_speed_upto(caps, seed, proposals, (n - 1) as nat);
        let before = aggregate_after(caps, seed, proposals, (n - 1) as nat);
        if before.constant_speed != seed.constant_speed {
            let k = choose|k: int|
                0 <= k < n - 1 && (#[trigger] caps[k]).elapse && before.constant_speed == proposals[k].constant_speed;
            assert(0 <= k < n && caps[k].elapse);
        }
        if caps[n - 1].elapse {
            assert(caps[n - 1 as int].elapse);
        }
    }
}

/// Two children that both propose, taken in either order: the handle
/// positions follow whichever comes last, while constant-speed control comes
/// out the same.
pub proof fn lemma_reordering_two_children(first: Capabilities, second: Capabilities, seed: AtsHandles, a: AtsHandles, b: AtsHandles)
    requires
        first.elapse,
        second.elapse,
    ensures
        frame_result(seq![first, second], seed, seq![a, b]).power == b.power,
        frame_result(seq![second, first], seed, seq![b, a]).power == a.power,
        a.power != b.power ==> frame_result(seq![first, second], seed, seq![a, b]).power != frame_result(
            seq![second, first],
            seed,
            seq![b, a],
        ).power,
        frame_result(seq![first, second], seed, seq![a, b]).constant_speed == frame_result(
            seq![second, first],
            seed,
            seq![b, a],
        ).constant_speed,
{
    let c1 = seq![first, second];
    let c2 = seq![second, first];
    assert(c1[0] == first && c1[1] == second);
    assert(c2[0] == second && c2[1] == first);
    assert(seq![a, b][0] == a && seq![a, b][1] == b);
    assert(seq![b, a][0] == b && seq![b, a][1] == a);
    assert(aggregate_after(c1, seed, seq![a, b], 0) == seed);
    assert(aggregate_after(c2, seed, seq![b, a], 0) == seed);
    assert(aggregate_after(c1, seed, seq![a, b], 1) == merged(seed, a));
    assert(aggregate_after(c2, seed, seq![b, a], 1) == merged(seed, b));
    assert(aggregate_after(c1, seed, seq![a, b], 2) == merged(merged(seed, a), b));
    assert(aggregate_after(c2, seed, seq![b, a], 2) == merged(merged(seed, b), a));
}

} // verus!
