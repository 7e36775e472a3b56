//! The registry of loaded children and the multiplexer's own record of the
//! host's inputs.
use vstd::prelude::*;
use crate::ats_plugin::AtsHandles;
use crate::child::{Capabilities, ChildModule, EntryPoint};
use crate::dispatch::{aggregate_after, frame_result, lemma_aggregate_prefix, merge_handles, merged, seed_of, step_for, ChildStep};
use crate::manifest::{is_in_tree, join_entry, joined, lines_of, manifest_lines, stays_inside};

verus! {

/// Why one manifest entry was not loaded.
#[derive(Clone, Copy, Debug, PartialEq, Eq, Structural)]
pub enum LoadCause {
    /// The entry resolves outside the multiplexer's directory.
    PathEscape,
    /// The operating system could not load the module; its error code.
    ModuleLoadFailure(i32),
}

/// A manifest entry that was not loaded: the path concerned (the entry as
/// written where it escapes the base directory, else the resolved path), and
/// why.
#[derive(Debug)]
pub struct LoadError {
    pub path: String,
    pub cause: LoadCause,
}

/// What opening one entry gave, where it was opened: the child, or the
/// operating system's error code.
pub type Opened<H> = Result<ChildModule<H>, i32>;

/// The failure of entry `line`, given what opening it gave (which is not
/// looked at for an entry that escapes the base directory).
pub open spec fn failure_of<H>(base: Seq<char>, line: Seq<char>, opened: Opened<H>) -> Option<(Seq<char>, LoadCause)> {
    if !stays_inside(line) {
        Some((line, LoadCause::PathEscape))
    } else {
        match opened {
            Ok(_) => None,
            Err(code) => Some((joined(base, line), LoadCause::ModuleLoadFailure(code))),
        }
    }
}

/// The last failure among the first `k` entries.
pub open spec fn last_failure<H>(base: Seq<char>, lines: Seq<Seq<char>>, opened: Seq<Opened<H>>, k: nat) -> Option<(Seq<char>, LoadCause)>
    decreases k,
{
    if k == 0 {
        None
    } else {
        match failure_of(base, lines[k - 1], opened[k - 1]) {
            Some(f) => Some(f),
            None => last_failure(base, lines, opened, (k - 1) as nat),
        }
    }
}

/// The children that the first `k` entries gave, in order.
pub open spec fn loaded<H>(lines: Seq<Seq<char>>, opened: Seq<Opened<H>>, k: nat) -> Seq<ChildModule<H>>
    decreases k,
{
    if k == 0 {
        Seq::empty()
    } else {
        let before = loaded(lines, opened, (k - 1) as nat);
        if stays_inside(lines[k - 1]) && opened[k - 1] is Ok {
            before.push(opened[k - 1]->Ok_0)
        } else {
            before
        }
    }
}

/// The number of entries among the first `k` that stay inside the base
/// directory.
pub open spec fn inside_count(lines: Seq<Seq<char>>, k: nat) -> nat
    decreases k,
{
    if k == 0 {
        0
    } else {
        inside_count(lines, (k - 1) as nat) + if stays_inside(lines[k - 1]) {
            1nat
        } else {
            0nat
        }
    }
}

proof fn lemma_prefix_stable<H>(base: Seq<char>, lines: Seq<Seq<char>>, opened: Seq<Opened<H>>, extra: Opened<H>, k: nat)
    requires
        k <= opened.len(),
    ensures
        loaded(lines, opened.push(extra), k) == loaded(lines, opened, k),
        last_failure(base, lines, opened.push(extra), k) == last_failure(base, lines, opened, k),
    decreases k,
{
    if k > 0 {
        lemma_prefix_stable(base, lines, opened, extra, (k - 1) as nat);
        assert(opened.push(extra)[k - 1] == opened[k - 1]);
    }
}

proof fn lemma_count_loaded<H>(base: Seq<char>, lines: Seq<Seq<char>>, opened: Seq<Opened<H>>, k: nat)
    requires
        k <= lines.len(),
        k <= opened.len(),
        forall|i: int| 0 <= i < k && stays_inside(lines[i]) ==> opened[i] is Ok,
    ensures
        loaded(lines, opened, k).len() == inside_count(lines, k),
        (forall|i: int| 0 <= i < k ==> stays_inside(lines[i])) ==> last_failure(base, lines, opened, k) is None
            && inside_count(lines, k) == k,
    decreases k,
{
    if k > 0 {
        lemma_count_loaded(base, lines, opened, (k - 1) as nat);
    }
}

proof fn lemma_escape_reported<H>(base: Seq<char>, lines: Seq<Seq<char>>, opened: Seq<Opened<H>>, k: nat, j: int)
    requires
        0 <= j < k,
        !stays_inside(lines[j]),
    ensures
        last_failure(base, lines, opened, k) is Some,
    decreases k,
{
    if j < k - 1 {
        lemma_escape_reported(base, lines, opened, (k - 1) as nat, j);
    }
}

/// `opened[i]` is what `open` gave for entry `i`, for each entry inside the
/// base directory.
pub open spec fn opened_by<H, F: Fn(&str) -> Opened<H>>(open: F, base: Seq<char>, lines: Seq<Seq<char>>, opened: Seq<Opened<H>>) -> bool {
    &&& opened.len() == lines.len()
    &&& forall|i: int|
        0 <= i < lines.len() && stays_inside(#[trigger] lines[i]) ==> exists|p: &str|
            p@ == joined(base, lines[i]) && open.ensures((p,), opened[i])
}

/// The capability tables of a sequence of children.
pub open spec fn caps_of<H>(children: Seq<ChildModule<H>>) -> Seq<Capabilities> {
    children.map_values(|c: ChildModule<H>| c.capabilities)
}

/// The children once a frame is over: each has seen the running instruction
/// as it stood at its turn.
pub open spec fn after_frame<H>(children: Seq<ChildModule<H>>, seed: AtsHandles, proposals: Seq<AtsHandles>) -> Seq<ChildModule<H>> {
    Seq::new(
        children.len(),
        |i: int| ChildModule {
            last_input: Some(aggregate_after(caps_of(children), seed, proposals, i as nat)),
            ..children[i]
        },
    )
}

/// A second frame with the same host inputs, in which every child proposes
/// what it proposed in the first, calls no child's setter: each child is
/// handed a step in which it has already seen every value.
pub proof fn lemma_repeated_frame_is_silent<H>(children: Seq<ChildModule<H>>, seed: AtsHandles, proposals: Seq<AtsHandles>)
    requires
        proposals.len() == children.len(),
    ensures
        forall|i: int|
            0 <= i < children.len() ==> (#[trigger] step_for(
                after_frame(children, seed, proposals)[i].capabilities,
                after_frame(children, seed, proposals)[i].last_input,
                aggregate_after(caps_of(after_frame(children, seed, proposals)), seed, proposals, i as nat),
            )).is_silent(),
{
    let after = after_frame(children, seed, proposals);
    assert(caps_of(after) =~= caps_of(children));
}

/// `proposals[i]` is what `run` returned for child `i`, for each child that
/// has its own per-frame entry point.
pub open spec fn ran_by<H, E: Fn(&H) -> AtsHandles>(run: E, children: Seq<ChildModule<H>>, proposals: Seq<AtsHandles>) -> bool {
    &&& proposals.len() == children.len()
    &&& forall|i: int|
        0 <= i < children.len() && (#[trigger] children[i]).capabilities.elapse ==> run.ensures((&children[i].module,), proposals[i])
}

/// A load's report matches a failure, or its absence.
pub open spec fn reports(r: Result<(), LoadError>, failure: Option<(Seq<char>, LoadCause)>) -> bool {
    match failure {
        None => r is Ok,
        Some((path, cause)) => r is Err && r->Err_0.path@ == path && r->Err_0.cause == cause,
    }
}

/// The children of one multiplexer, in the order in which they were loaded,
/// with the power, brake and reverser that the host itself last set.
///
/// Dropping a child releases its module, so a registry releases each module
/// exactly once: when it is cleared by [`Registry::release_all`] or dropped.
pub struct Registry<H> {
    children: Vec<ChildModule<H>>,
    power_input: i32,
    brake_input: i32,
    reverser_input: i32,
}

impl<H> Registry<H> {
    /// The children, in registration order.
    pub closed spec fn children(&self) -> Seq<ChildModule<H>> {
        self.children@
    }

    /// The power notch the host last set.
    pub closed spec fn power_input(&self) -> i32 {
        self.power_input
    }

    /// The brake notch the host last set.
    pub closed spec fn brake_input(&self) -> i32 {
        self.brake_input
    }

    /// The reverser position the host last set.
    pub closed spec fn reverser_input(&self) -> i32 {
        self.reverser_input
    }

    /// The running instruction at the start of a frame.
    pub open spec fn seed(&self) -> AtsHandles {
        seed_of(self.power_input(), self.brake_input(), self.reverser_input())
    }

    /// An empty registry; the host's inputs start at zero.
    pub fn new() -> (r: Registry<H>)
        ensures
            r.children().len() == 0,
            r.power_input() == 0,
            r.brake_input() == 0,
            r.reverser_input() == 0,
    {
        Registry { children: Vec::new(), power_input: 0, brake_input: 0, reverser_input: 0 }
    }

    /// The number of children.
    pub fn len(&self) -> (r: usize)
        ensures
            r == self.children().len(),
    {
        self.children.len()
    }

    /// The child at position `i`.
    pub fn child(&self, i: usize) -> (r: &ChildModule<H>)
        requires
            i < self.children().len(),
        ensures
            *r == self.children()[i as int],
    {
        &self.children[i]
    }

    /// Records the power notch the host has set.
    pub fn set_power(&mut self, notch: i32)
        ensures
            final(self).power_input() == notch,
            final(self).brake_input() == old(self).brake_input(),
            final(self).reverser_input() == old(self).reverser_input(),
            final(self).children() == old(self).children(),
    {
        self.power_input = notch;
    }

    /// Records the brake notch the host has set.
    pub fn set_brake(&mut self, notch: i32)
        ensures
            final(self).brake_input() == notch,
            final(self).power_input() == old(self).power_input(),
            final(self).reverser_input() == old(self).reverser_input(),
            final(self).children() == old(self).children(),
    {
        self.brake_input = notch;
    }

    /// Records the reverser position the host has set.
    pub fn set_reverser(&mut self, pos: i32)
        ensures
            final(self).reverser_input() == pos,
            final(self).power_input() == old(self).power_input(),
            final(self).brake_input() == old(self).brake_input(),
            final(self).children() == old(self).children(),
    {
        self.reverser_input = pos;
    }

    /// The running instruction that a frame starts from: the host's own last
    /// power, brake and reverser, with constant-speed control to continue.
    pub fn begin_elapse(&self) -> (r: AtsHandles)
        ensures
            r == self.seed(),
    {
        AtsHandles {
            brake: self.brake_input,
            power: self.power_input,
            reverser: self.reverser_input,
            constant_speed: crate::ats_plugin::ATS_CONSTANTSPEED_CONTINUE,
        }
    }

    /// Child `i`'s turn in a frame whose running instruction is `aggregate`:
    /// says which of its setters to call, with what, and whether its own
    /// per-frame entry point is to run. A setter is called only where the
    /// child has it and has not seen that value yet; the child is recorded as
    /// having seen `aggregate` whether it has the setters or not.
    pub fn notify(&mut self, i: usize, aggregate: &AtsHandles) -> (r: ChildStep)
        requires
            i < old(self).children().len(),
        ensures
            r == step_for(old(self).children()[i as int].capabilities, old(self).children()[i as int].last_input, *aggregate),
            final(self).children() == old(self).children().update(
                i as int,
                ChildModule { last_input: Some(*aggregate), ..old(self).children()[i as int] },
            ),
            final(self).power_input() == old(self).power_input(),
            final(self).brake_input() == old(self).brake_input(),
            final(self).reverser_input() == old(self).reverser_input(),
    {
        let caps = self.children[i].capabilities;
        let last = self.children[i].last_input;
        let power = match last {
            Some(h) if h.power == aggregate.power => None,
            _ => if caps.set_power { Some(aggregate.power) } else { None },
        };
        let brake = match last {
            Some(h) if h.brake == aggregate.brake => None,
            _ => if caps.set_brake { Some(aggregate.brake) } else { None },
        };
        let reverser = match last {
            Some(h) if h.reverser == aggregate.reverser => None,
            _ => if caps.set_reverser { Some(aggregate.reverser) } else { None },
        };
        self.children[i].last_input = Some(*aggregate);
        ChildStep { power, brake, reverser, elapse: caps.elapse }
    }

    /// The positions, in registration order, of the children that export
    /// `ep`: those to hand an event of that kind to.
    pub fn recipients(&self, ep: EntryPoint) -> (r: Vec<usize>)
        ensures
            r@ == Seq::new(self.children().len() as nat, |i: int| i).filter(
                |i: int| self.children()[i].capabilities.provides(ep),
            ).map_values(|i: int| i as usize),
    {
        let mut r: Vec<usize> = Vec::new();
        let mut i: usize = 0;
        let ghost all = Seq::new(self.children().len() as nat, |k: int| k);
        let ghost pick = |k: int| self.children()[k].capabilities.provides(ep);
        while i < self.children.len()
            invariant
                i <= self.children().len(),
                all == Seq::new(self.children().len() as nat, |k: int| k),
                pick == (|k: int| self.children()[k].capabilities.provides(ep)),
                r@ == all.take(i as int).filter(pick).map_values(|k: int| k as usize),
            decreases self.children().len() - i,
        {
            assert(all.take(i + 1).drop_last() =~= all.take(i as int));
            assert(all.take(i + 1).last() == i as int);
            reveal(Seq::filter);
            if self.children[i].capabilities.has(ep) {
                r.push(i);
            }
            i = i + 1;
        }
        assert(all.take(i as int) =~= all);
        r
    }

    /// Releases every child, leaving the registry empty. The host's inputs
    /// are kept: a frame after this returns them unchanged.
    pub fn release_all(&mut self)
        ensures
            final(self).children().len() == 0,
            final(self).power_input() == old(self).power_input(),
            final(self).brake_input() == old(self).brake_input(),
            final(self).reverser_input() == old(self).reverser_input(),
    {
        self.children.clear();
    }

    /// Loads every entry of a manifest, in order, appending each child that
    /// loads. `base` is the multiplexer's directory and `text` the manifest,
    /// one path per line; `open` loads the module at a path, runs its on-load
    /// entry point if it has one, and returns the child, or the operating
    /// system's error code.
    ///
    /// An entry that escapes `base` is skipped without calling `open`; an
    /// entry that fails does not stop the others. The result reports the
    /// last failure, if any.
    pub fn load_manifest<F: Fn(&str) -> Opened<H>>(&mut self, base: &str, text: &str, open: F) -> (r: Result<(), LoadError>)
        requires
            forall|p: &str| open.requires((p,)),
        ensures
            exists|opened: Seq<Opened<H>>| {
                &&& #[trigger] opened_by(open, base@, lines_of(text@), opened)
                &&& final(self).children() == old(self).children() + loaded(lines_of(text@), opened, lines_of(text@).len())
                &&& reports(r, last_failure(base@, lines_of(text@), opened, lines_of(text@).len()))
            },
            final(self).power_input() == old(self).power_input(),
            final(self).brake_input() == old(self).brake_input(),
            final(self).reverser_input() == old(self).reverser_input(),
            // every entry stays inside and every open succeeds: all are loaded
            (forall|i: int| 0 <= i < lines_of(text@).len() ==> stays_inside(#[trigger] lines_of(text@)[i]))
                && (forall|p: &str, o: Opened<H>| open.ensures((p,), o) ==> o is Ok) ==> r is Ok
                && final(self).children().len() == old(self).children().len() + lines_of(text@).len(),
            // an entry that escapes is skipped, and reported if it is the last
            (exists|i: int| 0 <= i < lines_of(text@).len() && !stays_inside(#[trigger] lines_of(text@)[i])) ==> r is Err,
            lines_of(text@).len() > 0 && !stays_inside(lines_of(text@).last()) ==> r is Err
                && r->Err_0.path@ == lines_of(text@).last() && r->Err_0.cause == LoadCause::PathEscape,
            (forall|p: &str, o: Opened<H>| open.ensures((p,), o) ==> o is Ok) ==> final(self).children().len()
                == old(self).children().len() + inside_count(lines_of(text@), lines_of(text@).len()),
    {
        let lines = manifest_lines(text);
        let ghost ls = lines_of(text@);
        let ghost start = self.children@;
        let ghost mut opened: Seq<Opened<H>> = Seq::empty();
        let mut outcome: Result<(), LoadError> = Ok(());
        let mut i: usize = 0;
        while i < lines.len()
            invariant
                lines@.map_values(|l: String| l@) == ls,
                ls == lines_of(text@),
                forall|p: &str| open.requires((p,)),
                i <= lines.len(),
                opened.len() == i,
                opened_by(open, base@, ls.take(i as int), opened),
                self.children@ == start + loaded(ls, opened, i as nat),
                reports(outcome, last_failure(base@, ls, opened, i as nat)),
                self.power_input == old(self).power_input,
                self.brake_input == old(self).brake_input,
                self.reverser_input == old(self).reverser_input,
            decreases lines.len() - i,
        {
            assert(lines@.map_values(|l: String| l@)[i as int] == lines@[i as int]@);
            let line = lines[i].as_str();
            if is_in_tree(line) {
                let path = join_entry(base, line);
                let result = open(path.as_str());
                proof {
                    lemma_prefix_stable(base@, ls, opened, result, i as nat);
                    assert(ls.take(i + 1).drop_last() =~= ls.take(i as int));
                    opened = opened.push(result);
                }
                match result {
                    Ok(child) => {
                        self.children.push(child);
                    },
                    Err(code) => {
                        outcome = Err(LoadError { path, cause: LoadCause::ModuleLoadFailure(code) });
                    },
                }
            } else {
                proof {
                    lemma_prefix_stable(base@, ls, opened, Err(0), i as nat);
                    assert(ls.take(i + 1).drop_last() =~= ls.take(i as int));
                    opened = opened.push(Err(0));
                }
                outcome = Err(LoadError { path: String::from_str(line), cause: LoadCause::PathEscape });
            }
            i = i + 1;
        }
        proof {
            assert(ls.take(ls.len() as int) =~= ls);
            let n = ls.len();
            assert(opened_by(open, base@, ls, opened));
            if forall|p: &str, o: Opened<H>| open.ensures((p,), o) ==> o is Ok {
                assert forall|j: int| 0 <= j < n && stays_inside(ls[j]) implies opened[j] is Ok by {
                    let p = choose|p: &str| p@ == joined(base@, ls[j]) && open.ensures((p,), opened[j]);
                }
                lemma_count_loaded(base@, ls, opened, n);
            }
            if exists|j: int| 0 <= j < n && !stays_inside(#[trigger] ls[j]) {
                let j = choose|j: int| 0 <= j < n && !stays_inside(#[trigger] ls[j]);
                lemma_escape_reported(base@, ls, opened, n, j);
            }
        }
        outcome
    }

    /// One frame. Starting from the host's own last inputs, each child in
    /// turn is handed, through `tell`, the step that [`Registry::notify`]
    /// gives for the running instruction; then, where it has its own
    /// per-frame entry point, `run` calls it and its proposal is folded in by
    /// [`merge_handles`]. Returns the instruction for the host.
    pub fn elapse<N: Fn(&H, ChildStep), E: Fn(&H) -> AtsHandles>(&mut self, tell: N, run: E) -> (r: AtsHandles)
        requires
            forall|h: &H, s: ChildStep| tell.requires((h, s)),
            forall|h: &H| run.requires((h,)),
        ensures
            exists|proposals: Seq<AtsHandles>| {
                &&& #[trigger] ran_by(run, old(self).children(), proposals)
                &&& r == frame_result(caps_of(old(self).children()), old(self).seed(), proposals)
                &&& final(self).children() == after_frame(old(self).children(), old(self).seed(), proposals)
            },
            old(self).children().len() == 0 ==> r == old(self).seed(),
            final(self).power_input() == old(self).power_input(),
            final(self).brake_input() == old(self).brake_input(),
            final(self).reverser_input() == old(self).reverser_input(),
    {
        let ghost start = self.children@;
        let ghost caps = caps_of(start);
        let ghost seed = self.seed();
        let ghost mut proposals: Seq<AtsHandles> = Seq::empty();
        let mut aggregate = self.begin_elapse();
        let mut i: usize = 0;
        while i < self.children.len()
            invariant
                forall|h: &H, s: ChildStep| tell.requires((h, s)),
                forall|h: &H| run.requires((h,)),
                caps == caps_of(start),
                i <= self.children@.len(),
                self.children@.len() == start.len(),
                proposals.len() == i,
                aggregate == aggregate_after(caps, seed, proposals, i as nat),
                forall|k: int| 0 <= k < start.len() ==> (#[trigger] self.children@[k]).module == start[k].module
                    && self.children@[k].capabilities == start[k].capabilities,
                forall|k: int| i <= k < start.len() ==> (#[trigger] self.children@[k]) == start[k],
                forall|k: int| 0 <= k < i ==> (#[trigger] self.children@[k]).last_input == Some(aggregate_after(caps, seed, proposals, k as nat)),
                forall|k: int| 0 <= k < i && (#[trigger] start[k]).capabilities.elapse ==> run.ensures((&start[k].module,), proposals[k]),
                seed == seed_of(self.power_input, self.brake_input, self.reverser_input),
                self.power_input == old(self).power_input,
                self.brake_input == old(self).brake_input,
                self.reverser_input == old(self).reverser_input,
            decreases start.len() - i,
        {
            let ghost pre = self.children@;
            let step = self.notify(i, &aggregate);
            let child = &self.children[i];
            tell(&child.module, step);
            let ghost before = proposals;
            let ghost agg0 = aggregate;
            if step.elapse {
                let proposal = run(&child.module);
                aggregate = merge_handles(&aggregate, &proposal);
                proof {
                    proposals = proposals.push(proposal);
                }
            } else {
                proof {
                    proposals = proposals.push(seed);
                }
            }
            proof {
                assert(caps[i as int] == start[i as int].capabilities);
                assert forall|k: int| 0 <= k <= i implies #[trigger] aggregate_after(caps, seed, proposals, k as nat)
                    == aggregate_after(caps, seed, before, k as nat) by {
                    lemma_aggregate_prefix(caps, seed, before, proposals.last(), k as nat);
                    assert(before.push(proposals.last()) == proposals);
                }
                assert(start[i as int] == pre[i as int]);
                assert(step.elapse == caps[i as int].elapse);
                lemma_aggregate_prefix(caps, seed, before, proposals.last(), i as nat);
                assert(before.push(proposals.last()) == proposals);
                assert(aggregate_after(caps, seed, proposals, i as nat) == agg0);
                assert(proposals[i as int] == proposals.last());
                if step.elapse {
                    assert(aggregate == merged(agg0, proposals[i as int]));
                }
                assert(aggregate == aggregate_after(caps, seed, proposals, (i + 1) as nat));
            }
            i = i + 1;
        }
        proof {
            assert(start == old(self).children());
            assert(seed == old(self).seed());
            assert forall|k: int| 0 <= k < start.len() implies self.children@[k] == #[trigger] after_frame(start, seed, proposals)[k] by {
                assert(caps_of(start) == caps);
            }
            assert(self.children@ =~= after_frame(start, seed, proposals));
            assert(ran_by(run, start, proposals));
            assert(caps.len() == start.len());
            assert(aggregate == frame_result(caps, seed, proposals));
        }
        aggregate
    }
}

} // verus!
