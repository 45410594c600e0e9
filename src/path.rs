//! The decisions of the colour integrator along one light path.
//!
//! A path is allowed `depth` traced rays. Each traced ray either misses the
//! scene (the path ends in the sky gradient, weighted by the attenuations
//! gathered so far), hits a surface whose material absorbs it (the path ends
//! black), or hits a surface that scatters it (the attenuation is gathered and
//! the scattered ray is traced with one ray less allowed). A path with no ray
//! left ends black.

use vstd::prelude::*;

verus! {

/// What became of one traced ray.
#[derive(Clone, Copy, Debug, PartialEq, Eq, Structural)]
pub enum Bounce {
    /// No surface was hit within the search interval.
    Miss,
    /// A surface was hit and its material absorbed the ray.
    Absorbed,
    /// A surface was hit and its material scattered the ray.
    Scattered,
}

/// What the integrator does next.
#[derive(Clone, Copy, Debug, PartialEq, Eq, Structural)]
pub enum Step {
    /// Trace the current ray against the scene.
    Trace,
    /// The path ends with no light: black.
    Black,
    /// The path ends in the sky: the background gradient for the current
    /// ray's direction, times the attenuations gathered.
    Sky,
}

/// The step of a path allowed `depth` rays once the traced rays have come to
/// `events`, in order. Events after the path has ended are ignored.
pub open spec fn path_step(depth: nat, events: Seq<Bounce>) -> Step
    decreases events.len(),
{
    if depth == 0 {
        Step::Black
    } else if events.len() == 0 {
        Step::Trace
    } else {
        match events[0] {
            Bounce::Miss => Step::Sky,
            Bounce::Absorbed => Step::Black,
            Bounce::Scattered => path_step((depth - 1) as nat, events.drop_first()),
        }
    }
}

/// A path with no ray allowed ends black, whatever the scene holds.
pub proof fn lemma_depth_zero_is_black(events: Seq<Bounce>)
    ensures
        path_step(0, events) == Step::Black,
{
}

/// A path traces at most `depth` rays: while it still traces, fewer than
/// `depth` rays have been traced, all of them scattered.
pub proof fn lemma_traces_at_most_depth(depth: nat, events: Seq<Bounce>)
    ensures
        path_step(depth, events) == Step::Trace ==> {
            &&& events.len() < depth
            &&& forall|k: int| 0 <= k < events.len() ==> #[trigger] events[k] == Bounce::Scattered
        },
    decreases events.len(),
{
    if depth > 0 && events.len() > 0 && events[0] == Bounce::Scattered {
        lemma_traces_at_most_depth((depth - 1) as nat, events.drop_first());
        if path_step(depth, events) == Step::Trace {
            assert forall|k: int| 0 <= k < events.len() implies #[trigger] events[k]
                == Bounce::Scattered by {
                if k > 0 {
                    assert(events[k] == events.drop_first()[k - 1]);
                }
            }
        }
    }
}

/// Once a path has ended, further events do not change how it ended.
pub proof fn lemma_end_is_final(depth: nat, events: Seq<Bounce>, b: Bounce)
    requires
        path_step(depth, events) != Step::Trace,
    ensures
        path_step(depth, events.push(b)) == path_step(depth, events),
    decreases events.len(),
{
    if depth > 0 && events.len() > 0 {
        assert(events.push(b)[0] == events[0]);
        if events[0] == Bounce::Scattered {
            assert(events.push(b).drop_first() =~= events.drop_first().push(b));
            lemma_end_is_final((depth - 1) as nat, events.drop_first(), b);
        }
    }
}

/// The state of the integrator along one path.
pub struct Path {
    depth: u32,
    remaining: u32,
    step: Step,
    events: Ghost<Seq<Bounce>>,
}

impl Path {
    /// Rays allowed for the whole path.
    pub closed spec fn depth(&self) -> nat {
        self.depth as nat
    }

    /// What the traced rays came to so far.
    pub closed spec fn events(&self) -> Seq<Bounce> {
        self.events@
    }

    pub closed spec fn wf(&self) -> bool {
        &&& self.step == path_step(self.depth as nat, self.events@)
        &&& self.step == Step::Trace ==> self.remaining as int == self.depth - self.events@.len()
            && forall|k: int|
            0 <= k < self.events@.len() ==> #[trigger] self.events@[k] == Bounce::Scattered
    }

    /// A path allowed `depth` rays, none traced yet.
    pub fn new(depth: u32) -> (p: Path)
        ensures
            p.wf(),
            p.depth() == depth,
            p.events() == Seq::<Bounce>::empty(),
    {
        let step = if depth == 0 {
            Step::Black
        } else {
            Step::Trace
        };
        Path { depth, remaining: depth, step, events: Ghost(Seq::empty()) }
    }

    /// What the integrator does next.
    pub fn step(&self) -> (s: Step)
        requires
            self.wf(),
        ensures
            s == path_step(self.depth(), self.events()),
    {
        self.step
    }

    /// Rays still allowed.
    pub fn remaining(&self) -> (r: u32)
        requires
            self.wf(),
            path_step(self.depth(), self.events()) == Step::Trace,
        ensures
            r == self.depth() - self.events().len(),
    {
        self.remaining
    }

    /// Records what became of the ray that was just traced.
    pub fn record(&mut self, b: Bounce)
        requires
            old(self).wf(),
            path_step(old(self).depth(), old(self).events()) == Step::Trace,
        ensures
            final(self).wf(),
            final(self).depth() == old(self).depth(),
            final(self).events() == old(self).events().push(b),
    {
        let ghost old_events = self.events@;
        proof {
            lemma_traces_at_most_depth(self.depth as nat, old_events);
            lemma_step_after_scatters(self.depth as nat, old_events, b);
        }
        self.events = Ghost(old_events.push(b));
        match b {
            Bounce::Miss => {
                self.step = Step::Sky;
            },
            Bounce::Absorbed => {
                self.step = Step::Black;
            },
            Bounce::Scattered => {
                self.remaining = self.remaining - 1;
                if self.remaining == 0 {
                    self.step = Step::Black;
                }
            },
        }
        assert forall|k: int| 0 <= k < self.events@.len() && b == Bounce::Scattered implies
            #[trigger] self.events@[k] == Bounce::Scattered by {
            if k < old_events.len() {
                assert(self.events@[k] == old_events[k]);
            }
        }
    }
}

/// Extending a path that traces only scattered rays by one more event.
proof fn lemma_step_after_scatters(depth: nat, events: Seq<Bounce>, b: Bounce)
    requires
        events.len() < depth,
        forall|k: int| 0 <= k < events.len() ==> #[trigger] events[k] == Bounce::Scattered,
    ensures
        path_step(depth, events) == Step::Trace,
        path_step(depth, events.push(b)) == match b {
            Bounce::Miss => Step::Sky,
            Bounce::Absorbed => Step::Black,
            Bounce::Scattered => if events.len() + 1 == depth {
                Step::Black
            } else {
                Step::Trace
            },
        },
    decreases events.len(),
{
    if events.len() > 0 {
        let rest = events.drop_first();
        assert forall|k: int| 0 <= k < rest.len() implies #[trigger] rest[k]
            == Bounce::Scattered by {
            assert(rest[k] == events[k + 1]);
        }
        assert(events[0] == Bounce::Scattered);
        assert(events.push(b)[0] == Bounce::Scattered);
        assert(events.push(b).drop_first() =~= rest.push(b));
        lemma_step_after_scatters((depth - 1) as nat, rest, b);
    } else {
        let one = events.push(b);
        assert(one[0] == b);
        assert(one.drop_first() =~= Seq::<Bounce>::empty());
        assert(path_step((depth - 1) as nat, Seq::<Bounce>::empty()) == if depth == 1 {
            Step::Black
        } else {
            Step::Trace
        });
    }
}

} // verus!
