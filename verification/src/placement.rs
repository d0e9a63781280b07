//! Slot placement planning.
//!
//! Starting from the focused object's layer and frame window (or a default
//! window when nothing is focused), the planner proposes one insertion
//! request per layer, moving one layer up after each conflict, and gives up
//! after a fixed number of attempts.  It is optimistic: it never asks the
//! host editor which layers are free; the creation call's success or
//! failure is the only conflict signal.  The caller performs the host calls
//! and reports each result back.

use vstd::prelude::*;

verus! {

/// Number of layers tried before a placement is given up.  The bound is a
/// livelock guard: some finite bound is required, the value is a choice.
pub const MAX_ATTEMPTS: u32 = 10;

/// Layer and frame window of a timeline object.
#[derive(Clone, Copy, PartialEq, Eq, Structural)]
pub struct LayerFrame {
    pub layer: i32,
    pub frame_start: i32,
    pub frame_end: i32,
}

/// One placement attempt handed to the host editor: which effect to insert,
/// at which layer, over which frame window.
pub struct PlacementRequest {
    pub effect_identifier: String,
    pub layer: i32,
    pub frame_start: i32,
    pub frame_end: i32,
}

/// The terminal result of a placement: inserted at a layer, or given up
/// with the attempt bound exhausted.
#[derive(Clone, Copy, PartialEq, Eq, Structural, Debug)]
pub enum PlacementOutcome {
    Placed { layer: i32 },
    Failed { attempts_exhausted: bool },
}

/// The context placement starts from: the focused object's layer and frame
/// window, or the default window `[0, 60)` on layer 0.
pub open spec fn context_spec(focused: Option<LayerFrame>) -> LayerFrame {
    match focused {
        Some(f) => f,
        None => LayerFrame { layer: 0, frame_start: 0, frame_end: 60 },
    }
}

/// Resolves the starting context from the host's focused object, if any.
pub fn placement_context(focused: Option<LayerFrame>) -> (r: LayerFrame)
    ensures
        r == context_spec(focused),
{
    match focused {
        Some(f) => f,
        None => LayerFrame { layer: 0, frame_start: 0, frame_end: 60 },
    }
}

/// The bounded retry state machine.  `attempts` counts conflicts noted so
/// far; while `outcome` is `None` the planner still proposes requests.
pub struct PlacementPlanner {
    pub effect_identifier: String,
    pub context: LayerFrame,
    pub attempts: u32,
    pub outcome: Option<PlacementOutcome>,
}

impl PlacementPlanner {
    /// The planner's invariant: the attempt count never passes the bound,
    /// requests are only proposed below it, and every layer the planner can
    /// propose fits in an `i32`.
    pub open spec fn wf(&self) -> bool {
        &&& self.attempts <= MAX_ATTEMPTS
        &&& (self.outcome is None ==> self.attempts < MAX_ATTEMPTS)
        &&& self.context.layer + MAX_ATTEMPTS <= i32::MAX
    }

    /// A fresh planner for one selected effect.
    pub fn new(effect_identifier: String, context: LayerFrame) -> (r: Self)
        requires
            context.layer + MAX_ATTEMPTS <= i32::MAX,
        ensures
            r.wf(),
            r.attempts == 0,
            r.outcome is None,
            r.context == context,
            r.effect_identifier@ == effect_identifier@,
    {
        PlacementPlanner { effect_identifier, context, attempts: 0, outcome: None }
    }

    /// The next request to hand to the host, or `None` once an outcome is
    /// reached.  The layer advances monotonically from the context's layer;
    /// the frame window and the effect never change.
    pub fn next_request(&self) -> (r: Option<PlacementRequest>)
        requires
            self.wf(),
        ensures
            match r {
                Some(req) => self.outcome is None && req.layer == self.context.layer
                    + self.attempts && req.frame_start == self.context.frame_start
                    && req.frame_end == self.context.frame_end && req.effect_identifier@
                    == self.effect_identifier@,
                None => self.outcome is Some,
            },
    {
        match self.outcome {
            Some(_) => None,
            None => Some(
                PlacementRequest {
                    effect_identifier: self.effect_identifier.clone(),
                    layer: self.context.layer + (self.attempts as i32),
                    frame_start: self.context.frame_start,
                    frame_end: self.context.frame_end,
                },
            ),
        }
    }

    /// Records that the host accepted the current request: the placement
    /// succeeded at the layer just proposed.
    pub fn note_success(&mut self)
        requires
            old(self).wf(),
            old(self).outcome is None,
        ensures
            final(self).wf(),
            final(self).outcome == Some(
                PlacementOutcome::Placed {
                    layer: (old(self).context.layer + old(self).attempts) as i32,
                },
            ),
            final(self).context == old(self).context,
            final(self).attempts == old(self).attempts,
            final(self).effect_identifier == old(self).effect_identifier,
    {
        let layer = self.context.layer + (self.attempts as i32);
        self.outcome = Some(PlacementOutcome::Placed { layer });
    }

    /// Records that the host reported the proposed slot unusable: the next
    /// layer will be tried, until the attempt bound is exhausted, at which
    /// point the placement fails for good.
    pub fn note_conflict(&mut self)
        requires
            old(self).wf(),
            old(self).outcome is None,
        ensures
            final(self).wf(),
            final(self).attempts == old(self).attempts + 1,
            final(self).context == old(self).context,
            final(self).effect_identifier == old(self).effect_identifier,
            old(self).attempts + 1 < MAX_ATTEMPTS ==> final(self).outcome is None,
            old(self).attempts + 1 == MAX_ATTEMPTS ==> final(self).outcome == Some(
                PlacementOutcome::Failed { attempts_exhausted: true },
            ),
    {
        self.attempts = self.attempts + 1;
        if self.attempts == MAX_ATTEMPTS {
            self.outcome = Some(PlacementOutcome::Failed { attempts_exhausted: true });
        }
    }

    /// The outcome reached so far, if any.
    pub fn outcome(&self) -> (r: Option<PlacementOutcome>)
        ensures
            r == self.outcome,
    {
        self.outcome
    }
}

/// Starts placement of a selected effect from the host's focused-object
/// context.  Returns `None` only when the starting layer sits so high that
/// the retry window would leave the `i32` range.
pub fn begin_placement(effect_identifier: String, focused: Option<LayerFrame>) -> (r: Option<
    PlacementPlanner,
>)
    ensures
        match r {
            Some(p) => p.wf() && p.attempts == 0 && p.outcome is None && p.context
                == context_spec(focused) && p.effect_identifier@ == effect_identifier@,
            None => context_spec(focused).layer + MAX_ATTEMPTS > i32::MAX,
        },
{
    let context = placement_context(focused);
    if context.layer <= i32::MAX - (MAX_ATTEMPTS as i32) {
        Some(PlacementPlanner::new(effect_identifier, context))
    } else {
        None
    }
}

} // verus!
