//! The course of a run: which shapes it works on, and what is to be done
//! next for each of them.
//!
//! The library decides; its caller acts. The caller tells a [`Run`] what
//! became of the last thing it was asked to do, and reads from the new
//! [`Phase`] what to do now: store the script of a shape, hand it to the
//! queue, wait, or stop.

use vstd::prelude::*;
use crate::combo::{
    outcome, parse_args_spec, single_node_combos, Combo, ParseError,
};

verus! {

/// How long to wait after a script was handed to the queue, in milliseconds.
pub const DELAY_MS: u64 = 1000;

/// What ended a run before its last shape.
#[derive(Clone, Copy, Debug, PartialEq, Eq, Structural)]
pub enum Failure {
    /// A script could not be stored.
    Io,
    /// The queue could not be started, or refused a script.
    Subprocess,
}

/// Where a run stands. The number is the index of the shape at hand.
#[derive(Clone, Copy, Debug, PartialEq, Eq, Structural)]
pub enum Phase {
    /// Nothing has been asked for yet.
    Idle,
    /// The script of this shape is to be stored.
    Writing(usize),
    /// The stored script of this shape is to be handed to the queue.
    Submitting(usize),
    /// The caller is to wait [`DELAY_MS`] before the run goes on.
    Delaying(usize),
    /// Every shape has been dealt with.
    Done,
    /// The run was given up.
    Failed(Failure),
}

/// What the caller reports.
#[derive(Clone, Copy, Debug, PartialEq, Eq, Structural)]
pub enum Event {
    /// The run is to begin.
    Begin,
    /// What the phase asked for has been done.
    Finished,
    /// What the phase asked for could not be done.
    Broke,
}

/// A run as a plain value.
pub struct RunState {
    pub phase: Phase,
    /// How many shapes there are.
    pub total: usize,
    /// Whether stored scripts are handed to the queue.
    pub submit: bool,
}

/// The phase that takes up shape `index`, or the end where there is none.
pub open spec fn writing_or_done(index: int, total: usize) -> Phase {
    if 0 <= index < total {
        Phase::Writing(index as usize)
    } else {
        Phase::Done
    }
}

/// The phase after `event`. An event that the phase does not wait for
/// changes nothing.
pub open spec fn next_phase(state: RunState, event: Event) -> Phase {
    match (state.phase, event) {
        (Phase::Idle, Event::Begin) => writing_or_done(0, state.total),
        (Phase::Writing(index), Event::Finished) => if state.submit {
            Phase::Submitting(index)
        } else {
            writing_or_done(index + 1, state.total)
        },
        (Phase::Writing(_), Event::Broke) => Phase::Failed(Failure::Io),
        (Phase::Submitting(index), Event::Finished) => Phase::Delaying(index),
        (Phase::Submitting(_), Event::Broke) => Phase::Failed(Failure::Subprocess),
        (Phase::Delaying(index), Event::Finished) => writing_or_done(index + 1, state.total),
        (phase, _) => phase,
    }
}

/// The run after `event`.
pub open spec fn step(state: RunState, event: Event) -> RunState {
    RunState { phase: next_phase(state, event), total: state.total, submit: state.submit }
}

/// The run after a series of events.
pub open spec fn steps(state: RunState, events: Seq<Event>) -> RunState
    decreases events.len(),
{
    if events.len() == 0 {
        state
    } else {
        step(steps(state, events.drop_last()), events.last())
    }
}

/// The shape at hand lies within the list, and nothing is handed to the
/// queue or waited for unless the run submits.
pub open spec fn well_formed(state: RunState) -> bool {
    match state.phase {
        Phase::Writing(index) => index < state.total,
        Phase::Submitting(index) => index < state.total && state.submit,
        Phase::Delaying(index) => index < state.total && state.submit,
        _ => true,
    }
}

/// The shape that the phase is about, if any.
pub open spec fn shape_at_hand(phase: Phase) -> Option<usize> {
    match phase {
        Phase::Writing(index) => Some(index),
        Phase::Submitting(index) => Some(index),
        Phase::Delaying(index) => Some(index),
        _ => None,
    }
}

/// No event leads out of a well-formed run.
pub proof fn lemma_step_well_formed(state: RunState, event: Event)
    requires
        well_formed(state),
    ensures
        well_formed(step(state, event)),
{
}

/// A run that was given up stays given up: whatever is reported later, no
/// further shape is taken up.
pub proof fn lemma_failed_is_final(state: RunState, events: Seq<Event>)
    requires
        state.phase is Failed,
    ensures
        steps(state, events) == state,
    decreases events.len(),
{
    if events.len() > 0 {
        lemma_failed_is_final(state, events.drop_last());
    }
}

/// A run that is done stays done.
pub proof fn lemma_done_is_final(state: RunState, events: Seq<Event>)
    requires
        state.phase is Done,
    ensures
        steps(state, events) == state,
    decreases events.len(),
{
    if events.len() > 0 {
        lemma_done_is_final(state, events.drop_last());
    }
}

/// A failure to store or to hand over ends the run at once.
pub proof fn lemma_broke_fails(state: RunState)
    ensures
        state.phase is Writing ==> step(state, Event::Broke).phase == Phase::Failed(Failure::Io),
        state.phase is Submitting ==> step(state, Event::Broke).phase == Phase::Failed(
            Failure::Subprocess,
        ),
{
}

/// Shapes are taken up one by one in the order of the list: a step either
/// stays with the shape at hand or, once that shape is dealt with, turns to
/// the one after it; the first step turns to the first shape; and the run is
/// done only after the last.
pub proof fn lemma_shapes_in_order(state: RunState, event: Event)
    requires
        well_formed(state),
    ensures
        match (shape_at_hand(state.phase), shape_at_hand(step(state, event).phase)) {
            (Some(before), Some(after)) => after == before || (after == before + 1 && step(
                state,
                event,
            ).phase is Writing && (if state.submit {
                state.phase is Delaying
            } else {
                state.phase is Writing
            })),
            (None, Some(after)) => after == 0 && state.phase is Idle,
            (Some(before), None) => step(state, event).phase is Failed || before + 1
                == state.total,
            (None, None) => step(state, event).phase == state.phase || state.total == 0,
        },
{
}

/// A run that does not submit never asks for the queue or for a delay.
pub proof fn lemma_no_submit_no_delay(state: RunState, event: Event)
    requires
        well_formed(state),
        !state.submit,
    ensures
        !(step(state, event).phase is Submitting),
        !(step(state, event).phase is Delaying),
{
}

/// A run over a list of shapes.
#[derive(Debug)]
pub struct Run {
    phase: Phase,
    total: usize,
    submit: bool,
}

impl View for Run {
    type V = RunState;

    closed spec fn view(&self) -> RunState {
        RunState { phase: self.phase, total: self.total, submit: self.submit }
    }
}

impl Run {
    #[verifier::type_invariant]
    spec fn inv(self) -> bool {
        well_formed(self@)
    }

    /// A run over `total` shapes that has not begun.
    pub fn new(total: usize, submit: bool) -> (run: Run)
        ensures
            run@ == (RunState { phase: Phase::Idle, total, submit }),
    {
        Run { phase: Phase::Idle, total, submit }
    }

    /// Where the run stands.
    pub fn phase(&self) -> (phase: Phase)
        ensures
            phase == self@.phase,
            well_formed(self@),
    {
        proof {
            use_type_invariant(self);
        }
        self.phase
    }

    /// How many shapes the run is over.
    pub fn total(&self) -> (total: usize)
        ensures
            total == self@.total,
    {
        self.total
    }

    /// Whether the run hands its scripts to the queue.
    pub fn submits(&self) -> (submit: bool)
        ensures
            submit == self@.submit,
    {
        self.submit
    }

    /// Takes in what the caller reports and says where the run stands now.
    pub fn advance(&mut self, event: Event) -> (phase: Phase)
        ensures
            final(self)@ == step(old(self)@, event),
            phase == final(self)@.phase,
            well_formed(final(self)@),
    {
        proof {
            use_type_invariant(&*self);
        }
        let total = self.total;
        let next = match (self.phase, event) {
            (Phase::Idle, Event::Begin) => Run::turn_to(0, total),
            (Phase::Writing(index), Event::Finished) => if self.submit {
                Phase::Submitting(index)
            } else {
                Run::turn_to(index + 1, total)
            },
            (Phase::Writing(_), Event::Broke) => Phase::Failed(Failure::Io),
            (Phase::Submitting(index), Event::Finished) => Phase::Delaying(index),
            (Phase::Submitting(_), Event::Broke) => Phase::Failed(Failure::Subprocess),
            (Phase::Delaying(index), Event::Finished) => Run::turn_to(index + 1, total),
            (phase, _) => phase,
        };
        self.phase = next;
        next
    }

    /// Takes up shape `index`, or ends the run where the list has none.
    fn turn_to(index: usize, total: usize) -> (phase: Phase)
        ensures
            phase == writing_or_done(index as int, total),
    {
        if index < total {
            Phase::Writing(index)
        } else {
            Phase::Done
        }
    }
}

/// The shapes that a call asks for: without arguments one for each divisor
/// of the core count, on one node; with arguments those that they spell.
pub open spec fn select_spec(args: Seq<Seq<char>>) -> Result<Seq<Combo>, ParseError> {
    if args.len() == 0 {
        Ok(single_node_combos())
    } else {
        parse_args_spec(args)
    }
}

/// Chooses the shapes of a run from the arguments that follow the program's
/// name.
pub fn select_combos(args: &Vec<String>) -> (result: Result<Vec<Combo>, ParseError>)
    ensures
        outcome(result) == select_spec(args.deep_view()),
{
    if args.len() == 0 {
        Ok(Combo::gen_combos_single_node())
    } else {
        Combo::gen_from_args(args)
    }
}

} // verus!
