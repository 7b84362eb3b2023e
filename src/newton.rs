use vstd::prelude::*;

verus! {

/// Number of Newton evaluations after which the search gives up.
pub const MAX_ITERATIONS: usize = 100;

/// Why the search for a stationary point failed.
#[derive(Debug, Clone, Copy, PartialEq, Eq, Structural)]
pub enum NewtonError {
    /// The Hessian at the current point has no Cholesky factorization.
    NotPositiveDefinite,
    /// The iteration cap was reached without convergence.
    TooManyIterations,
}

/// What one evaluation at the current point found.
#[derive(Debug, Clone, Copy, PartialEq, Eq, Structural)]
pub enum NewtonEvent {
    /// The Hessian could not be factorized.
    NotPositiveDefinite,
    /// The damped step `0.5 * H^-1 * grad` was computed. `small` holds when
    /// every component of it is at most the tolerance. The comparison is
    /// from above only, so a large negative component also counts as small.
    Step { small: bool },
}

/// What the caller does next.
#[derive(Debug, Clone, Copy, PartialEq, Eq, Structural)]
pub enum NewtonAction {
    /// Stop: the current point is the stationary point.
    Converged,
    /// Subtract the step from the current point and evaluate again.
    TakeStep,
    /// Stop with an error; no point is returned.
    Fail(NewtonError),
}

/// The decision after evaluation number `done + 1`.
pub open spec fn next_action(done: nat, event: NewtonEvent) -> NewtonAction {
    match event {
        NewtonEvent::NotPositiveDefinite => NewtonAction::Fail(NewtonError::NotPositiveDefinite),
        NewtonEvent::Step { small } => if small {
            NewtonAction::Converged
        } else if done + 1 >= MAX_ITERATIONS {
            NewtonAction::Fail(NewtonError::TooManyIterations)
        } else {
            NewtonAction::TakeStep
        },
    }
}

/// The decisions of a damped Newton search: the caller evaluates gradient
/// and Hessian, reports what it found, and follows the returned action.
#[derive(Debug)]
pub struct NewtonControl {
    done: usize,
}

impl NewtonControl {
    /// Number of steps taken so far.
    pub closed spec fn steps(&self) -> nat {
        self.done as nat
    }

    pub open spec fn wf(&self) -> bool {
        self.steps() < MAX_ITERATIONS
    }

    pub fn new() -> (r: NewtonControl)
        ensures
            r.steps() == 0,
            r.wf(),
    {
        NewtonControl { done: 0 }
    }

    /// Number of steps taken so far.
    pub fn steps_taken(&self) -> (r: usize)
        ensures
            r == self.steps(),
    {
        self.done
    }

    /// Decides what follows an evaluation. A step is counted only when one
    /// is taken, so at most `MAX_ITERATIONS` evaluations are ever asked for.
    pub fn observe(&mut self, event: NewtonEvent) -> (r: NewtonAction)
        requires
            old(self).wf(),
        ensures
            r == next_action(old(self).steps(), event),
            r == NewtonAction::TakeStep ==> final(self).steps() == old(self).steps() + 1,
            r != NewtonAction::TakeStep ==> final(self).steps() == old(self).steps(),
            final(self).wf(),
    {
        match event {
            NewtonEvent::NotPositiveDefinite => NewtonAction::Fail(NewtonError::NotPositiveDefinite),
            NewtonEvent::Step { small } => {
                if small {
                    NewtonAction::Converged
                } else if self.done + 1 >= MAX_ITERATIONS {
                    NewtonAction::Fail(NewtonError::TooManyIterations)
                } else {
                    self.done = self.done + 1;
                    NewtonAction::TakeStep
                }
            },
        }
    }
}

} // verus!
