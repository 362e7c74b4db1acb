use vstd::prelude::*;

use crate::error::RunError;
use crate::interpreter::RunningInterpreter;
use crate::limits::Limits;
use crate::program::Program;
use crate::state::State;
use crate::calls::{calls_made, StateCall};
use crate::steps::{run_outcome, run_trace, Config};
use crate::value::ScratchValue;

verus! {

/// Entry point: holds the limits a run is held to.
#[derive(Debug, PartialEq, Clone)]
pub struct Interpreter {
    pub(crate) limits: Limits,
}

/// The result of a run: the program, the state as the run left it, why the run
/// stopped early (`None` where every statement ran to the end) and the limits.
pub struct Report<'a, V: ScratchValue, S: State<V>> {
    doc: &'a Program<V>,
    state: S,
    error_code: Option<RunError<S::Error>>,
    limits: Limits,
}

impl<'a, V: ScratchValue, S: State<V>> Report<'a, V, S> {
    pub closed spec fn spec_doc(&self) -> &'a Program<V> {
        self.doc
    }

    pub closed spec fn spec_state(&self) -> S {
        self.state
    }

    pub closed spec fn spec_error_code(&self) -> Option<RunError<S::Error>> {
        self.error_code
    }

    pub closed spec fn spec_limits(&self) -> Limits {
        self.limits
    }

    pub fn doc(&self) -> (res: &&'a Program<V>)
        ensures
            *res == self.spec_doc(),
    {
        &self.doc
    }

    pub fn state(&self) -> (res: &S)
        ensures
            *res == self.spec_state(),
    {
        &self.state
    }

    pub fn error_code(&self) -> (res: &Option<RunError<S::Error>>)
        ensures
            *res == self.spec_error_code(),
    {
        &self.error_code
    }

    pub fn limits(&self) -> (res: &Limits)
        ensures
            *res == self.spec_limits(),
    {
        &self.limits
    }

    /// The state, taken out of the report.
    pub fn into_state(self) -> (res: S)
        ensures
            res == self.spec_state(),
    {
        self.state
    }
}

impl View for Interpreter {
    /// The limits the interpreter holds.
    type V = (Option<usize>, Option<usize>, Option<usize>);

    closed spec fn view(&self) -> (Option<usize>, Option<usize>, Option<usize>) {
        self.limits@
    }
}

impl Interpreter {
    /// The limits the interpreter holds.
    pub closed spec fn spec_limits(self) -> Limits {
        self.limits
    }
    /// An interpreter with [`Limits::restrictive`].
    pub fn new_restrictive() -> (res: Self)
        ensures
            res@ == (Some(1024usize), Some(10240usize), Some(100usize)),
    {
        Interpreter { limits: Limits::restrictive() }
    }

    /// Runs `doc` from `initial_block` on `state` until nothing is left to run or a
    /// statement fails. A run never ends in an internal error. The run is a course of
    /// steps as [`run_trace`] describes it, with `steps[i]` the calls that step `i` made
    /// on the state; all these calls, in order, lead from `state` to the state in the
    /// report.
    pub fn run<'a, V: ScratchValue, S: State<V>>(self, doc: &'a Program<V>, state: S, initial_block: usize) -> (res:
        Report<'a, V, S>)
        ensures
            res.spec_doc() == doc,
            res.spec_limits() == self.spec_limits(),
            !(res.spec_error_code() matches Some(RunError::Internal(_))),
            exists|trace: Seq<Config<V>>, steps: Seq<Seq<StateCall<V, S::Error>>>, gs: Seq<&mut S>|
                #![trigger run_trace(*doc, self.spec_limits(), 10240, initial_block, trace, steps, res.spec_error_code()), calls_made(gs, steps.flatten())]
                run_trace(*doc, self.spec_limits(), 10240, initial_block, trace, steps, res.spec_error_code())
                    && calls_made(gs, steps.flatten()) && (if gs.len() == 0 { res.spec_state() == state } else { mut_ref_current(gs[0]) == state && mut_ref_future(gs.last()) == res.spec_state() && forall|k: int| 0 <= k < gs.len() - 1 ==> mut_ref_future(#[trigger] gs[k]) == mut_ref_current(gs[k + 1]) }),
    {
        let mut running = RunningInterpreter::new(self.limits, doc, state, initial_block);
        let r = running.internal_start(Ghost(initial_block));
        let ghost rg = r;
        let error_code = match r {
            Ok(()) => None,
            Err(e) => Some(e),
        };
        proof {
            assert(error_code == run_outcome(rg));
        }
        Report { doc, state: running.state, error_code, limits: running.limits }
    }

    pub fn limits_mut(&mut self) -> (res: &mut Limits)
        ensures
            res@ == old(self)@,
            final(self)@ == final(res)@,
    {
        &mut self.limits
    }

    pub fn limits(&mut self) -> (res: &Limits)
        ensures
            res@ == old(self)@,
            final(self)@ == old(self)@,
    {
        &self.limits
    }

    pub fn set_limits(&mut self, limits: Limits) -> (res: &mut Self)
        ensures
            res@ == limits@,
            final(self)@ == final(res)@,
    {
        self.limits = limits;
        self
    }

    pub fn with_limits(self, limits: Limits) -> (res: Self)
        ensures
            res@ == limits@,
    {
        let mut s = self;
        s.limits = limits;
        s
    }

    pub fn change_limits<F: FnOnce(Limits) -> Limits>(self, f: F) -> (res: Self)
        requires
            call_requires(f, (self.spec_limits(),)),
        ensures
            call_ensures(f, (self.spec_limits(),), res.spec_limits()),
    {
        let mut s = self;
        s.limits = f(s.limits);
        s
    }
}

} // verus!
