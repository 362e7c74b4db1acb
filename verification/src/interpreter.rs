use vstd::prelude::*;

use crate::calls::{call_made, calls_made, lemma_calls_made_concat, lemma_chain_concat, lemma_one_call, StateCall};
use crate::error::{InternalError, InvalidFileError, LimitError, RunError};
use crate::frames::ProcedureArgumentsFrame;
use crate::limits::Limits;
use crate::program::{BlockKind, Program};
use crate::stack::{Stack, StackItem};
use crate::state::State;
use crate::laws::{lemma_initial_inv, lemma_step_no_internal_error, lemma_step_preserves_inv, machine_inv};
use crate::steps::{limits_outcome, run_outcome, run_trace, step_outcome, stmt_with_context, Config};
use crate::value::ScratchValue;

mod call_procedures;
mod comparisons;
mod expressions;
mod statements;

verus! {

/// A run in progress: the program, the statement stack, the argument frames of the
/// procedure calls that are running, and the state the program works on.
pub struct RunningInterpreter<'a, V: ScratchValue, S: State<V>> {
    pub(crate) doc: &'a Program<V>,
    pub(crate) execute_stmt_count: usize,
    pub(crate) string_max_length: usize,
    pub(crate) state: S,
    pub(crate) stack: Stack<usize>,
    pub(crate) procedure_arguments_frames: Vec<ProcedureArgumentsFrame<V>>,
    pub(crate) limits: Limits,
    /// The calls made on the state so far, in order.
    pub(crate) log: Ghost<Seq<StateCall<V, S::Error>>>,
}

impl<'a, V: ScratchValue, S: State<V>> RunningInterpreter<'a, V, S> {
    /// Everything but the state is the same in `a` and `b`.
    pub(crate) open spec fn same_but_state(a: &Self, b: &Self) -> bool {
        &&& a.doc == b.doc
        &&& a.execute_stmt_count == b.execute_stmt_count
        &&& a.string_max_length == b.string_max_length
        &&& a.stack@ == b.stack@
        &&& a.procedure_arguments_frames@ == b.procedure_arguments_frames@
        &&& a.limits == b.limits
    }

    /// A run that starts with `initial_block` on the stack.
    pub(crate) fn new(limits: Limits, doc: &'a Program<V>, state: S, initial_block: usize) -> (res: Self)
        ensures
            machine_inv(*res.doc, res.stack@, res.procedure_arguments_frames@),
            res.doc == doc,
            res.state == state,
            res.execute_stmt_count == 0,
            res.stack@ == seq![StackItem::Normal(initial_block)],
            res.procedure_arguments_frames@.len() == 0,
            res.string_max_length == 10240,
            res.limits == limits,
    {
        let mut stack = Stack::new();
        stack.push(StackItem::Normal(initial_block));
        proof {
            lemma_initial_inv(*doc, initial_block);
            assert(stack@ =~= seq![StackItem::Normal(initial_block)]);
        }
        RunningInterpreter {
            doc,
            state,
            execute_stmt_count: 0,
            stack,
            procedure_arguments_frames: Vec::new(),
            string_max_length: 10 * 1024,
            limits,
            log: Ghost(Seq::empty()),
        }
    }
}

impl<'a, V: ScratchValue, S: State<V>> RunningInterpreter<'a, V, S> {
    /// Checks the statement count and the stack height against the limits.
    pub(crate) fn check_limits(&self) -> (res: Result<(), LimitError>)
        ensures
            res == limits_outcome(self.limits, self.execute_stmt_count, self.stack@.len()),
    {
        if let Some(limit) = self.limits.max_executed_stmts() {
            if self.execute_stmt_count > *limit {
                return Err(LimitError::ExceededAllowedStmtCount);
            }
        }
        if let Some(limit) = self.limits.max_statement_stack_height() {
            if self.stack.len() > *limit {
                return Err(LimitError::MaxStackSizeExceeded);
            }
        }
        Ok(())
    }

    /// One step: checks the limits, takes the top item off the stack and runs its block.
    /// The calls the step makes on the state, in order, lead from the state before to
    /// the state after.
    #[verifier::spinoff_prover]
    #[verifier::rlimit(60)]
    pub(crate) fn execute_stmt_like(&mut self) -> (res: Result<(), RunError<S::Error>>)
        ensures
            final(self).doc == old(self).doc,
            final(self).execute_stmt_count == old(self).execute_stmt_count,
            final(self).string_max_length == old(self).string_max_length,
            final(self).limits == old(self).limits,
            exists|gs: Seq<&mut S>, cs: Seq<StateCall<V, S::Error>>, out: Result<(), RunError<S::Error>>|
                #![trigger calls_made(gs, cs), step_outcome(*old(self).doc, old(self).limits, old(self).string_max_length, old(self).execute_stmt_count, old(self).stack@, old(self).procedure_arguments_frames@, final(self).stack@, final(self).procedure_arguments_frames@, cs, out)]
                res == out && final(self).log@ == old(self).log@ + cs && calls_made(gs, cs) && step_outcome(*old(self).doc, old(self).limits, old(self).string_max_length, old(self).execute_stmt_count, old(self).stack@, old(self).procedure_arguments_frames@, final(self).stack@, final(self).procedure_arguments_frames@, cs, out) && (if gs.len() == 0 { final(self).state == old(self).state } else { mut_ref_current(gs[0]) == old(self).state && mut_ref_future(gs.last()) == final(self).state && forall|k: int| 0 <= k < gs.len() - 1 ==> mut_ref_future(#[trigger] gs[k]) == mut_ref_current(gs[k + 1]) }),
    {
        proof {
            reveal(step_outcome);
        }
        let ghost t0 = self.state;
        let ghost l0 = self.log@;
        match self.check_limits() {
            Ok(()) => {},
            Err(e) => {
                let res = Err(RunError::Limit(e));
                proof { assert(self.log@ =~= l0 + Seq::<StateCall<V, S::Error>>::empty()); assert(step_outcome(*old(self).doc, old(self).limits, old(self).string_max_length, old(self).execute_stmt_count, old(self).stack@, old(self).procedure_arguments_frames@, self.stack@, self.procedure_arguments_frames@, Seq::<StateCall<V, S::Error>>::empty(), res)); assert(calls_made(Seq::<&mut S>::empty(), Seq::<StateCall<V, S::Error>>::empty())); }
                return res;
            },
        }
        let stack_item = match self.stack.pop() {
            Some(item) => item,
            None => {
                let res = Err(RunError::Internal(InternalError::PopOnEmptyProgramStack));
                proof { assert(self.log@ =~= l0 + Seq::<StateCall<V, S::Error>>::empty()); assert(step_outcome(*old(self).doc, old(self).limits, old(self).string_max_length, old(self).execute_stmt_count, old(self).stack@, old(self).procedure_arguments_frames@, self.stack@, self.procedure_arguments_frames@, Seq::<StateCall<V, S::Error>>::empty(), res)); assert(calls_made(Seq::<&mut S>::empty(), Seq::<StateCall<V, S::Error>>::empty())); }
                return res;
            },
        };
        let ghost s_popped = self.stack@;
        let id = *stack_item.value();
        let doc = self.doc;
        let block = match doc.get_block(id) {
            Some(b) => b,
            None => {
                let res = Err(RunError::File(InvalidFileError::ReachedUnknownBlock(id)));
                proof { assert(self.log@ =~= l0 + Seq::<StateCall<V, S::Error>>::empty()); assert(step_outcome(*old(self).doc, old(self).limits, old(self).string_max_length, old(self).execute_stmt_count, old(self).stack@, old(self).procedure_arguments_frames@, self.stack@, self.procedure_arguments_frames@, Seq::<StateCall<V, S::Error>>::empty(), res)); assert(calls_made(Seq::<&mut S>::empty(), Seq::<StateCall<V, S::Error>>::empty())); }
                return res;
            },
        };
        match &block.kind {
            BlockKind::Event => {
                self.stack.push_opt(block.next);
                let r = self.state.notice_event_block_executed(id);
                let ghost rg = r;
                proof {
                    self.log@ = self.log@.push(StateCall::NoticeEvent(id, rg));
                }
                let res = match r {
                    Ok(()) => Ok(()),
                    Err(e) => Err(RunError::State(e)),
                };
                proof {
                    let g = choose|g: &mut S| #![trigger call_ensures(S::notice_event_block_executed, (g, id), rg)] call_ensures(S::notice_event_block_executed, (g, id), rg) && mut_ref_current(g) == t0 && mut_ref_future(g) == self.state;
                    lemma_one_call(g, StateCall::NoticeEvent(id, rg));
                    assert(self.log@ =~= l0 + seq![StateCall::NoticeEvent(id, rg)]);
                    assert(step_outcome(*old(self).doc, old(self).limits, old(self).string_max_length, old(self).execute_stmt_count, old(self).stack@, old(self).procedure_arguments_frames@, self.stack@, self.procedure_arguments_frames@, seq![StateCall::NoticeEvent(id, rg)], res));
                }
                res
            },
            BlockKind::ProceduresPrototype => {
                self.stack.push_opt(block.next);
                let r = self.state.notice_proc_proto_block_executed(id);
                let ghost rg = r;
                proof {
                    self.log@ = self.log@.push(StateCall::NoticeProto(id, rg));
                }
                let res = match r {
                    Ok(()) => Ok(()),
                    Err(e) => Err(RunError::State(e)),
                };
                proof {
                    let g = choose|g: &mut S| #![trigger call_ensures(S::notice_proc_proto_block_executed, (g, id), rg)] call_ensures(S::notice_proc_proto_block_executed, (g, id), rg) && mut_ref_current(g) == t0 && mut_ref_future(g) == self.state;
                    lemma_one_call(g, StateCall::NoticeProto(id, rg));
                    assert(self.log@ =~= l0 + seq![StateCall::NoticeProto(id, rg)]);
                    assert(step_outcome(*old(self).doc, old(self).limits, old(self).string_max_length, old(self).execute_stmt_count, old(self).stack@, old(self).procedure_arguments_frames@, self.stack@, self.procedure_arguments_frames@, seq![StateCall::NoticeProto(id, rg)], res));
                }
                res
            },
            BlockKind::ProceduresDefinition => {
                self.stack.push_opt(block.next);
                let r = self.state.notice_proc_def_block_executed(id);
                let ghost rg = r;
                proof {
                    self.log@ = self.log@.push(StateCall::NoticeDef(id, rg));
                }
                let res = match r {
                    Ok(()) => Ok(()),
                    Err(e) => Err(RunError::State(e)),
                };
                proof {
                    let g = choose|g: &mut S| #![trigger call_ensures(S::notice_proc_def_block_executed, (g, id), rg)] call_ensures(S::notice_proc_def_block_executed, (g, id), rg) && mut_ref_current(g) == t0 && mut_ref_future(g) == self.state;
                    lemma_one_call(g, StateCall::NoticeDef(id, rg));
                    assert(self.log@ =~= l0 + seq![StateCall::NoticeDef(id, rg)]);
                    assert(step_outcome(*old(self).doc, old(self).limits, old(self).string_max_length, old(self).execute_stmt_count, old(self).stack@, old(self).procedure_arguments_frames@, self.stack@, self.procedure_arguments_frames@, seq![StateCall::NoticeDef(id, rg)], res));
                }
                res
            },
            BlockKind::Expr(_) => {
                let res = Err(RunError::File(InvalidFileError::FoundExpressionWhenStmtExpected(id)));
                proof { assert(self.log@ =~= l0 + Seq::<StateCall<V, S::Error>>::empty()); assert(step_outcome(*old(self).doc, old(self).limits, old(self).string_max_length, old(self).execute_stmt_count, old(self).stack@, old(self).procedure_arguments_frames@, self.stack@, self.procedure_arguments_frames@, Seq::<StateCall<V, S::Error>>::empty(), res)); assert(calls_made(Seq::<&mut S>::empty(), Seq::<StateCall<V, S::Error>>::empty())); }
                res
            },
            BlockKind::Cond(_) => {
                let res = Err(RunError::File(InvalidFileError::FoundExpressionWhenStmtExpected(id)));
                proof { assert(self.log@ =~= l0 + Seq::<StateCall<V, S::Error>>::empty()); assert(step_outcome(*old(self).doc, old(self).limits, old(self).string_max_length, old(self).execute_stmt_count, old(self).stack@, old(self).procedure_arguments_frames@, self.stack@, self.procedure_arguments_frames@, Seq::<StateCall<V, S::Error>>::empty(), res)); assert(calls_made(Seq::<&mut S>::empty(), Seq::<StateCall<V, S::Error>>::empty())); }
                res
            },
            BlockKind::Stmt(stmt) => {
                let res = self.execute_stmt(stmt, id, block.next, stack_item);
                proof {
                    let (gs, cs, out) = choose|gs: Seq<&mut S>, cs: Seq<StateCall<V, S::Error>>, out: Result<(), RunError<S::Error>>|
                    res == out && self.log@ == l0 + cs && calls_made(gs, cs) && stmt_with_context(*old(self).doc, old(self).procedure_arguments_frames@, old(self).string_max_length, id, stack_item, block.next, *stmt, s_popped, self.stack@, self.procedure_arguments_frames@, cs, out) && (if gs.len() == 0 { self.state == t0 } else { mut_ref_current(gs[0]) == t0 && mut_ref_future(gs.last()) == self.state && forall|k: int| 0 <= k < gs.len() - 1 ==> mut_ref_future(#[trigger] gs[k]) == mut_ref_current(gs[k + 1]) });
                    assert(step_outcome(*old(self).doc, old(self).limits, old(self).string_max_length, old(self).execute_stmt_count, old(self).stack@, old(self).procedure_arguments_frames@, self.stack@, self.procedure_arguments_frames@, cs, res));
                }
                res
            },
        }
    }

    /// Runs steps until the stack is empty or a step fails. The number of executed
    /// statements is counted; where counting would overflow, the run stops with
    /// [`LimitError::ExceededAllowedStmtCount`]. The calls of all steps, in order, lead
    /// from the state before to the state after.
    #[verifier::spinoff_prover]
    #[verifier::rlimit(60)]
    pub(crate) fn internal_start(&mut self, Ghost(initial): Ghost<usize>) -> (res: Result<(), RunError<S::Error>>)
        requires
            old(self).stack@ == seq![StackItem::Normal(initial)],
            old(self).procedure_arguments_frames@.len() == 0,
            old(self).execute_stmt_count == 0,
        ensures
            final(self).doc == old(self).doc,
            final(self).limits == old(self).limits,
            !(res matches Err(RunError::Internal(_))),
            res is Ok ==> final(self).stack@.len() == 0,
            exists|trace: Seq<Config<V>>, steps: Seq<Seq<StateCall<V, S::Error>>>, gs: Seq<&mut S>|
                #![trigger run_trace(*old(self).doc, old(self).limits, old(self).string_max_length, initial, trace, steps, run_outcome(res)), calls_made(gs, steps.flatten())]
                run_trace(*old(self).doc, old(self).limits, old(self).string_max_length, initial, trace, steps, run_outcome(res))
                    && final(self).execute_stmt_count == steps.len() - (if res is Ok { 0int } else { 1int })
                    && calls_made(gs, steps.flatten()) && (if gs.len() == 0 { final(self).state == old(self).state } else { mut_ref_current(gs[0]) == old(self).state && mut_ref_future(gs.last()) == final(self).state && forall|k: int| 0 <= k < gs.len() - 1 ==> mut_ref_future(#[trigger] gs[k]) == mut_ref_current(gs[k + 1]) }),
    {
        let ghost t0 = self.state;
        let ghost l0 = self.log@;
        let ghost mut trace: Seq<Config<V>> = seq![(self.stack@, self.procedure_arguments_frames@)];
        let ghost mut steps: Seq<Seq<StateCall<V, S::Error>>> = Seq::empty();
        proof {
            lemma_initial_inv(*self.doc, initial);
            assert(self.procedure_arguments_frames@ =~= Seq::<ProcedureArgumentsFrame<V>>::empty());
            assert(steps.flatten() =~= Seq::<StateCall<V, S::Error>>::empty());
            assert(calls_made(Seq::<&mut S>::empty(), steps.flatten()));
        }
        loop
            invariant
                self.doc == old(self).doc,
                self.limits == old(self).limits,
                self.string_max_length == old(self).string_max_length,
                t0 == old(self).state,
                machine_inv(*self.doc, self.stack@, self.procedure_arguments_frames@),
                self.stack@.len() > 0,
                trace.len() == self.execute_stmt_count + 1,
                steps.len() == self.execute_stmt_count,
                l0 == old(self).log@,
                self.log@ == l0 + steps.flatten(),
                trace[0].0 == seq![StackItem::Normal(initial)],
                trace[0].1 == Seq::<ProcedureArgumentsFrame<V>>::empty(),
                trace.last() == (self.stack@, self.procedure_arguments_frames@),
                forall|i: int|
                    #![trigger trace[i]]
                    0 <= i < trace.len() - 1 ==> trace[i].0.len() > 0 && step_outcome(
                        *self.doc,
                        self.limits,
                        self.string_max_length,
                        i as usize,
                        trace[i].0,
                        trace[i].1,
                        trace[i + 1].0,
                        trace[i + 1].1,
                        steps[i],
                        Ok::<(), RunError<S::Error>>(()),
                    ),
                exists|gs: Seq<&mut S>| #![trigger calls_made(gs, steps.flatten())] calls_made(gs, steps.flatten()) && (if gs.len() == 0 { self.state == t0 } else { mut_ref_current(gs[0]) == t0 && mut_ref_future(gs.last()) == self.state && forall|k: int| 0 <= k < gs.len() - 1 ==> mut_ref_future(#[trigger] gs[k]) == mut_ref_current(gs[k + 1]) }),
            decreases usize::MAX - self.execute_stmt_count,
        {
            let ghost pre = *self;
            let ghost t1 = self.state;
            let ghost l1 = self.log@;
            let r = self.execute_stmt_like();
            let ghost rr = r;
            proof {
                let (gk, ck, ok) = choose|gs: Seq<&mut S>, cs: Seq<StateCall<V, S::Error>>, out: Result<(), RunError<S::Error>>|
                    rr == out && self.log@ == l1 + cs && calls_made(gs, cs) && step_outcome(*pre.doc, pre.limits, pre.string_max_length, pre.execute_stmt_count, pre.stack@, pre.procedure_arguments_frames@, self.stack@, self.procedure_arguments_frames@, cs, out) && (if gs.len() == 0 { self.state == t1 } else { mut_ref_current(gs[0]) == t1 && mut_ref_future(gs.last()) == self.state && forall|k: int| 0 <= k < gs.len() - 1 ==> mut_ref_future(#[trigger] gs[k]) == mut_ref_current(gs[k + 1]) });
                let gp = choose|gs: Seq<&mut S>| calls_made(gs, steps.flatten()) && (if gs.len() == 0 { t1 == t0 } else { mut_ref_current(gs[0]) == t0 && mut_ref_future(gs.last()) == t1 && forall|k: int| 0 <= k < gs.len() - 1 ==> mut_ref_future(#[trigger] gs[k]) == mut_ref_current(gs[k + 1]) });
                lemma_step_no_internal_error(
                    *pre.doc,
                    pre.limits,
                    pre.string_max_length,
                    pre.execute_stmt_count,
                    pre.stack@,
                    pre.procedure_arguments_frames@,
                    self.stack@,
                    self.procedure_arguments_frames@,
                    ck,
                    r,
                );
                if r is Ok {
                    lemma_step_preserves_inv(
                        *pre.doc,
                        pre.limits,
                        pre.string_max_length,
                        pre.execute_stmt_count,
                        pre.stack@,
                        pre.procedure_arguments_frames@,
                        self.stack@,
                        self.procedure_arguments_frames@,
                        ck,
                        r,
                    );
                }
                let cb = self.log@.skip(l1.len() as int);
                assert(cb =~= ck);
                let ns = steps.push(cb);
                assert(ns =~= steps + seq![cb]);
                vstd::seq_lib::lemma_flatten_concat(steps, seq![cb]);
                seq![cb].lemma_flatten_one_element();
                assert(ns.flatten() =~= steps.flatten() + cb);
                assert(self.log@ =~= l0 + ns.flatten());
                lemma_calls_made_concat(gp, steps.flatten(), gk, ck);
                lemma_chain_concat(t0, gp, t1, gk, self.state);
                assert(calls_made(gp + gk, ns.flatten()));
                assert(ns.last() == cb);
                assert(forall|i: int| 0 <= i < steps.len() ==> ns[i] == steps[i]);
                steps = ns;
            }
            match r {
                Ok(_) => {},
                Err(e) => {
                    proof {
                        let gw = choose|gs: Seq<&mut S>| calls_made(gs, steps.flatten()) && (if gs.len() == 0 { self.state == t0 } else { mut_ref_current(gs[0]) == t0 && mut_ref_future(gs.last()) == self.state && forall|k: int| 0 <= k < gs.len() - 1 ==> mut_ref_future(#[trigger] gs[k]) == mut_ref_current(gs[k + 1]) });
                        assert(calls_made(gw, steps.flatten()));
                        assert(step_outcome(
                            *pre.doc,
                            pre.limits,
                            pre.string_max_length,
                            (trace.len() - 1) as usize,
                            trace.last().0,
                            trace.last().1,
                            self.stack@,
                            self.procedure_arguments_frames@,
                            steps.last(),
                            rr,
                        ));
                        assert(run_trace(
                            *pre.doc,
                            pre.limits,
                            pre.string_max_length,
                            initial,
                            trace,
                            steps,
                            run_outcome(Err::<(), RunError<S::Error>>(e)),
                        ));
                    }
                    return Err(e);
                },
            }
            let ghost prev = trace;
            proof {
                trace = trace.push((self.stack@, self.procedure_arguments_frames@));
                assert forall|i: int| #![trigger trace[i]] 0 <= i < trace.len() - 1 implies trace[i].0.len() > 0 && step_outcome(
                    *self.doc,
                    self.limits,
                    self.string_max_length,
                    i as usize,
                    trace[i].0,
                    trace[i].1,
                    trace[i + 1].0,
                    trace[i + 1].1,
                    steps[i],
                    Ok::<(), RunError<S::Error>>(()),
                ) by {
                    if i < prev.len() - 1 {
                        assert(trace[i] == prev[i]);
                        assert(trace[i + 1] == prev[i + 1]);
                        assert(prev[i].0.len() > 0);
                    } else {
                        assert(i == prev.len() - 1);
                        assert(trace[i] == prev.last());
                        assert(trace[i + 1] == (self.stack@, self.procedure_arguments_frames@));
                        assert(i as usize == pre.execute_stmt_count);
                        assert(rr is Ok);
                        assert(rr->Ok_0 == ());
                        assert(rr == Ok::<(), RunError<S::Error>>(()));
                    }
                }
            }
            if self.execute_stmt_count == usize::MAX {
                proof {
                    let gw = choose|gs: Seq<&mut S>| calls_made(gs, steps.flatten()) && (if gs.len() == 0 { self.state == t0 } else { mut_ref_current(gs[0]) == t0 && mut_ref_future(gs.last()) == self.state && forall|k: int| 0 <= k < gs.len() - 1 ==> mut_ref_future(#[trigger] gs[k]) == mut_ref_current(gs[k + 1]) });
                        assert(calls_made(gw, steps.flatten()));
                    assert(run_trace(
                        *self.doc,
                        self.limits,
                        self.string_max_length,
                        initial,
                        trace,
                        steps,
                        run_outcome(Err::<(), RunError<S::Error>>(RunError::Limit(LimitError::ExceededAllowedStmtCount))),
                    ));
                }
                return Err(RunError::Limit(LimitError::ExceededAllowedStmtCount));
            }
            self.execute_stmt_count = self.execute_stmt_count + 1;
            if self.stack.is_empty() {
                proof {
                    let gw = choose|gs: Seq<&mut S>| calls_made(gs, steps.flatten()) && (if gs.len() == 0 { self.state == t0 } else { mut_ref_current(gs[0]) == t0 && mut_ref_future(gs.last()) == self.state && forall|k: int| 0 <= k < gs.len() - 1 ==> mut_ref_future(#[trigger] gs[k]) == mut_ref_current(gs[k + 1]) });
                        assert(calls_made(gw, steps.flatten()));
                    assert(trace.last() == (self.stack@, self.procedure_arguments_frames@));
                    assert(run_trace(
                        *self.doc,
                        self.limits,
                        self.string_max_length,
                        initial,
                        trace,
                        steps,
                        run_outcome(Ok::<(), RunError<S::Error>>(())),
                    ));
                }
                return Ok(());
            }
        }
    }
}

} // verus!
