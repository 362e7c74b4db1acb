use vstd::prelude::*;

use crate::calls::{
    call_made, calls_made, cond_done, expr_done, lemma_calls_made_concat, lemma_chain_concat, lemma_one_call,
    StateCall,
};
use crate::error::{InternalError, RunError, UnsupportedError, UserError};
use crate::interpreter::RunningInterpreter;
use crate::program::StmtKind;
use crate::stack::StackItem;
use crate::state::{OutputKind, State};
use crate::steps::{stmt_outcome, stmt_with_context};
use crate::value::ScratchValue;

verus! {

impl<'a, V: ScratchValue, S: State<V>> RunningInterpreter<'a, V, S> {
    /// Runs statement block `id` of kind `stmt`, followed by `next`, reached through
    /// `stack_item` (already taken off the stack). The calls it makes on the state are
    /// `cs`, in order: first it tells the state which statement runs, then it makes the
    /// calls its kind asks for; they lead from the state before to the state after.
    #[verifier::spinoff_prover]
    #[verifier::rlimit(60)]
    pub(crate) fn execute_stmt(
        &mut self,
        stmt: &StmtKind<V>,
        id: usize,
        next: Option<usize>,
        stack_item: StackItem<usize>,
    ) -> (res: Result<(), RunError<S::Error>>)
        ensures
            final(self).doc == old(self).doc,
            final(self).execute_stmt_count == old(self).execute_stmt_count,
            final(self).string_max_length == old(self).string_max_length,
            final(self).limits == old(self).limits,
            exists|gs: Seq<&mut S>, cs: Seq<StateCall<V, S::Error>>, out: Result<(), RunError<S::Error>>|
                #![trigger calls_made(gs, cs), stmt_with_context(*old(self).doc, old(self).procedure_arguments_frames@, old(self).string_max_length, id, stack_item, next, *stmt, old(self).stack@, final(self).stack@, final(self).procedure_arguments_frames@, cs, out)]
                res == out && final(self).log@ == old(self).log@ + cs && calls_made(gs, cs) && stmt_with_context(*old(self).doc, old(self).procedure_arguments_frames@, old(self).string_max_length, id, stack_item, next, *stmt, old(self).stack@, final(self).stack@, final(self).procedure_arguments_frames@, cs, out) && (if gs.len() == 0 { final(self).state == old(self).state } else { mut_ref_current(gs[0]) == old(self).state && mut_ref_future(gs.last()) == final(self).state && forall|k: int| 0 <= k < gs.len() - 1 ==> mut_ref_future(#[trigger] gs[k]) == mut_ref_current(gs[k + 1]) }),
    {
        let ghost t0 = self.state;
        let ghost l0 = self.log@;
        let rc = self.state.set_statement_as_context(id);
        let ghost rcg = rc;
        proof {
            self.log@ = self.log@.push(StateCall::Context(id, rcg));
        }
        let ghost t1 = self.state;
        let ghost l1 = self.log@;
        match rc {
            Ok(()) => {},
            Err(e) => {
                let res = Err(RunError::State(e));
                proof {
                    let g = choose|g: &mut S| #![trigger call_ensures(S::set_statement_as_context, (g, id), rcg)] call_ensures(S::set_statement_as_context, (g, id), rcg) && mut_ref_current(g) == t0 && mut_ref_future(g) == self.state;
                    lemma_one_call(g, StateCall::Context(id, rcg));
                    assert(self.log@ =~= l0 + seq![StateCall::Context(id, rcg)]);
                    assert(stmt_with_context(*old(self).doc, old(self).procedure_arguments_frames@, old(self).string_max_length, id, stack_item, next, *stmt, old(self).stack@, self.stack@, self.procedure_arguments_frames@, seq![StateCall::Context(id, rcg)], res));
                }
                return res;
            },
        }
        let res = self.execute_stmt_kind(stmt, id, next, stack_item);
        proof {
            let g = choose|g: &mut S| #![trigger call_ensures(S::set_statement_as_context, (g, id), rcg)] call_ensures(S::set_statement_as_context, (g, id), rcg) && mut_ref_current(g) == t0 && mut_ref_future(g) == t1;
            lemma_one_call(g, StateCall::Context(id, rcg));
            let (gk, ck, ok) = choose|gs: Seq<&mut S>, cs: Seq<StateCall<V, S::Error>>, out: Result<(), RunError<S::Error>>|
                    res == out && self.log@ == l1 + cs && calls_made(gs, cs) && stmt_outcome(*old(self).doc, old(self).procedure_arguments_frames@, old(self).string_max_length, id, stack_item, next, *stmt, old(self).stack@, self.stack@, self.procedure_arguments_frames@, cs, out) && (if gs.len() == 0 { self.state == t1 } else { mut_ref_current(gs[0]) == t1 && mut_ref_future(gs.last()) == self.state && forall|k: int| 0 <= k < gs.len() - 1 ==> mut_ref_future(#[trigger] gs[k]) == mut_ref_current(gs[k + 1]) });
            lemma_calls_made_concat(seq![g], seq![StateCall::Context(id, rcg)], gk, ck);
            lemma_chain_concat(t0, seq![g], t1, gk, self.state);
            let all = seq![StateCall::Context(id, rcg)] + ck;
            assert(self.log@ =~= l0 + all);
            assert(all.drop_first() =~= ck);
            assert(self.log@ =~= l0 + all);
            assert(stmt_with_context(*old(self).doc, old(self).procedure_arguments_frames@, old(self).string_max_length, id, stack_item, next, *stmt, old(self).stack@, self.stack@, self.procedure_arguments_frames@, all, res));
        }
        res
    }

    /// Runs statement block `id` of kind `stmt` once the state knows it runs: the
    /// calls `cs` of its kind, in order, lead from the state before to the state after.
    #[verifier::spinoff_prover]
    #[verifier::rlimit(60)]
    fn execute_stmt_kind(
        &mut self,
        stmt: &StmtKind<V>,
        id: usize,
        next: Option<usize>,
        stack_item: StackItem<usize>,
    ) -> (res: Result<(), RunError<S::Error>>)
        ensures
            final(self).doc == old(self).doc,
            final(self).execute_stmt_count == old(self).execute_stmt_count,
            final(self).string_max_length == old(self).string_max_length,
            final(self).limits == old(self).limits,
            exists|gs: Seq<&mut S>, cs: Seq<StateCall<V, S::Error>>, out: Result<(), RunError<S::Error>>|
                #![trigger calls_made(gs, cs), stmt_outcome(*old(self).doc, old(self).procedure_arguments_frames@, old(self).string_max_length, id, stack_item, next, *stmt, old(self).stack@, final(self).stack@, final(self).procedure_arguments_frames@, cs, out)]
                res == out && final(self).log@ == old(self).log@ + cs && calls_made(gs, cs) && stmt_outcome(*old(self).doc, old(self).procedure_arguments_frames@, old(self).string_max_length, id, stack_item, next, *stmt, old(self).stack@, final(self).stack@, final(self).procedure_arguments_frames@, cs, out) && (if gs.len() == 0 { final(self).state == old(self).state } else { mut_ref_current(gs[0]) == old(self).state && mut_ref_future(gs.last()) == final(self).state && forall|k: int| 0 <= k < gs.len() - 1 ==> mut_ref_future(#[trigger] gs[k]) == mut_ref_current(gs[k + 1]) }),
    {
        let ghost t0 = self.state;
        let ghost l0 = self.log@;
        match stmt {
            StmtKind::ControlIf { .. } | StmtKind::ControlIfElse { .. } | StmtKind::ControlRepeatUntil { .. } | StmtKind::ControlWaitUntil { .. } => self.execute_stmt_control_conditions(stmt, id, next, stack_item),
            StmtKind::ControlWait { .. } | StmtKind::ControlForever { .. } | StmtKind::ControlRepeat { .. } => self.execute_stmt_control_loops(stmt, id, next, stack_item),
            StmtKind::DataAddToList { .. } | StmtKind::DataDeleteOfList { .. } | StmtKind::DataInsertAtList { .. } | StmtKind::DataDeleteAllOfList { .. } | StmtKind::DataReplaceItemOfList { .. } => self.execute_stmt_list_changes(stmt, id, next, stack_item),
            StmtKind::DataSetVariableTo { .. } | StmtKind::DataChangeVariableBy { .. } => self.execute_stmt_variable_changes(stmt, id, next, stack_item),
            StmtKind::LooksSay { .. } | StmtKind::LooksThink { .. } | StmtKind::LooksThinkForSecs { .. } | StmtKind::LooksSayForSecs { .. } | StmtKind::SensingAskAndWait { .. } => self.execute_stmt_looks_and_asks(stmt, id, next, stack_item),
            StmtKind::NoEffect => {
                self.stack.push_opt(next);
                let res = Ok(());
                proof { assert(self.log@ =~= l0 + Seq::<StateCall<V, S::Error>>::empty()); assert(stmt_outcome(*old(self).doc, old(self).procedure_arguments_frames@, old(self).string_max_length, id, stack_item, next, *stmt, old(self).stack@, self.stack@, self.procedure_arguments_frames@, Seq::<StateCall<V, S::Error>>::empty(), res)); assert(calls_made(Seq::<&mut S>::empty(), Seq::<StateCall<V, S::Error>>::empty())); }
                res
            },
            StmtKind::CloneBlock => {
                let res = Err(RunError::Unsupported(UnsupportedError::CloneBlocksNotSupported(id)));
                proof { assert(self.log@ =~= l0 + Seq::<StateCall<V, S::Error>>::empty()); assert(stmt_outcome(*old(self).doc, old(self).procedure_arguments_frames@, old(self).string_max_length, id, stack_item, next, *stmt, old(self).stack@, self.stack@, self.procedure_arguments_frames@, Seq::<StateCall<V, S::Error>>::empty(), res)); assert(calls_made(Seq::<&mut S>::empty(), Seq::<StateCall<V, S::Error>>::empty())); }
                res
            },
            StmtKind::ControlStop => {
                let res = Err(RunError::TerminatedByControlStop);
                proof { assert(self.log@ =~= l0 + Seq::<StateCall<V, S::Error>>::empty()); assert(stmt_outcome(*old(self).doc, old(self).procedure_arguments_frames@, old(self).string_max_length, id, stack_item, next, *stmt, old(self).stack@, self.stack@, self.procedure_arguments_frames@, Seq::<StateCall<V, S::Error>>::empty(), res)); assert(calls_made(Seq::<&mut S>::empty(), Seq::<StateCall<V, S::Error>>::empty())); }
                res
            },
            StmtKind::EventBroadcast => {
                let res = Err(RunError::Unsupported(UnsupportedError::EventSendingNotSupported));
                proof { assert(self.log@ =~= l0 + Seq::<StateCall<V, S::Error>>::empty()); assert(stmt_outcome(*old(self).doc, old(self).procedure_arguments_frames@, old(self).string_max_length, id, stack_item, next, *stmt, old(self).stack@, self.stack@, self.procedure_arguments_frames@, Seq::<StateCall<V, S::Error>>::empty(), res)); assert(calls_made(Seq::<&mut S>::empty(), Seq::<StateCall<V, S::Error>>::empty())); }
                res
            },
            StmtKind::ProceduresCall { procedure_id, arguments } => {
                self.call_procedure(id, next, &stack_item, procedure_id, arguments)
            },
        }
    }

    /// Runs a statement that tests a condition (if, if-else, repeat-until, wait-until), as `execute_stmt_kind` does.
    #[verifier::spinoff_prover]
    #[verifier::rlimit(60)]
    fn execute_stmt_control_conditions(
        &mut self,
        stmt: &StmtKind<V>,
        id: usize,
        next: Option<usize>,
        stack_item: StackItem<usize>,
    ) -> (res: Result<(), RunError<S::Error>>)
        requires
            *stmt is ControlIf || *stmt is ControlIfElse || *stmt is ControlRepeatUntil || *stmt is ControlWaitUntil,
        ensures
            final(self).doc == old(self).doc,
            final(self).execute_stmt_count == old(self).execute_stmt_count,
            final(self).string_max_length == old(self).string_max_length,
            final(self).limits == old(self).limits,
            exists|gs: Seq<&mut S>, cs: Seq<StateCall<V, S::Error>>, out: Result<(), RunError<S::Error>>|
                #![trigger calls_made(gs, cs), stmt_outcome(*old(self).doc, old(self).procedure_arguments_frames@, old(self).string_max_length, id, stack_item, next, *stmt, old(self).stack@, final(self).stack@, final(self).procedure_arguments_frames@, cs, out)]
                res == out && final(self).log@ == old(self).log@ + cs && calls_made(gs, cs) && stmt_outcome(*old(self).doc, old(self).procedure_arguments_frames@, old(self).string_max_length, id, stack_item, next, *stmt, old(self).stack@, final(self).stack@, final(self).procedure_arguments_frames@, cs, out) && (if gs.len() == 0 { final(self).state == old(self).state } else { mut_ref_current(gs[0]) == old(self).state && mut_ref_future(gs.last()) == final(self).state && forall|k: int| 0 <= k < gs.len() - 1 ==> mut_ref_future(#[trigger] gs[k]) == mut_ref_current(gs[k + 1]) }),
    {
        let ghost t0 = self.state;
        let ghost l0 = self.log@;
        match stmt {
            StmtKind::ControlIf { condition, substack } => {
                let cr = self.eval_opt_cond(condition);
                let ghost cg = cr;
                let res = match cr {
                    Ok(true) => {
                        self.stack.push_opt(next);
                        self.stack.push_opt(*substack);
                        Ok(())
                    },
                    Ok(false) => {
                        self.stack.push_opt(next);
                        Ok(())
                    },
                    Err(e) => Err(e),
                };
                proof {
                    let (gc, cc, oc) = choose|gs: Seq<&mut S>, cs: Seq<StateCall<V, S::Error>>, out: Result<bool, RunError<S::Error>>|
                    cg == out && self.log@ == l0 + cs && cond_done(*old(self).doc, old(self).procedure_arguments_frames@, old(self).string_max_length, *condition, old(self).doc.spec_blocks().len(), gs, cs, out) && (if gs.len() == 0 { self.state == t0 } else { mut_ref_current(gs[0]) == t0 && mut_ref_future(gs.last()) == self.state && forall|k: int| 0 <= k < gs.len() - 1 ==> mut_ref_future(#[trigger] gs[k]) == mut_ref_current(gs[k + 1]) });
                    assert(self.log@ =~= l0 + cc); assert(stmt_outcome(*old(self).doc, old(self).procedure_arguments_frames@, old(self).string_max_length, id, stack_item, next, *stmt, old(self).stack@, self.stack@, self.procedure_arguments_frames@, cc, res));
                }
                res
            },
            StmtKind::ControlIfElse { condition, substack, substack2 } => {
                self.stack.push_opt(next);
                let cr = self.eval_opt_cond(condition);
                let ghost cg = cr;
                let res = match cr {
                    Ok(true) => {
                        self.stack.push_opt(*substack);
                        Ok(())
                    },
                    Ok(false) => {
                        self.stack.push_opt(*substack2);
                        Ok(())
                    },
                    Err(e) => Err(e),
                };
                proof {
                    let (gc, cc, oc) = choose|gs: Seq<&mut S>, cs: Seq<StateCall<V, S::Error>>, out: Result<bool, RunError<S::Error>>|
                    cg == out && self.log@ == l0 + cs && cond_done(*old(self).doc, old(self).procedure_arguments_frames@, old(self).string_max_length, *condition, old(self).doc.spec_blocks().len(), gs, cs, out) && (if gs.len() == 0 { self.state == t0 } else { mut_ref_current(gs[0]) == t0 && mut_ref_future(gs.last()) == self.state && forall|k: int| 0 <= k < gs.len() - 1 ==> mut_ref_future(#[trigger] gs[k]) == mut_ref_current(gs[k + 1]) });
                    assert(self.log@ =~= l0 + cc); assert(stmt_outcome(*old(self).doc, old(self).procedure_arguments_frames@, old(self).string_max_length, id, stack_item, next, *stmt, old(self).stack@, self.stack@, self.procedure_arguments_frames@, cc, res));
                }
                res
            },
            StmtKind::ControlRepeatUntil { condition, substack } => {
                let cr = self.eval_opt_cond(condition);
                let ghost cg = cr;
                let res = match cr {
                    Ok(true) => {
                        self.stack.push_opt(next);
                        Ok(())
                    },
                    Ok(false) => match substack {
                        Some(b) => {
                            self.stack.push(stack_item);
                            self.stack.push(StackItem::Normal(*b));
                            Ok(())
                        },
                        None => Err(RunError::User(UserError::ConditionLoopWithoutBodyNeverStops)),
                    },
                    Err(e) => Err(e),
                };
                proof {
                    let (gc, cc, oc) = choose|gs: Seq<&mut S>, cs: Seq<StateCall<V, S::Error>>, out: Result<bool, RunError<S::Error>>|
                    cg == out && self.log@ == l0 + cs && cond_done(*old(self).doc, old(self).procedure_arguments_frames@, old(self).string_max_length, *condition, old(self).doc.spec_blocks().len(), gs, cs, out) && (if gs.len() == 0 { self.state == t0 } else { mut_ref_current(gs[0]) == t0 && mut_ref_future(gs.last()) == self.state && forall|k: int| 0 <= k < gs.len() - 1 ==> mut_ref_future(#[trigger] gs[k]) == mut_ref_current(gs[k + 1]) });
                    assert(self.log@ =~= l0 + cc); assert(stmt_outcome(*old(self).doc, old(self).procedure_arguments_frames@, old(self).string_max_length, id, stack_item, next, *stmt, old(self).stack@, self.stack@, self.procedure_arguments_frames@, cc, res));
                }
                res
            },
            StmtKind::ControlWaitUntil { condition } => {
                let cr = self.eval_opt_cond(condition);
                let ghost cg = cr;
                let res = match cr {
                    Ok(true) => {
                        self.stack.push_opt(next);
                        Ok(())
                    },
                    Ok(false) => Err(RunError::User(UserError::WaitUntilFalseNeverTerminatesInSingleThreadded)),
                    Err(e) => Err(e),
                };
                proof {
                    let (gc, cc, oc) = choose|gs: Seq<&mut S>, cs: Seq<StateCall<V, S::Error>>, out: Result<bool, RunError<S::Error>>|
                    cg == out && self.log@ == l0 + cs && cond_done(*old(self).doc, old(self).procedure_arguments_frames@, old(self).string_max_length, *condition, old(self).doc.spec_blocks().len(), gs, cs, out) && (if gs.len() == 0 { self.state == t0 } else { mut_ref_current(gs[0]) == t0 && mut_ref_future(gs.last()) == self.state && forall|k: int| 0 <= k < gs.len() - 1 ==> mut_ref_future(#[trigger] gs[k]) == mut_ref_current(gs[k + 1]) });
                    assert(self.log@ =~= l0 + cc); assert(stmt_outcome(*old(self).doc, old(self).procedure_arguments_frames@, old(self).string_max_length, id, stack_item, next, *stmt, old(self).stack@, self.stack@, self.procedure_arguments_frames@, cc, res));
                }
                res
            },
            _ => {
                proof {
                    assert(false);
                }
                Err(RunError::TerminatedByControlStop)
            },
        }
    }

    /// Runs a waiting or looping statement without a condition (wait, forever, repeat), as `execute_stmt_kind` does.
    #[verifier::spinoff_prover]
    #[verifier::rlimit(60)]
    fn execute_stmt_control_loops(
        &mut self,
        stmt: &StmtKind<V>,
        id: usize,
        next: Option<usize>,
        stack_item: StackItem<usize>,
    ) -> (res: Result<(), RunError<S::Error>>)
        requires
            *stmt is ControlWait || *stmt is ControlForever || *stmt is ControlRepeat,
        ensures
            final(self).doc == old(self).doc,
            final(self).execute_stmt_count == old(self).execute_stmt_count,
            final(self).string_max_length == old(self).string_max_length,
            final(self).limits == old(self).limits,
            exists|gs: Seq<&mut S>, cs: Seq<StateCall<V, S::Error>>, out: Result<(), RunError<S::Error>>|
                #![trigger calls_made(gs, cs), stmt_outcome(*old(self).doc, old(self).procedure_arguments_frames@, old(self).string_max_length, id, stack_item, next, *stmt, old(self).stack@, final(self).stack@, final(self).procedure_arguments_frames@, cs, out)]
                res == out && final(self).log@ == old(self).log@ + cs && calls_made(gs, cs) && stmt_outcome(*old(self).doc, old(self).procedure_arguments_frames@, old(self).string_max_length, id, stack_item, next, *stmt, old(self).stack@, final(self).stack@, final(self).procedure_arguments_frames@, cs, out) && (if gs.len() == 0 { final(self).state == old(self).state } else { mut_ref_current(gs[0]) == old(self).state && mut_ref_future(gs.last()) == final(self).state && forall|k: int| 0 <= k < gs.len() - 1 ==> mut_ref_future(#[trigger] gs[k]) == mut_ref_current(gs[k + 1]) }),
    {
        let ghost t0 = self.state;
        let ghost l0 = self.log@;
        match stmt {
            StmtKind::ControlWait { duration } => {
                let xr = self.eval_expr(duration);
                let ghost xg = xr;
                let ghost t1 = self.state;
                let ghost l1 = self.log@;
                let x = match xr {
                    Ok(v) => v,
                    Err(e) => {
                        proof {
                            let (ga, ca, oa) = choose|gs: Seq<&mut S>, cs: Seq<StateCall<V, S::Error>>, out: Result<V, RunError<S::Error>>|
                    xg == out && l1 == l0 + cs && expr_done(*old(self).doc, old(self).procedure_arguments_frames@, old(self).string_max_length, *duration, old(self).doc.spec_blocks().len(), gs, cs, out) && (if gs.len() == 0 { t1 == t0 } else { mut_ref_current(gs[0]) == t0 && mut_ref_future(gs.last()) == t1 && forall|k: int| 0 <= k < gs.len() - 1 ==> mut_ref_future(#[trigger] gs[k]) == mut_ref_current(gs[k + 1]) });
                            assert(ca.take(ca.len() as int) =~= ca);
                            assert(self.log@ =~= l0 + ca); assert(stmt_outcome(*old(self).doc, old(self).procedure_arguments_frames@, old(self).string_max_length, id, stack_item, next, *stmt, old(self).stack@, self.stack@, self.procedure_arguments_frames@, ca, Err::<(), RunError<S::Error>>(e)));
                        }
                        return Err(e);
                    },
                };
                let ghost xv = x;
                let n = x.as_number();
                let ghost ng = n;
                let r = self.state.wait_for_secs(n);
                let ghost rg = r;
                proof {
                    self.log@ = self.log@.push(StateCall::Wait(ng, rg));
                }
                let res = match r {
                    Ok(()) => {
                        self.stack.push_opt(next);
                        Ok(())
                    },
                    Err(e) => Err(RunError::State(e)),
                };
                proof {
                    let (ga, ca, oa) = choose|gs: Seq<&mut S>, cs: Seq<StateCall<V, S::Error>>, out: Result<V, RunError<S::Error>>|
                    xg == out && l1 == l0 + cs && expr_done(*old(self).doc, old(self).procedure_arguments_frames@, old(self).string_max_length, *duration, old(self).doc.spec_blocks().len(), gs, cs, out) && (if gs.len() == 0 { t1 == t0 } else { mut_ref_current(gs[0]) == t0 && mut_ref_future(gs.last()) == t1 && forall|k: int| 0 <= k < gs.len() - 1 ==> mut_ref_future(#[trigger] gs[k]) == mut_ref_current(gs[k + 1]) });
                    let g = choose|g: &mut S| #![trigger call_ensures(S::wait_for_secs, (g, ng), rg)] call_ensures(S::wait_for_secs, (g, ng), rg) && mut_ref_current(g) == t1 && mut_ref_future(g) == self.state;
                    lemma_one_call(g, StateCall::Wait(ng, rg));
                    let cc = StateCall::Wait(ng, rg);
                    lemma_calls_made_concat(ga, ca, seq![g], seq![cc]);
                    lemma_chain_concat(t0, ga, t1, seq![g], self.state);
                    assert(self.log@ =~= l0 + (ca + seq![cc]));
                    let all = ca + seq![cc];
                    assert(self.log@ =~= l0 + all);
                    assert(all.take(ca.len() as int) =~= ca);
                    assert(all[ca.len() as int] == cc);
                    assert(self.log@ =~= l0 + all); assert(stmt_outcome(*old(self).doc, old(self).procedure_arguments_frames@, old(self).string_max_length, id, stack_item, next, *stmt, old(self).stack@, self.stack@, self.procedure_arguments_frames@, all, res));
                }
                res
            },
            StmtKind::ControlForever { substack } => {
                let res = match substack {
                    Some(b) => {
                        self.stack.push(stack_item);
                        self.stack.push(StackItem::Normal(*b));
                        Ok(())
                    },
                    None => Err(RunError::User(UserError::InfiniteLoopWithoutBodyNeverStops)),
                };
                proof { assert(self.log@ =~= l0 + Seq::<StateCall<V, S::Error>>::empty()); assert(stmt_outcome(*old(self).doc, old(self).procedure_arguments_frames@, old(self).string_max_length, id, stack_item, next, *stmt, old(self).stack@, self.stack@, self.procedure_arguments_frames@, Seq::<StateCall<V, S::Error>>::empty(), res)); assert(calls_made(Seq::<&mut S>::empty(), Seq::<StateCall<V, S::Error>>::empty())); }
                res
            },
            StmtKind::ControlRepeat { times, substack } => {
                match stack_item {
                    StackItem::Normal(_) => {
                        let vr = self.eval_expr(times);
                        let ghost vg = vr;
                        let res = match vr {
                            Ok(v) => {
                                let n = v.int_or_border();
                                let remaining: usize = if n < 0 {
                                    0
                                } else {
                                    n as usize
                                };
                                if remaining == 0 {
                                    self.stack.push_opt(next);
                                } else {
                                    self.stack.push(StackItem::CountLoop(id, remaining - 1));
                                    self.stack.push_opt(*substack);
                                }
                                Ok(())
                            },
                            Err(e) => Err(e),
                        };
                        proof {
                            let (ga, ca, oa) = choose|gs: Seq<&mut S>, cs: Seq<StateCall<V, S::Error>>, out: Result<V, RunError<S::Error>>|
                    vg == out && self.log@ == l0 + cs && expr_done(*old(self).doc, old(self).procedure_arguments_frames@, old(self).string_max_length, *times, old(self).doc.spec_blocks().len(), gs, cs, out) && (if gs.len() == 0 { self.state == t0 } else { mut_ref_current(gs[0]) == t0 && mut_ref_future(gs.last()) == self.state && forall|k: int| 0 <= k < gs.len() - 1 ==> mut_ref_future(#[trigger] gs[k]) == mut_ref_current(gs[k + 1]) });
                            assert(self.log@ =~= l0 + ca); assert(stmt_outcome(*old(self).doc, old(self).procedure_arguments_frames@, old(self).string_max_length, id, stack_item, next, *stmt, old(self).stack@, self.stack@, self.procedure_arguments_frames@, ca, res));
                        }
                        res
                    },
                    StackItem::CountLoop(_, remaining) => {
                        if remaining == 0 {
                            self.stack.push_opt(next);
                        } else {
                            self.stack.push(StackItem::CountLoop(id, remaining - 1));
                            self.stack.push_opt(*substack);
                        }
                        let res = Ok(());
                        proof { assert(self.log@ =~= l0 + Seq::<StateCall<V, S::Error>>::empty()); assert(stmt_outcome(*old(self).doc, old(self).procedure_arguments_frames@, old(self).string_max_length, id, stack_item, next, *stmt, old(self).stack@, self.stack@, self.procedure_arguments_frames@, Seq::<StateCall<V, S::Error>>::empty(), res)); assert(calls_made(Seq::<&mut S>::empty(), Seq::<StateCall<V, S::Error>>::empty())); }
                        res
                    },
                    StackItem::PopArgumentFrame(_) => {
                        let res = Err(RunError::Internal(InternalError::FatalWrongStackFrameForContext));
                        proof { assert(self.log@ =~= l0 + Seq::<StateCall<V, S::Error>>::empty()); assert(stmt_outcome(*old(self).doc, old(self).procedure_arguments_frames@, old(self).string_max_length, id, stack_item, next, *stmt, old(self).stack@, self.stack@, self.procedure_arguments_frames@, Seq::<StateCall<V, S::Error>>::empty(), res)); assert(calls_made(Seq::<&mut S>::empty(), Seq::<StateCall<V, S::Error>>::empty())); }
                        res
                    },
                }
            },
            _ => {
                proof {
                    assert(false);
                }
                Err(RunError::TerminatedByControlStop)
            },
        }
    }

    /// Runs a statement that changes a list, as `execute_stmt_kind` does.
    #[verifier::spinoff_prover]
    #[verifier::rlimit(60)]
    fn execute_stmt_list_changes(
        &mut self,
        stmt: &StmtKind<V>,
        id: usize,
        next: Option<usize>,
        stack_item: StackItem<usize>,
    ) -> (res: Result<(), RunError<S::Error>>)
        requires
            *stmt is DataAddToList || *stmt is DataDeleteOfList || *stmt is DataInsertAtList || *stmt is DataDeleteAllOfList || *stmt is DataReplaceItemOfList,
        ensures
            final(self).doc == old(self).doc,
            final(self).execute_stmt_count == old(self).execute_stmt_count,
            final(self).string_max_length == old(self).string_max_length,
            final(self).limits == old(self).limits,
            exists|gs: Seq<&mut S>, cs: Seq<StateCall<V, S::Error>>, out: Result<(), RunError<S::Error>>|
                #![trigger calls_made(gs, cs), stmt_outcome(*old(self).doc, old(self).procedure_arguments_frames@, old(self).string_max_length, id, stack_item, next, *stmt, old(self).stack@, final(self).stack@, final(self).procedure_arguments_frames@, cs, out)]
                res == out && final(self).log@ == old(self).log@ + cs && calls_made(gs, cs) && stmt_outcome(*old(self).doc, old(self).procedure_arguments_frames@, old(self).string_max_length, id, stack_item, next, *stmt, old(self).stack@, final(self).stack@, final(self).procedure_arguments_frames@, cs, out) && (if gs.len() == 0 { final(self).state == old(self).state } else { mut_ref_current(gs[0]) == old(self).state && mut_ref_future(gs.last()) == final(self).state && forall|k: int| 0 <= k < gs.len() - 1 ==> mut_ref_future(#[trigger] gs[k]) == mut_ref_current(gs[k + 1]) }),
    {
        let ghost t0 = self.state;
        let ghost l0 = self.log@;
        match stmt {
            StmtKind::DataAddToList { list, item } => {
                let xr = self.eval_expr(item);
                let ghost xg = xr;
                let ghost t1 = self.state;
                let ghost l1 = self.log@;
                let x = match xr {
                    Ok(v) => v,
                    Err(e) => {
                        proof {
                            let (ga, ca, oa) = choose|gs: Seq<&mut S>, cs: Seq<StateCall<V, S::Error>>, out: Result<V, RunError<S::Error>>|
                    xg == out && l1 == l0 + cs && expr_done(*old(self).doc, old(self).procedure_arguments_frames@, old(self).string_max_length, *item, old(self).doc.spec_blocks().len(), gs, cs, out) && (if gs.len() == 0 { t1 == t0 } else { mut_ref_current(gs[0]) == t0 && mut_ref_future(gs.last()) == t1 && forall|k: int| 0 <= k < gs.len() - 1 ==> mut_ref_future(#[trigger] gs[k]) == mut_ref_current(gs[k + 1]) });
                            assert(ca.take(ca.len() as int) =~= ca);
                            assert(self.log@ =~= l0 + ca); assert(stmt_outcome(*old(self).doc, old(self).procedure_arguments_frames@, old(self).string_max_length, id, stack_item, next, *stmt, old(self).stack@, self.stack@, self.procedure_arguments_frames@, ca, Err::<(), RunError<S::Error>>(e)));
                        }
                        return Err(e);
                    },
                };
                let ghost xv = x;
                
                let r = self.state.data_append_to_list(list, x);
                let ghost rg = r;
                proof {
                    self.log@ = self.log@.push(StateCall::Append(*list, xv, rg));
                }
                let res = match r {
                    Ok(()) => {
                        self.stack.push_opt(next);
                        Ok(())
                    },
                    Err(e) => Err(RunError::State(e)),
                };
                proof {
                    let (ga, ca, oa) = choose|gs: Seq<&mut S>, cs: Seq<StateCall<V, S::Error>>, out: Result<V, RunError<S::Error>>|
                    xg == out && l1 == l0 + cs && expr_done(*old(self).doc, old(self).procedure_arguments_frames@, old(self).string_max_length, *item, old(self).doc.spec_blocks().len(), gs, cs, out) && (if gs.len() == 0 { t1 == t0 } else { mut_ref_current(gs[0]) == t0 && mut_ref_future(gs.last()) == t1 && forall|k: int| 0 <= k < gs.len() - 1 ==> mut_ref_future(#[trigger] gs[k]) == mut_ref_current(gs[k + 1]) });
                    let g = choose|g: &mut S| #![trigger call_ensures(S::data_append_to_list, (g, &*list, xv), rg)] call_ensures(S::data_append_to_list, (g, &*list, xv), rg) && mut_ref_current(g) == t1 && mut_ref_future(g) == self.state;
                    lemma_one_call(g, StateCall::Append(*list, xv, rg));
                    let cc = StateCall::Append(*list, xv, rg);
                    lemma_calls_made_concat(ga, ca, seq![g], seq![cc]);
                    lemma_chain_concat(t0, ga, t1, seq![g], self.state);
                    assert(self.log@ =~= l0 + (ca + seq![cc]));
                    let all = ca + seq![cc];
                    assert(self.log@ =~= l0 + all);
                    assert(all.take(ca.len() as int) =~= ca);
                    assert(all[ca.len() as int] == cc);
                    assert(self.log@ =~= l0 + all); assert(stmt_outcome(*old(self).doc, old(self).procedure_arguments_frames@, old(self).string_max_length, id, stack_item, next, *stmt, old(self).stack@, self.stack@, self.procedure_arguments_frames@, all, res));
                }
                res
            },
            StmtKind::DataDeleteOfList { list, index } => {
                let xr = self.eval_expr(index);
                let ghost xg = xr;
                let ghost t1 = self.state;
                let ghost l1 = self.log@;
                let x = match xr {
                    Ok(v) => v,
                    Err(e) => {
                        proof {
                            let (ga, ca, oa) = choose|gs: Seq<&mut S>, cs: Seq<StateCall<V, S::Error>>, out: Result<V, RunError<S::Error>>|
                    xg == out && l1 == l0 + cs && expr_done(*old(self).doc, old(self).procedure_arguments_frames@, old(self).string_max_length, *index, old(self).doc.spec_blocks().len(), gs, cs, out) && (if gs.len() == 0 { t1 == t0 } else { mut_ref_current(gs[0]) == t0 && mut_ref_future(gs.last()) == t1 && forall|k: int| 0 <= k < gs.len() - 1 ==> mut_ref_future(#[trigger] gs[k]) == mut_ref_current(gs[k + 1]) });
                            assert(ca.take(ca.len() as int) =~= ca);
                            assert(self.log@ =~= l0 + ca); assert(stmt_outcome(*old(self).doc, old(self).procedure_arguments_frames@, old(self).string_max_length, id, stack_item, next, *stmt, old(self).stack@, self.stack@, self.procedure_arguments_frames@, ca, Err::<(), RunError<S::Error>>(e)));
                        }
                        return Err(e);
                    },
                };
                let ghost xv = x;
                
                let r = self.state.data_delete_of_list(list, &x);
                let ghost rg = r;
                proof {
                    self.log@ = self.log@.push(StateCall::DeleteOf(*list, xv, rg));
                }
                let res = match r {
                    Ok(()) => {
                        self.stack.push_opt(next);
                        Ok(())
                    },
                    Err(e) => Err(RunError::State(e)),
                };
                proof {
                    let (ga, ca, oa) = choose|gs: Seq<&mut S>, cs: Seq<StateCall<V, S::Error>>, out: Result<V, RunError<S::Error>>|
                    xg == out && l1 == l0 + cs && expr_done(*old(self).doc, old(self).procedure_arguments_frames@, old(self).string_max_length, *index, old(self).doc.spec_blocks().len(), gs, cs, out) && (if gs.len() == 0 { t1 == t0 } else { mut_ref_current(gs[0]) == t0 && mut_ref_future(gs.last()) == t1 && forall|k: int| 0 <= k < gs.len() - 1 ==> mut_ref_future(#[trigger] gs[k]) == mut_ref_current(gs[k + 1]) });
                    let g = choose|g: &mut S| #![trigger call_ensures(S::data_delete_of_list, (g, &*list, &xv), rg)] call_ensures(S::data_delete_of_list, (g, &*list, &xv), rg) && mut_ref_current(g) == t1 && mut_ref_future(g) == self.state;
                    lemma_one_call(g, StateCall::DeleteOf(*list, xv, rg));
                    let cc = StateCall::DeleteOf(*list, xv, rg);
                    lemma_calls_made_concat(ga, ca, seq![g], seq![cc]);
                    lemma_chain_concat(t0, ga, t1, seq![g], self.state);
                    assert(self.log@ =~= l0 + (ca + seq![cc]));
                    let all = ca + seq![cc];
                    assert(self.log@ =~= l0 + all);
                    assert(all.take(ca.len() as int) =~= ca);
                    assert(all[ca.len() as int] == cc);
                    assert(self.log@ =~= l0 + all); assert(stmt_outcome(*old(self).doc, old(self).procedure_arguments_frames@, old(self).string_max_length, id, stack_item, next, *stmt, old(self).stack@, self.stack@, self.procedure_arguments_frames@, all, res));
                }
                res
            },
            StmtKind::DataInsertAtList { list, index, item } => {
                let xr = self.eval_expr(index);
                let ghost xg = xr;
                let ghost t1 = self.state;
                let ghost l1 = self.log@;
                let x = match xr {
                    Ok(v) => v,
                    Err(e) => {
                        proof {
                            let (ga, ca, oa) = choose|gs: Seq<&mut S>, cs: Seq<StateCall<V, S::Error>>, out: Result<V, RunError<S::Error>>|
                    xg == out && l1 == l0 + cs && expr_done(*old(self).doc, old(self).procedure_arguments_frames@, old(self).string_max_length, *index, old(self).doc.spec_blocks().len(), gs, cs, out) && (if gs.len() == 0 { t1 == t0 } else { mut_ref_current(gs[0]) == t0 && mut_ref_future(gs.last()) == t1 && forall|k: int| 0 <= k < gs.len() - 1 ==> mut_ref_future(#[trigger] gs[k]) == mut_ref_current(gs[k + 1]) });
                            assert(ca.take(ca.len() as int) =~= ca);
                            assert(self.log@ =~= l0 + ca); assert(stmt_outcome(*old(self).doc, old(self).procedure_arguments_frames@, old(self).string_max_length, id, stack_item, next, *stmt, old(self).stack@, self.stack@, self.procedure_arguments_frames@, ca, Err::<(), RunError<S::Error>>(e)));
                        }
                        return Err(e);
                    },
                };
                let yr = self.eval_expr(item);
                let ghost yg = yr;
                let ghost t2 = self.state;
                let ghost l2 = self.log@;
                let y = match yr {
                    Ok(v) => v,
                    Err(e) => {
                        proof {
                            let (ga, ca, oa) = choose|gs: Seq<&mut S>, cs: Seq<StateCall<V, S::Error>>, out: Result<V, RunError<S::Error>>|
                    xg == out && l1 == l0 + cs && expr_done(*old(self).doc, old(self).procedure_arguments_frames@, old(self).string_max_length, *index, old(self).doc.spec_blocks().len(), gs, cs, out) && (if gs.len() == 0 { t1 == t0 } else { mut_ref_current(gs[0]) == t0 && mut_ref_future(gs.last()) == t1 && forall|k: int| 0 <= k < gs.len() - 1 ==> mut_ref_future(#[trigger] gs[k]) == mut_ref_current(gs[k + 1]) });
                            let (gb, cb, ob) = choose|gs: Seq<&mut S>, cs: Seq<StateCall<V, S::Error>>, out: Result<V, RunError<S::Error>>|
                    yg == out && l2 == l1 + cs && expr_done(*old(self).doc, old(self).procedure_arguments_frames@, old(self).string_max_length, *item, old(self).doc.spec_blocks().len(), gs, cs, out) && (if gs.len() == 0 { t2 == t1 } else { mut_ref_current(gs[0]) == t1 && mut_ref_future(gs.last()) == t2 && forall|k: int| 0 <= k < gs.len() - 1 ==> mut_ref_future(#[trigger] gs[k]) == mut_ref_current(gs[k + 1]) });
                            lemma_calls_made_concat(ga, ca, gb, cb);
                            lemma_chain_concat(t0, ga, t1, gb, self.state);
                            assert(self.log@ =~= l0 + (ca + cb));
                            assert((ca + cb).take(ca.len() as int) =~= ca);
                            assert((ca + cb).subrange(ca.len() as int, (ca.len() + cb.len()) as int) =~= cb);
                            assert(self.log@ =~= l0 + ca + cb); assert(stmt_outcome(*old(self).doc, old(self).procedure_arguments_frames@, old(self).string_max_length, id, stack_item, next, *stmt, old(self).stack@, self.stack@, self.procedure_arguments_frames@, ca + cb, Err::<(), RunError<S::Error>>(e)));
                        }
                        return Err(e);
                    },
                };
                let ghost xv = x;
                let ghost yv = y;
                
                let r = self.state.data_insert_at_list(list, &x, y);
                let ghost rg = r;
                proof {
                    self.log@ = self.log@.push(StateCall::Insert(*list, xv, yv, rg));
                }
                let res = match r {
                    Ok(()) => {
                        self.stack.push_opt(next);
                        Ok(())
                    },
                    Err(e) => Err(RunError::State(e)),
                };
                proof {
                    let (ga, ca, oa) = choose|gs: Seq<&mut S>, cs: Seq<StateCall<V, S::Error>>, out: Result<V, RunError<S::Error>>|
                    xg == out && l1 == l0 + cs && expr_done(*old(self).doc, old(self).procedure_arguments_frames@, old(self).string_max_length, *index, old(self).doc.spec_blocks().len(), gs, cs, out) && (if gs.len() == 0 { t1 == t0 } else { mut_ref_current(gs[0]) == t0 && mut_ref_future(gs.last()) == t1 && forall|k: int| 0 <= k < gs.len() - 1 ==> mut_ref_future(#[trigger] gs[k]) == mut_ref_current(gs[k + 1]) });
                    let (gb, cb, ob) = choose|gs: Seq<&mut S>, cs: Seq<StateCall<V, S::Error>>, out: Result<V, RunError<S::Error>>|
                    yg == out && l2 == l1 + cs && expr_done(*old(self).doc, old(self).procedure_arguments_frames@, old(self).string_max_length, *item, old(self).doc.spec_blocks().len(), gs, cs, out) && (if gs.len() == 0 { t2 == t1 } else { mut_ref_current(gs[0]) == t1 && mut_ref_future(gs.last()) == t2 && forall|k: int| 0 <= k < gs.len() - 1 ==> mut_ref_future(#[trigger] gs[k]) == mut_ref_current(gs[k + 1]) });
                    let g = choose|g: &mut S| #![trigger call_ensures(S::data_insert_at_list, (g, &*list, &xv, yv), rg)] call_ensures(S::data_insert_at_list, (g, &*list, &xv, yv), rg) && mut_ref_current(g) == t2 && mut_ref_future(g) == self.state;
                    lemma_one_call(g, StateCall::Insert(*list, xv, yv, rg));
                    let cc = StateCall::Insert(*list, xv, yv, rg);
                    lemma_calls_made_concat(ga, ca, gb, cb);
                    lemma_chain_concat(t0, ga, t1, gb, t2);
                    lemma_calls_made_concat(ga + gb, ca + cb, seq![g], seq![cc]);
                    lemma_chain_concat(t0, ga + gb, t2, seq![g], self.state);
                    let all = ca + cb + seq![cc];
                    assert(self.log@ =~= l0 + all);
                    assert(all.take(ca.len() as int) =~= ca);
                    assert(all.subrange(ca.len() as int, (ca.len() + cb.len()) as int) =~= cb);
                    assert(all[(ca.len() + cb.len()) as int] == cc);
                    assert(self.log@ =~= l0 + all); assert(stmt_outcome(*old(self).doc, old(self).procedure_arguments_frames@, old(self).string_max_length, id, stack_item, next, *stmt, old(self).stack@, self.stack@, self.procedure_arguments_frames@, all, res));
                }
                res
            },
            StmtKind::DataDeleteAllOfList { list } => {
                let r = self.state.data_delete_all_of_list(list);
                let ghost rg = r;
                proof {
                    self.log@ = self.log@.push(StateCall::DeleteAll(*list, rg));
                }
                let res = match r {
                    Ok(()) => {
                        self.stack.push_opt(next);
                        Ok(())
                    },
                    Err(e) => Err(RunError::State(e)),
                };
                proof {
                    let g = choose|g: &mut S| #![trigger call_ensures(S::data_delete_all_of_list, (g, &*list), rg)] call_ensures(S::data_delete_all_of_list, (g, &*list), rg) && mut_ref_current(g) == t0 && mut_ref_future(g) == self.state;
                    lemma_one_call(g, StateCall::DeleteAll(*list, rg));
                    assert(self.log@ =~= l0 + seq![StateCall::DeleteAll(*list, rg)]);
                    assert(self.log@ =~= l0 + seq![StateCall::DeleteAll(*list, rg)]); assert(stmt_outcome(*old(self).doc, old(self).procedure_arguments_frames@, old(self).string_max_length, id, stack_item, next, *stmt, old(self).stack@, self.stack@, self.procedure_arguments_frames@, seq![StateCall::DeleteAll(*list, rg)], res));
                }
                res
            },
            StmtKind::DataReplaceItemOfList { list, index, item } => {
                let xr = self.eval_expr(index);
                let ghost xg = xr;
                let ghost t1 = self.state;
                let ghost l1 = self.log@;
                let x = match xr {
                    Ok(v) => v,
                    Err(e) => {
                        proof {
                            let (ga, ca, oa) = choose|gs: Seq<&mut S>, cs: Seq<StateCall<V, S::Error>>, out: Result<V, RunError<S::Error>>|
                    xg == out && l1 == l0 + cs && expr_done(*old(self).doc, old(self).procedure_arguments_frames@, old(self).string_max_length, *index, old(self).doc.spec_blocks().len(), gs, cs, out) && (if gs.len() == 0 { t1 == t0 } else { mut_ref_current(gs[0]) == t0 && mut_ref_future(gs.last()) == t1 && forall|k: int| 0 <= k < gs.len() - 1 ==> mut_ref_future(#[trigger] gs[k]) == mut_ref_current(gs[k + 1]) });
                            assert(ca.take(ca.len() as int) =~= ca);
                            assert(self.log@ =~= l0 + ca); assert(stmt_outcome(*old(self).doc, old(self).procedure_arguments_frames@, old(self).string_max_length, id, stack_item, next, *stmt, old(self).stack@, self.stack@, self.procedure_arguments_frames@, ca, Err::<(), RunError<S::Error>>(e)));
                        }
                        return Err(e);
                    },
                };
                let yr = self.eval_expr(item);
                let ghost yg = yr;
                let ghost t2 = self.state;
                let ghost l2 = self.log@;
                let y = match yr {
                    Ok(v) => v,
                    Err(e) => {
                        proof {
                            let (ga, ca, oa) = choose|gs: Seq<&mut S>, cs: Seq<StateCall<V, S::Error>>, out: Result<V, RunError<S::Error>>|
                    xg == out && l1 == l0 + cs && expr_done(*old(self).doc, old(self).procedure_arguments_frames@, old(self).string_max_length, *index, old(self).doc.spec_blocks().len(), gs, cs, out) && (if gs.len() == 0 { t1 == t0 } else { mut_ref_current(gs[0]) == t0 && mut_ref_future(gs.last()) == t1 && forall|k: int| 0 <= k < gs.len() - 1 ==> mut_ref_future(#[trigger] gs[k]) == mut_ref_current(gs[k + 1]) });
                            let (gb, cb, ob) = choose|gs: Seq<&mut S>, cs: Seq<StateCall<V, S::Error>>, out: Result<V, RunError<S::Error>>|
                    yg == out && l2 == l1 + cs && expr_done(*old(self).doc, old(self).procedure_arguments_frames@, old(self).string_max_length, *item, old(self).doc.spec_blocks().len(), gs, cs, out) && (if gs.len() == 0 { t2 == t1 } else { mut_ref_current(gs[0]) == t1 && mut_ref_future(gs.last()) == t2 && forall|k: int| 0 <= k < gs.len() - 1 ==> mut_ref_future(#[trigger] gs[k]) == mut_ref_current(gs[k + 1]) });
                            lemma_calls_made_concat(ga, ca, gb, cb);
                            lemma_chain_concat(t0, ga, t1, gb, self.state);
                            assert(self.log@ =~= l0 + (ca + cb));
                            assert((ca + cb).take(ca.len() as int) =~= ca);
                            assert((ca + cb).subrange(ca.len() as int, (ca.len() + cb.len()) as int) =~= cb);
                            assert(self.log@ =~= l0 + ca + cb); assert(stmt_outcome(*old(self).doc, old(self).procedure_arguments_frames@, old(self).string_max_length, id, stack_item, next, *stmt, old(self).stack@, self.stack@, self.procedure_arguments_frames@, ca + cb, Err::<(), RunError<S::Error>>(e)));
                        }
                        return Err(e);
                    },
                };
                let ghost xv = x;
                let ghost yv = y;
                
                let r = self.state.data_replace_list_at(list, &x, y);
                let ghost rg = r;
                proof {
                    self.log@ = self.log@.push(StateCall::Replace(*list, xv, yv, rg));
                }
                let res = match r {
                    Ok(()) => {
                        self.stack.push_opt(next);
                        Ok(())
                    },
                    Err(e) => Err(RunError::State(e)),
                };
                proof {
                    let (ga, ca, oa) = choose|gs: Seq<&mut S>, cs: Seq<StateCall<V, S::Error>>, out: Result<V, RunError<S::Error>>|
                    xg == out && l1 == l0 + cs && expr_done(*old(self).doc, old(self).procedure_arguments_frames@, old(self).string_max_length, *index, old(self).doc.spec_blocks().len(), gs, cs, out) && (if gs.len() == 0 { t1 == t0 } else { mut_ref_current(gs[0]) == t0 && mut_ref_future(gs.last()) == t1 && forall|k: int| 0 <= k < gs.len() - 1 ==> mut_ref_future(#[trigger] gs[k]) == mut_ref_current(gs[k + 1]) });
                    let (gb, cb, ob) = choose|gs: Seq<&mut S>, cs: Seq<StateCall<V, S::Error>>, out: Result<V, RunError<S::Error>>|
                    yg == out && l2 == l1 + cs && expr_done(*old(self).doc, old(self).procedure_arguments_frames@, old(self).string_max_length, *item, old(self).doc.spec_blocks().len(), gs, cs, out) && (if gs.len() == 0 { t2 == t1 } else { mut_ref_current(gs[0]) == t1 && mut_ref_future(gs.last()) == t2 && forall|k: int| 0 <= k < gs.len() - 1 ==> mut_ref_future(#[trigger] gs[k]) == mut_ref_current(gs[k + 1]) });
                    let g = choose|g: &mut S| #![trigger call_ensures(S::data_replace_list_at, (g, &*list, &xv, yv), rg)] call_ensures(S::data_replace_list_at, (g, &*list, &xv, yv), rg) && mut_ref_current(g) == t2 && mut_ref_future(g) == self.state;
                    lemma_one_call(g, StateCall::Replace(*list, xv, yv, rg));
                    let cc = StateCall::Replace(*list, xv, yv, rg);
                    lemma_calls_made_concat(ga, ca, gb, cb);
                    lemma_chain_concat(t0, ga, t1, gb, t2);
                    lemma_calls_made_concat(ga + gb, ca + cb, seq![g], seq![cc]);
                    lemma_chain_concat(t0, ga + gb, t2, seq![g], self.state);
                    let all = ca + cb + seq![cc];
                    assert(self.log@ =~= l0 + all);
                    assert(all.take(ca.len() as int) =~= ca);
                    assert(all.subrange(ca.len() as int, (ca.len() + cb.len()) as int) =~= cb);
                    assert(all[(ca.len() + cb.len()) as int] == cc);
                    assert(self.log@ =~= l0 + all); assert(stmt_outcome(*old(self).doc, old(self).procedure_arguments_frames@, old(self).string_max_length, id, stack_item, next, *stmt, old(self).stack@, self.stack@, self.procedure_arguments_frames@, all, res));
                }
                res
            },
            _ => {
                proof {
                    assert(false);
                }
                Err(RunError::TerminatedByControlStop)
            },
        }
    }

    /// Runs a statement that sets or changes a variable, as `execute_stmt_kind` does.
    #[verifier::spinoff_prover]
    #[verifier::rlimit(60)]
    fn execute_stmt_variable_changes(
        &mut self,
        stmt: &StmtKind<V>,
        id: usize,
        next: Option<usize>,
        stack_item: StackItem<usize>,
    ) -> (res: Result<(), RunError<S::Error>>)
        requires
            *stmt is DataSetVariableTo || *stmt is DataChangeVariableBy,
        ensures
            final(self).doc == old(self).doc,
            final(self).execute_stmt_count == old(self).execute_stmt_count,
            final(self).string_max_length == old(self).string_max_length,
            final(self).limits == old(self).limits,
            exists|gs: Seq<&mut S>, cs: Seq<StateCall<V, S::Error>>, out: Result<(), RunError<S::Error>>|
                #![trigger calls_made(gs, cs), stmt_outcome(*old(self).doc, old(self).procedure_arguments_frames@, old(self).string_max_length, id, stack_item, next, *stmt, old(self).stack@, final(self).stack@, final(self).procedure_arguments_frames@, cs, out)]
                res == out && final(self).log@ == old(self).log@ + cs && calls_made(gs, cs) && stmt_outcome(*old(self).doc, old(self).procedure_arguments_frames@, old(self).string_max_length, id, stack_item, next, *stmt, old(self).stack@, final(self).stack@, final(self).procedure_arguments_frames@, cs, out) && (if gs.len() == 0 { final(self).state == old(self).state } else { mut_ref_current(gs[0]) == old(self).state && mut_ref_future(gs.last()) == final(self).state && forall|k: int| 0 <= k < gs.len() - 1 ==> mut_ref_future(#[trigger] gs[k]) == mut_ref_current(gs[k + 1]) }),
    {
        let ghost t0 = self.state;
        let ghost l0 = self.log@;
        match stmt {
            StmtKind::DataSetVariableTo { variable, value } => {
                let xr = self.eval_expr(value);
                let ghost xg = xr;
                let ghost t1 = self.state;
                let ghost l1 = self.log@;
                let x = match xr {
                    Ok(v) => v,
                    Err(e) => {
                        proof {
                            let (ga, ca, oa) = choose|gs: Seq<&mut S>, cs: Seq<StateCall<V, S::Error>>, out: Result<V, RunError<S::Error>>|
                    xg == out && l1 == l0 + cs && expr_done(*old(self).doc, old(self).procedure_arguments_frames@, old(self).string_max_length, *value, old(self).doc.spec_blocks().len(), gs, cs, out) && (if gs.len() == 0 { t1 == t0 } else { mut_ref_current(gs[0]) == t0 && mut_ref_future(gs.last()) == t1 && forall|k: int| 0 <= k < gs.len() - 1 ==> mut_ref_future(#[trigger] gs[k]) == mut_ref_current(gs[k + 1]) });
                            assert(ca.take(ca.len() as int) =~= ca);
                            assert(self.log@ =~= l0 + ca); assert(stmt_outcome(*old(self).doc, old(self).procedure_arguments_frames@, old(self).string_max_length, id, stack_item, next, *stmt, old(self).stack@, self.stack@, self.procedure_arguments_frames@, ca, Err::<(), RunError<S::Error>>(e)));
                        }
                        return Err(e);
                    },
                };
                let ghost xv = x;
                
                let r = self.state.data_set_variable(variable, x);
                let ghost rg = r;
                proof {
                    self.log@ = self.log@.push(StateCall::SetVariable(*variable, xv, rg));
                }
                let res = match r {
                    Ok(()) => {
                        self.stack.push_opt(next);
                        Ok(())
                    },
                    Err(e) => Err(RunError::State(e)),
                };
                proof {
                    let (ga, ca, oa) = choose|gs: Seq<&mut S>, cs: Seq<StateCall<V, S::Error>>, out: Result<V, RunError<S::Error>>|
                    xg == out && l1 == l0 + cs && expr_done(*old(self).doc, old(self).procedure_arguments_frames@, old(self).string_max_length, *value, old(self).doc.spec_blocks().len(), gs, cs, out) && (if gs.len() == 0 { t1 == t0 } else { mut_ref_current(gs[0]) == t0 && mut_ref_future(gs.last()) == t1 && forall|k: int| 0 <= k < gs.len() - 1 ==> mut_ref_future(#[trigger] gs[k]) == mut_ref_current(gs[k + 1]) });
                    let g = choose|g: &mut S| #![trigger call_ensures(S::data_set_variable, (g, &*variable, xv), rg)] call_ensures(S::data_set_variable, (g, &*variable, xv), rg) && mut_ref_current(g) == t1 && mut_ref_future(g) == self.state;
                    lemma_one_call(g, StateCall::SetVariable(*variable, xv, rg));
                    let cc = StateCall::SetVariable(*variable, xv, rg);
                    lemma_calls_made_concat(ga, ca, seq![g], seq![cc]);
                    lemma_chain_concat(t0, ga, t1, seq![g], self.state);
                    assert(self.log@ =~= l0 + (ca + seq![cc]));
                    let all = ca + seq![cc];
                    assert(self.log@ =~= l0 + all);
                    assert(all.take(ca.len() as int) =~= ca);
                    assert(all[ca.len() as int] == cc);
                    assert(self.log@ =~= l0 + all); assert(stmt_outcome(*old(self).doc, old(self).procedure_arguments_frames@, old(self).string_max_length, id, stack_item, next, *stmt, old(self).stack@, self.stack@, self.procedure_arguments_frames@, all, res));
                }
                res
            },
            StmtKind::DataChangeVariableBy { variable, value } => {
                let xr = self.eval_expr(value);
                let ghost xg = xr;
                let ghost t1 = self.state;
                let ghost l1 = self.log@;
                let x = match xr {
                    Ok(v) => v,
                    Err(e) => {
                        proof {
                            let (ga, ca, oa) = choose|gs: Seq<&mut S>, cs: Seq<StateCall<V, S::Error>>, out: Result<V, RunError<S::Error>>|
                    xg == out && l1 == l0 + cs && expr_done(*old(self).doc, old(self).procedure_arguments_frames@, old(self).string_max_length, *value, old(self).doc.spec_blocks().len(), gs, cs, out) && (if gs.len() == 0 { t1 == t0 } else { mut_ref_current(gs[0]) == t0 && mut_ref_future(gs.last()) == t1 && forall|k: int| 0 <= k < gs.len() - 1 ==> mut_ref_future(#[trigger] gs[k]) == mut_ref_current(gs[k + 1]) });
                            assert(ca.take(ca.len() as int) =~= ca);
                            assert(self.log@ =~= l0 + ca); assert(stmt_outcome(*old(self).doc, old(self).procedure_arguments_frames@, old(self).string_max_length, id, stack_item, next, *stmt, old(self).stack@, self.stack@, self.procedure_arguments_frames@, ca, Err::<(), RunError<S::Error>>(e)));
                        }
                        return Err(e);
                    },
                };
                let ghost xv = x;
                
                let r = self.state.data_change_variable_by(variable, x);
                let ghost rg = r;
                proof {
                    self.log@ = self.log@.push(StateCall::ChangeVariable(*variable, xv, rg));
                }
                let res = match r {
                    Ok(()) => {
                        self.stack.push_opt(next);
                        Ok(())
                    },
                    Err(e) => Err(RunError::State(e)),
                };
                proof {
                    let (ga, ca, oa) = choose|gs: Seq<&mut S>, cs: Seq<StateCall<V, S::Error>>, out: Result<V, RunError<S::Error>>|
                    xg == out && l1 == l0 + cs && expr_done(*old(self).doc, old(self).procedure_arguments_frames@, old(self).string_max_length, *value, old(self).doc.spec_blocks().len(), gs, cs, out) && (if gs.len() == 0 { t1 == t0 } else { mut_ref_current(gs[0]) == t0 && mut_ref_future(gs.last()) == t1 && forall|k: int| 0 <= k < gs.len() - 1 ==> mut_ref_future(#[trigger] gs[k]) == mut_ref_current(gs[k + 1]) });
                    let g = choose|g: &mut S| #![trigger call_ensures(S::data_change_variable_by, (g, &*variable, xv), rg)] call_ensures(S::data_change_variable_by, (g, &*variable, xv), rg) && mut_ref_current(g) == t1 && mut_ref_future(g) == self.state;
                    lemma_one_call(g, StateCall::ChangeVariable(*variable, xv, rg));
                    let cc = StateCall::ChangeVariable(*variable, xv, rg);
                    lemma_calls_made_concat(ga, ca, seq![g], seq![cc]);
                    lemma_chain_concat(t0, ga, t1, seq![g], self.state);
                    assert(self.log@ =~= l0 + (ca + seq![cc]));
                    let all = ca + seq![cc];
                    assert(self.log@ =~= l0 + all);
                    assert(all.take(ca.len() as int) =~= ca);
                    assert(all[ca.len() as int] == cc);
                    assert(self.log@ =~= l0 + all); assert(stmt_outcome(*old(self).doc, old(self).procedure_arguments_frames@, old(self).string_max_length, id, stack_item, next, *stmt, old(self).stack@, self.stack@, self.procedure_arguments_frames@, all, res));
                }
                res
            },
            _ => {
                proof {
                    assert(false);
                }
                Err(RunError::TerminatedByControlStop)
            },
        }
    }

    /// Runs a statement that shows a message or asks a question, as `execute_stmt_kind` does.
    #[verifier::spinoff_prover]
    #[verifier::rlimit(60)]
    fn execute_stmt_looks_and_asks(
        &mut self,
        stmt: &StmtKind<V>,
        id: usize,
        next: Option<usize>,
        stack_item: StackItem<usize>,
    ) -> (res: Result<(), RunError<S::Error>>)
        requires
            *stmt is LooksSay || *stmt is LooksThink || *stmt is LooksThinkForSecs || *stmt is LooksSayForSecs || *stmt is SensingAskAndWait,
        ensures
            final(self).doc == old(self).doc,
            final(self).execute_stmt_count == old(self).execute_stmt_count,
            final(self).string_max_length == old(self).string_max_length,
            final(self).limits == old(self).limits,
            exists|gs: Seq<&mut S>, cs: Seq<StateCall<V, S::Error>>, out: Result<(), RunError<S::Error>>|
                #![trigger calls_made(gs, cs), stmt_outcome(*old(self).doc, old(self).procedure_arguments_frames@, old(self).string_max_length, id, stack_item, next, *stmt, old(self).stack@, final(self).stack@, final(self).procedure_arguments_frames@, cs, out)]
                res == out && final(self).log@ == old(self).log@ + cs && calls_made(gs, cs) && stmt_outcome(*old(self).doc, old(self).procedure_arguments_frames@, old(self).string_max_length, id, stack_item, next, *stmt, old(self).stack@, final(self).stack@, final(self).procedure_arguments_frames@, cs, out) && (if gs.len() == 0 { final(self).state == old(self).state } else { mut_ref_current(gs[0]) == old(self).state && mut_ref_future(gs.last()) == final(self).state && forall|k: int| 0 <= k < gs.len() - 1 ==> mut_ref_future(#[trigger] gs[k]) == mut_ref_current(gs[k + 1]) }),
    {
        let ghost t0 = self.state;
        let ghost l0 = self.log@;
        match stmt {
            StmtKind::LooksSay { message } => {
                let xr = self.eval_expr(message);
                let ghost xg = xr;
                let ghost t1 = self.state;
                let ghost l1 = self.log@;
                let x = match xr {
                    Ok(v) => v,
                    Err(e) => {
                        proof {
                            let (ga, ca, oa) = choose|gs: Seq<&mut S>, cs: Seq<StateCall<V, S::Error>>, out: Result<V, RunError<S::Error>>|
                    xg == out && l1 == l0 + cs && expr_done(*old(self).doc, old(self).procedure_arguments_frames@, old(self).string_max_length, *message, old(self).doc.spec_blocks().len(), gs, cs, out) && (if gs.len() == 0 { t1 == t0 } else { mut_ref_current(gs[0]) == t0 && mut_ref_future(gs.last()) == t1 && forall|k: int| 0 <= k < gs.len() - 1 ==> mut_ref_future(#[trigger] gs[k]) == mut_ref_current(gs[k + 1]) });
                            assert(ca.take(ca.len() as int) =~= ca);
                            assert(self.log@ =~= l0 + ca); assert(stmt_outcome(*old(self).doc, old(self).procedure_arguments_frames@, old(self).string_max_length, id, stack_item, next, *stmt, old(self).stack@, self.stack@, self.procedure_arguments_frames@, ca, Err::<(), RunError<S::Error>>(e)));
                        }
                        return Err(e);
                    },
                };
                let ghost xv = x;
                
                self.state.write_output(OutputKind::Say, x);
                proof {
                    self.log@ = self.log@.push(StateCall::<V, S::Error>::Output(OutputKind::Say, xv));
                }
                self.stack.push_opt(next);
                let res = Ok(());
                proof {
                    let (ga, ca, oa) = choose|gs: Seq<&mut S>, cs: Seq<StateCall<V, S::Error>>, out: Result<V, RunError<S::Error>>|
                    xg == out && l1 == l0 + cs && expr_done(*old(self).doc, old(self).procedure_arguments_frames@, old(self).string_max_length, *message, old(self).doc.spec_blocks().len(), gs, cs, out) && (if gs.len() == 0 { t1 == t0 } else { mut_ref_current(gs[0]) == t0 && mut_ref_future(gs.last()) == t1 && forall|k: int| 0 <= k < gs.len() - 1 ==> mut_ref_future(#[trigger] gs[k]) == mut_ref_current(gs[k + 1]) });
                    let g = choose|g: &mut S| #![trigger call_ensures(S::write_output, (g, OutputKind::Say, xv), ())] call_ensures(S::write_output, (g, OutputKind::Say, xv), ()) && mut_ref_current(g) == t1 && mut_ref_future(g) == self.state;
                    lemma_one_call(g, StateCall::<V, S::Error>::Output(OutputKind::Say, xv));
                    let cc = StateCall::<V, S::Error>::Output(OutputKind::Say, xv);
                    lemma_calls_made_concat(ga, ca, seq![g], seq![cc]);
                    lemma_chain_concat(t0, ga, t1, seq![g], self.state);
                    assert(self.log@ =~= l0 + (ca + seq![cc]));
                    let all = ca + seq![cc];
                    assert(self.log@ =~= l0 + all);
                    assert(all.take(ca.len() as int) =~= ca);
                    assert(all[ca.len() as int] == cc);
                    assert(self.log@ =~= l0 + all); assert(stmt_outcome(*old(self).doc, old(self).procedure_arguments_frames@, old(self).string_max_length, id, stack_item, next, *stmt, old(self).stack@, self.stack@, self.procedure_arguments_frames@, all, res));
                }
                res
            },
            StmtKind::LooksThink { message } => {
                let xr = self.eval_expr(message);
                let ghost xg = xr;
                let ghost t1 = self.state;
                let ghost l1 = self.log@;
                let x = match xr {
                    Ok(v) => v,
                    Err(e) => {
                        proof {
                            let (ga, ca, oa) = choose|gs: Seq<&mut S>, cs: Seq<StateCall<V, S::Error>>, out: Result<V, RunError<S::Error>>|
                    xg == out && l1 == l0 + cs && expr_done(*old(self).doc, old(self).procedure_arguments_frames@, old(self).string_max_length, *message, old(self).doc.spec_blocks().len(), gs, cs, out) && (if gs.len() == 0 { t1 == t0 } else { mut_ref_current(gs[0]) == t0 && mut_ref_future(gs.last()) == t1 && forall|k: int| 0 <= k < gs.len() - 1 ==> mut_ref_future(#[trigger] gs[k]) == mut_ref_current(gs[k + 1]) });
                            assert(ca.take(ca.len() as int) =~= ca);
                            assert(self.log@ =~= l0 + ca); assert(stmt_outcome(*old(self).doc, old(self).procedure_arguments_frames@, old(self).string_max_length, id, stack_item, next, *stmt, old(self).stack@, self.stack@, self.procedure_arguments_frames@, ca, Err::<(), RunError<S::Error>>(e)));
                        }
                        return Err(e);
                    },
                };
                let ghost xv = x;
                
                self.state.write_output(OutputKind::Think, x);
                proof {
                    self.log@ = self.log@.push(StateCall::<V, S::Error>::Output(OutputKind::Think, xv));
                }
                self.stack.push_opt(next);
                let res = Ok(());
                proof {
                    let (ga, ca, oa) = choose|gs: Seq<&mut S>, cs: Seq<StateCall<V, S::Error>>, out: Result<V, RunError<S::Error>>|
                    xg == out && l1 == l0 + cs && expr_done(*old(self).doc, old(self).procedure_arguments_frames@, old(self).string_max_length, *message, old(self).doc.spec_blocks().len(), gs, cs, out) && (if gs.len() == 0 { t1 == t0 } else { mut_ref_current(gs[0]) == t0 && mut_ref_future(gs.last()) == t1 && forall|k: int| 0 <= k < gs.len() - 1 ==> mut_ref_future(#[trigger] gs[k]) == mut_ref_current(gs[k + 1]) });
                    let g = choose|g: &mut S| #![trigger call_ensures(S::write_output, (g, OutputKind::Think, xv), ())] call_ensures(S::write_output, (g, OutputKind::Think, xv), ()) && mut_ref_current(g) == t1 && mut_ref_future(g) == self.state;
                    lemma_one_call(g, StateCall::<V, S::Error>::Output(OutputKind::Think, xv));
                    let cc = StateCall::<V, S::Error>::Output(OutputKind::Think, xv);
                    lemma_calls_made_concat(ga, ca, seq![g], seq![cc]);
                    lemma_chain_concat(t0, ga, t1, seq![g], self.state);
                    assert(self.log@ =~= l0 + (ca + seq![cc]));
                    let all = ca + seq![cc];
                    assert(self.log@ =~= l0 + all);
                    assert(all.take(ca.len() as int) =~= ca);
                    assert(all[ca.len() as int] == cc);
                    assert(self.log@ =~= l0 + all); assert(stmt_outcome(*old(self).doc, old(self).procedure_arguments_frames@, old(self).string_max_length, id, stack_item, next, *stmt, old(self).stack@, self.stack@, self.procedure_arguments_frames@, all, res));
                }
                res
            },
            StmtKind::LooksThinkForSecs { message, secs } => {
                let xr = self.eval_expr(secs);
                let ghost xg = xr;
                let ghost t1 = self.state;
                let ghost l1 = self.log@;
                let x = match xr {
                    Ok(v) => v,
                    Err(e) => {
                        proof {
                            let (ga, ca, oa) = choose|gs: Seq<&mut S>, cs: Seq<StateCall<V, S::Error>>, out: Result<V, RunError<S::Error>>|
                    xg == out && l1 == l0 + cs && expr_done(*old(self).doc, old(self).procedure_arguments_frames@, old(self).string_max_length, *secs, old(self).doc.spec_blocks().len(), gs, cs, out) && (if gs.len() == 0 { t1 == t0 } else { mut_ref_current(gs[0]) == t0 && mut_ref_future(gs.last()) == t1 && forall|k: int| 0 <= k < gs.len() - 1 ==> mut_ref_future(#[trigger] gs[k]) == mut_ref_current(gs[k + 1]) });
                            assert(ca.take(ca.len() as int) =~= ca);
                            assert(self.log@ =~= l0 + ca); assert(stmt_outcome(*old(self).doc, old(self).procedure_arguments_frames@, old(self).string_max_length, id, stack_item, next, *stmt, old(self).stack@, self.stack@, self.procedure_arguments_frames@, ca, Err::<(), RunError<S::Error>>(e)));
                        }
                        return Err(e);
                    },
                };
                let yr = self.eval_expr(message);
                let ghost yg = yr;
                let ghost t2 = self.state;
                let ghost l2 = self.log@;
                let y = match yr {
                    Ok(v) => v,
                    Err(e) => {
                        proof {
                            let (ga, ca, oa) = choose|gs: Seq<&mut S>, cs: Seq<StateCall<V, S::Error>>, out: Result<V, RunError<S::Error>>|
                    xg == out && l1 == l0 + cs && expr_done(*old(self).doc, old(self).procedure_arguments_frames@, old(self).string_max_length, *secs, old(self).doc.spec_blocks().len(), gs, cs, out) && (if gs.len() == 0 { t1 == t0 } else { mut_ref_current(gs[0]) == t0 && mut_ref_future(gs.last()) == t1 && forall|k: int| 0 <= k < gs.len() - 1 ==> mut_ref_future(#[trigger] gs[k]) == mut_ref_current(gs[k + 1]) });
                            let (gb, cb, ob) = choose|gs: Seq<&mut S>, cs: Seq<StateCall<V, S::Error>>, out: Result<V, RunError<S::Error>>|
                    yg == out && l2 == l1 + cs && expr_done(*old(self).doc, old(self).procedure_arguments_frames@, old(self).string_max_length, *message, old(self).doc.spec_blocks().len(), gs, cs, out) && (if gs.len() == 0 { t2 == t1 } else { mut_ref_current(gs[0]) == t1 && mut_ref_future(gs.last()) == t2 && forall|k: int| 0 <= k < gs.len() - 1 ==> mut_ref_future(#[trigger] gs[k]) == mut_ref_current(gs[k + 1]) });
                            lemma_calls_made_concat(ga, ca, gb, cb);
                            lemma_chain_concat(t0, ga, t1, gb, self.state);
                            assert(self.log@ =~= l0 + (ca + cb));
                            assert((ca + cb).take(ca.len() as int) =~= ca);
                            assert((ca + cb).subrange(ca.len() as int, (ca.len() + cb.len()) as int) =~= cb);
                            assert(self.log@ =~= l0 + ca + cb); assert(stmt_outcome(*old(self).doc, old(self).procedure_arguments_frames@, old(self).string_max_length, id, stack_item, next, *stmt, old(self).stack@, self.stack@, self.procedure_arguments_frames@, ca + cb, Err::<(), RunError<S::Error>>(e)));
                        }
                        return Err(e);
                    },
                };
                let ghost xv = x;
                let ghost yv = y;
                let fl = x.as_float();
                let ghost flg = fl;
                self.state.write_output(OutputKind::ThinkFor(fl), y);
                proof {
                    self.log@ = self.log@.push(StateCall::<V, S::Error>::Output(OutputKind::ThinkFor(flg), yv));
                }
                self.stack.push_opt(next);
                let res = Ok(());
                proof {
                    let (ga, ca, oa) = choose|gs: Seq<&mut S>, cs: Seq<StateCall<V, S::Error>>, out: Result<V, RunError<S::Error>>|
                    xg == out && l1 == l0 + cs && expr_done(*old(self).doc, old(self).procedure_arguments_frames@, old(self).string_max_length, *secs, old(self).doc.spec_blocks().len(), gs, cs, out) && (if gs.len() == 0 { t1 == t0 } else { mut_ref_current(gs[0]) == t0 && mut_ref_future(gs.last()) == t1 && forall|k: int| 0 <= k < gs.len() - 1 ==> mut_ref_future(#[trigger] gs[k]) == mut_ref_current(gs[k + 1]) });
                    let (gb, cb, ob) = choose|gs: Seq<&mut S>, cs: Seq<StateCall<V, S::Error>>, out: Result<V, RunError<S::Error>>|
                    yg == out && l2 == l1 + cs && expr_done(*old(self).doc, old(self).procedure_arguments_frames@, old(self).string_max_length, *message, old(self).doc.spec_blocks().len(), gs, cs, out) && (if gs.len() == 0 { t2 == t1 } else { mut_ref_current(gs[0]) == t1 && mut_ref_future(gs.last()) == t2 && forall|k: int| 0 <= k < gs.len() - 1 ==> mut_ref_future(#[trigger] gs[k]) == mut_ref_current(gs[k + 1]) });
                    let g = choose|g: &mut S| #![trigger call_ensures(S::write_output, (g, OutputKind::ThinkFor(flg), yv), ())] call_ensures(S::write_output, (g, OutputKind::ThinkFor(flg), yv), ()) && mut_ref_current(g) == t2 && mut_ref_future(g) == self.state;
                    lemma_one_call(g, StateCall::<V, S::Error>::Output(OutputKind::ThinkFor(flg), yv));
                    let cc = StateCall::<V, S::Error>::Output(OutputKind::ThinkFor(flg), yv);
                    lemma_calls_made_concat(ga, ca, gb, cb);
                    lemma_chain_concat(t0, ga, t1, gb, t2);
                    lemma_calls_made_concat(ga + gb, ca + cb, seq![g], seq![cc]);
                    lemma_chain_concat(t0, ga + gb, t2, seq![g], self.state);
                    let all = ca + cb + seq![cc];
                    assert(self.log@ =~= l0 + all);
                    assert(all.take(ca.len() as int) =~= ca);
                    assert(all.subrange(ca.len() as int, (ca.len() + cb.len()) as int) =~= cb);
                    assert(all[(ca.len() + cb.len()) as int] == cc);
                    assert(self.log@ =~= l0 + all); assert(stmt_outcome(*old(self).doc, old(self).procedure_arguments_frames@, old(self).string_max_length, id, stack_item, next, *stmt, old(self).stack@, self.stack@, self.procedure_arguments_frames@, all, res));
                }
                res
            },
            StmtKind::LooksSayForSecs { message, secs } => {
                let xr = self.eval_expr(secs);
                let ghost xg = xr;
                let ghost t1 = self.state;
                let ghost l1 = self.log@;
                let x = match xr {
                    Ok(v) => v,
                    Err(e) => {
                        proof {
                            let (ga, ca, oa) = choose|gs: Seq<&mut S>, cs: Seq<StateCall<V, S::Error>>, out: Result<V, RunError<S::Error>>|
                    xg == out && l1 == l0 + cs && expr_done(*old(self).doc, old(self).procedure_arguments_frames@, old(self).string_max_length, *secs, old(self).doc.spec_blocks().len(), gs, cs, out) && (if gs.len() == 0 { t1 == t0 } else { mut_ref_current(gs[0]) == t0 && mut_ref_future(gs.last()) == t1 && forall|k: int| 0 <= k < gs.len() - 1 ==> mut_ref_future(#[trigger] gs[k]) == mut_ref_current(gs[k + 1]) });
                            assert(ca.take(ca.len() as int) =~= ca);
                            assert(self.log@ =~= l0 + ca); assert(stmt_outcome(*old(self).doc, old(self).procedure_arguments_frames@, old(self).string_max_length, id, stack_item, next, *stmt, old(self).stack@, self.stack@, self.procedure_arguments_frames@, ca, Err::<(), RunError<S::Error>>(e)));
                        }
                        return Err(e);
                    },
                };
                let yr = self.eval_expr(message);
                let ghost yg = yr;
                let ghost t2 = self.state;
                let ghost l2 = self.log@;
                let y = match yr {
                    Ok(v) => v,
                    Err(e) => {
                        proof {
                            let (ga, ca, oa) = choose|gs: Seq<&mut S>, cs: Seq<StateCall<V, S::Error>>, out: Result<V, RunError<S::Error>>|
                    xg == out && l1 == l0 + cs && expr_done(*old(self).doc, old(self).procedure_arguments_frames@, old(self).string_max_length, *secs, old(self).doc.spec_blocks().len(), gs, cs, out) && (if gs.len() == 0 { t1 == t0 } else { mut_ref_current(gs[0]) == t0 && mut_ref_future(gs.last()) == t1 && forall|k: int| 0 <= k < gs.len() - 1 ==> mut_ref_future(#[trigger] gs[k]) == mut_ref_current(gs[k + 1]) });
                            let (gb, cb, ob) = choose|gs: Seq<&mut S>, cs: Seq<StateCall<V, S::Error>>, out: Result<V, RunError<S::Error>>|
                    yg == out && l2 == l1 + cs && expr_done(*old(self).doc, old(self).procedure_arguments_frames@, old(self).string_max_length, *message, old(self).doc.spec_blocks().len(), gs, cs, out) && (if gs.len() == 0 { t2 == t1 } else { mut_ref_current(gs[0]) == t1 && mut_ref_future(gs.last()) == t2 && forall|k: int| 0 <= k < gs.len() - 1 ==> mut_ref_future(#[trigger] gs[k]) == mut_ref_current(gs[k + 1]) });
                            lemma_calls_made_concat(ga, ca, gb, cb);
                            lemma_chain_concat(t0, ga, t1, gb, self.state);
                            assert(self.log@ =~= l0 + (ca + cb));
                            assert((ca + cb).take(ca.len() as int) =~= ca);
                            assert((ca + cb).subrange(ca.len() as int, (ca.len() + cb.len()) as int) =~= cb);
                            assert(self.log@ =~= l0 + ca + cb); assert(stmt_outcome(*old(self).doc, old(self).procedure_arguments_frames@, old(self).string_max_length, id, stack_item, next, *stmt, old(self).stack@, self.stack@, self.procedure_arguments_frames@, ca + cb, Err::<(), RunError<S::Error>>(e)));
                        }
                        return Err(e);
                    },
                };
                let ghost xv = x;
                let ghost yv = y;
                let fl = x.as_float();
                let ghost flg = fl;
                self.state.write_output(OutputKind::SayFor(fl), y);
                proof {
                    self.log@ = self.log@.push(StateCall::<V, S::Error>::Output(OutputKind::SayFor(flg), yv));
                }
                self.stack.push_opt(next);
                let res = Ok(());
                proof {
                    let (ga, ca, oa) = choose|gs: Seq<&mut S>, cs: Seq<StateCall<V, S::Error>>, out: Result<V, RunError<S::Error>>|
                    xg == out && l1 == l0 + cs && expr_done(*old(self).doc, old(self).procedure_arguments_frames@, old(self).string_max_length, *secs, old(self).doc.spec_blocks().len(), gs, cs, out) && (if gs.len() == 0 { t1 == t0 } else { mut_ref_current(gs[0]) == t0 && mut_ref_future(gs.last()) == t1 && forall|k: int| 0 <= k < gs.len() - 1 ==> mut_ref_future(#[trigger] gs[k]) == mut_ref_current(gs[k + 1]) });
                    let (gb, cb, ob) = choose|gs: Seq<&mut S>, cs: Seq<StateCall<V, S::Error>>, out: Result<V, RunError<S::Error>>|
                    yg == out && l2 == l1 + cs && expr_done(*old(self).doc, old(self).procedure_arguments_frames@, old(self).string_max_length, *message, old(self).doc.spec_blocks().len(), gs, cs, out) && (if gs.len() == 0 { t2 == t1 } else { mut_ref_current(gs[0]) == t1 && mut_ref_future(gs.last()) == t2 && forall|k: int| 0 <= k < gs.len() - 1 ==> mut_ref_future(#[trigger] gs[k]) == mut_ref_current(gs[k + 1]) });
                    let g = choose|g: &mut S| #![trigger call_ensures(S::write_output, (g, OutputKind::SayFor(flg), yv), ())] call_ensures(S::write_output, (g, OutputKind::SayFor(flg), yv), ()) && mut_ref_current(g) == t2 && mut_ref_future(g) == self.state;
                    lemma_one_call(g, StateCall::<V, S::Error>::Output(OutputKind::SayFor(flg), yv));
                    let cc = StateCall::<V, S::Error>::Output(OutputKind::SayFor(flg), yv);
                    lemma_calls_made_concat(ga, ca, gb, cb);
                    lemma_chain_concat(t0, ga, t1, gb, t2);
                    lemma_calls_made_concat(ga + gb, ca + cb, seq![g], seq![cc]);
                    lemma_chain_concat(t0, ga + gb, t2, seq![g], self.state);
                    let all = ca + cb + seq![cc];
                    assert(self.log@ =~= l0 + all);
                    assert(all.take(ca.len() as int) =~= ca);
                    assert(all.subrange(ca.len() as int, (ca.len() + cb.len()) as int) =~= cb);
                    assert(all[(ca.len() + cb.len()) as int] == cc);
                    assert(self.log@ =~= l0 + all); assert(stmt_outcome(*old(self).doc, old(self).procedure_arguments_frames@, old(self).string_max_length, id, stack_item, next, *stmt, old(self).stack@, self.stack@, self.procedure_arguments_frames@, all, res));
                }
                res
            },
            StmtKind::SensingAskAndWait { question } => {
                let xr = self.eval_expr(question);
                let ghost xg = xr;
                let ghost t1 = self.state;
                let ghost l1 = self.log@;
                let x = match xr {
                    Ok(v) => v,
                    Err(e) => {
                        proof {
                            let (ga, ca, oa) = choose|gs: Seq<&mut S>, cs: Seq<StateCall<V, S::Error>>, out: Result<V, RunError<S::Error>>|
                    xg == out && l1 == l0 + cs && expr_done(*old(self).doc, old(self).procedure_arguments_frames@, old(self).string_max_length, *question, old(self).doc.spec_blocks().len(), gs, cs, out) && (if gs.len() == 0 { t1 == t0 } else { mut_ref_current(gs[0]) == t0 && mut_ref_future(gs.last()) == t1 && forall|k: int| 0 <= k < gs.len() - 1 ==> mut_ref_future(#[trigger] gs[k]) == mut_ref_current(gs[k + 1]) });
                            assert(ca.take(ca.len() as int) =~= ca);
                            assert(self.log@ =~= l0 + ca); assert(stmt_outcome(*old(self).doc, old(self).procedure_arguments_frames@, old(self).string_max_length, id, stack_item, next, *stmt, old(self).stack@, self.stack@, self.procedure_arguments_frames@, ca, Err::<(), RunError<S::Error>>(e)));
                        }
                        return Err(e);
                    },
                };
                let ghost xv = x;
                
                let r = self.state.ask_question(x);
                let ghost rg = r;
                proof {
                    self.log@ = self.log@.push(StateCall::Ask(xv, rg));
                }
                let res = match r {
                    Ok(()) => {
                        self.stack.push_opt(next);
                        Ok(())
                    },
                    Err(e) => Err(RunError::State(e)),
                };
                proof {
                    let (ga, ca, oa) = choose|gs: Seq<&mut S>, cs: Seq<StateCall<V, S::Error>>, out: Result<V, RunError<S::Error>>|
                    xg == out && l1 == l0 + cs && expr_done(*old(self).doc, old(self).procedure_arguments_frames@, old(self).string_max_length, *question, old(self).doc.spec_blocks().len(), gs, cs, out) && (if gs.len() == 0 { t1 == t0 } else { mut_ref_current(gs[0]) == t0 && mut_ref_future(gs.last()) == t1 && forall|k: int| 0 <= k < gs.len() - 1 ==> mut_ref_future(#[trigger] gs[k]) == mut_ref_current(gs[k + 1]) });
                    let g = choose|g: &mut S| #![trigger call_ensures(S::ask_question, (g, xv), rg)] call_ensures(S::ask_question, (g, xv), rg) && mut_ref_current(g) == t1 && mut_ref_future(g) == self.state;
                    lemma_one_call(g, StateCall::Ask(xv, rg));
                    let cc = StateCall::Ask(xv, rg);
                    lemma_calls_made_concat(ga, ca, seq![g], seq![cc]);
                    lemma_chain_concat(t0, ga, t1, seq![g], self.state);
                    assert(self.log@ =~= l0 + (ca + seq![cc]));
                    let all = ca + seq![cc];
                    assert(self.log@ =~= l0 + all);
                    assert(all.take(ca.len() as int) =~= ca);
                    assert(all[ca.len() as int] == cc);
                    assert(self.log@ =~= l0 + all); assert(stmt_outcome(*old(self).doc, old(self).procedure_arguments_frames@, old(self).string_max_length, id, stack_item, next, *stmt, old(self).stack@, self.stack@, self.procedure_arguments_frames@, all, res));
                }
                res
            },
            _ => {
                proof {
                    assert(false);
                }
                Err(RunError::TerminatedByControlStop)
            },
        }
    }

}

} // verus!
