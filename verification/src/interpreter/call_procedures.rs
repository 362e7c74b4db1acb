use vstd::prelude::*;

use crate::calls::{calls_made, expr_done, lemma_calls_made_concat, lemma_chain_concat, StateCall};
use crate::error::{InternalError, InvalidFileError, RunError};
use crate::frames::{bind_arguments, find_procedure, ProcedureArgumentsFrame};
use crate::interpreter::RunningInterpreter;
use crate::program::{Expression, StmtKind};
use crate::semantics::{evaluated, expr_outcome};
use crate::stack::StackItem;
use crate::state::State;
use crate::steps::{arg_evaluated, args_evaluated, args_outcome, call_outcome, push_next, stmt_outcome, vec_result_view};
use crate::value::ScratchValue;

verus! {

impl<'a, V: ScratchValue, S: State<V>> RunningInterpreter<'a, V, S> {
    /// Evaluates the arguments of a call in order, up to the first error; `segs[i]`
    /// are the state calls argument `i` made, and together they lead from the state
    /// before to the state after.
    #[verifier::spinoff_prover]
    #[verifier::rlimit(60)]
    pub(crate) fn eval_arguments(&mut self, args: &Vec<(String, Option<Expression<V>>)>) -> (res: Result<
        Vec<(String, Option<V>)>,
        RunError<S::Error>,
    >)
        ensures
            Self::same_but_state(old(self), final(self)),
            exists|gs: Seq<&mut S>, segs: Seq<Seq<StateCall<V, S::Error>>>, out: Result<Seq<(String, Option<V>)>, RunError<S::Error>>|
                #![trigger args_outcome(*old(self).doc, old(self).procedure_arguments_frames@, old(self).string_max_length, args@, segs, out), calls_made(gs, segs.flatten())]
                vec_result_view(res) == out && final(self).log@ == old(self).log@ + segs.flatten() && args_outcome(*old(self).doc, old(self).procedure_arguments_frames@, old(self).string_max_length, args@, segs, out) && calls_made(
                    gs,
                    segs.flatten(),
                ) && (if gs.len() == 0 { final(self).state == old(self).state } else { mut_ref_current(gs[0]) == old(self).state && mut_ref_future(gs.last()) == final(self).state && forall|k: int| 0 <= k < gs.len() - 1 ==> mut_ref_future(#[trigger] gs[k]) == mut_ref_current(gs[k + 1]) }),
    {
        let ghost pre = *self;
        let ghost t0 = self.state;
        let ghost l0 = self.log@;
        let ghost mut segs: Seq<Seq<StateCall<V, S::Error>>> = Seq::empty();
        let mut vals: Vec<(String, Option<V>)> = Vec::new();
        let mut i: usize = 0;
        proof {
            assert(calls_made(Seq::<&mut S>::empty(), segs.flatten()));
        }
        while i < args.len()
            invariant
                i <= args@.len(),
                pre == *old(self),
                t0 == pre.state,
                Self::same_but_state(&pre, self),
                vals@.len() == i,
                segs.len() == i,
                l0 == pre.log@,
                self.log@ == l0 + segs.flatten(),
                forall|j: int| 0 <= j < i ==> #[trigger] arg_evaluated(*pre.doc, pre.procedure_arguments_frames@, pre.string_max_length, args@[j], segs[j], vals@[j]),
                exists|gs: Seq<&mut S>| #![trigger calls_made(gs, segs.flatten())] calls_made(gs, segs.flatten()) && (if gs.len() == 0 { self.state == t0 } else { mut_ref_current(gs[0]) == t0 && mut_ref_future(gs.last()) == self.state && forall|k: int| 0 <= k < gs.len() - 1 ==> mut_ref_future(#[trigger] gs[k]) == mut_ref_current(gs[k + 1]) }),
            decreases args@.len() - i,
        {
            let ghost t1 = self.state;
            let ghost l1 = self.log@;
            let ghost vals0 = vals@;
            let id = args[i].0.clone();
            match &args[i].1 {
                None => {
                    vals.push((id, None));
                    proof {
                        let gs = choose|gs: Seq<&mut S>| calls_made(gs, segs.flatten()) && (if gs.len() == 0 { t1 == t0 } else { mut_ref_current(gs[0]) == t0 && mut_ref_future(gs.last()) == t1 && forall|k: int| 0 <= k < gs.len() - 1 ==> mut_ref_future(#[trigger] gs[k]) == mut_ref_current(gs[k + 1]) });
                        let ns = segs.push(Seq::empty());
                        assert(ns =~= segs + seq![Seq::<StateCall<V, S::Error>>::empty()]);
                        vstd::seq_lib::lemma_flatten_concat(segs, seq![Seq::<StateCall<V, S::Error>>::empty()]);
                        seq![Seq::<StateCall<V, S::Error>>::empty()].lemma_flatten_one_element();
                        assert(ns.flatten() =~= segs.flatten());
                        assert(l0 + ns.flatten() =~= self.log@);
                        assert(arg_evaluated(*pre.doc, pre.procedure_arguments_frames@, pre.string_max_length, args@[i as int], ns[i as int], vals@[i as int]));
                        assert(forall|j: int| 0 <= j < i ==> ns[j] == segs[j] && vals@[j] == vals0[j]) by {}
                        segs = ns;
                        assert(calls_made(gs, segs.flatten()));
                    }
                },
                Some(e) => {
                    let er = self.eval_expr(e);
                    let ghost eg = er;
                    match er {
                        Ok(v) => {
                            vals.push((id, Some(v)));
                            proof {
                                let gs = choose|gs: Seq<&mut S>| calls_made(gs, segs.flatten()) && (if gs.len() == 0 { t1 == t0 } else { mut_ref_current(gs[0]) == t0 && mut_ref_future(gs.last()) == t1 && forall|k: int| 0 <= k < gs.len() - 1 ==> mut_ref_future(#[trigger] gs[k]) == mut_ref_current(gs[k + 1]) });
                                let (ga, ca, oa) = choose|gs: Seq<&mut S>, cs: Seq<StateCall<V, S::Error>>, out: Result<V, RunError<S::Error>>|
                    eg == out && self.log@ == l1 + cs && expr_done(*old(self).doc, old(self).procedure_arguments_frames@, old(self).string_max_length, *e, old(self).doc.spec_blocks().len(), gs, cs, out) && (if gs.len() == 0 { self.state == t1 } else { mut_ref_current(gs[0]) == t1 && mut_ref_future(gs.last()) == self.state && forall|k: int| 0 <= k < gs.len() - 1 ==> mut_ref_future(#[trigger] gs[k]) == mut_ref_current(gs[k + 1]) });
                                let cb = self.log@.skip(l1.len() as int);
                                assert(cb =~= ca);
                                let ns = segs.push(cb);
                                assert(ns =~= segs + seq![cb]);
                                vstd::seq_lib::lemma_flatten_concat(segs, seq![cb]);
                                seq![cb].lemma_flatten_one_element();
                                assert(ns.flatten() =~= segs.flatten() + cb);
                                assert(l0 + ns.flatten() =~= self.log@);
                                lemma_calls_made_concat(gs, segs.flatten(), ga, ca);
                                lemma_chain_concat(t0, gs, t1, ga, self.state);
                                assert(args@[i as int].1 == Some(*e));
                                assert(arg_evaluated(*pre.doc, pre.procedure_arguments_frames@, pre.string_max_length, args@[i as int], ns[i as int], vals@[i as int]));
                                assert(forall|j: int| 0 <= j < i ==> ns[j] == segs[j] && vals@[j] == vals0[j]) by {}
                                segs = ns;
                                assert(calls_made(gs + ga, segs.flatten()));
                            }
                        },
                        Err(err) => {
                            proof {
                                let gs = choose|gs: Seq<&mut S>| calls_made(gs, segs.flatten()) && (if gs.len() == 0 { t1 == t0 } else { mut_ref_current(gs[0]) == t0 && mut_ref_future(gs.last()) == t1 && forall|k: int| 0 <= k < gs.len() - 1 ==> mut_ref_future(#[trigger] gs[k]) == mut_ref_current(gs[k + 1]) });
                                let (ga, ca, oa) = choose|gs: Seq<&mut S>, cs: Seq<StateCall<V, S::Error>>, out: Result<V, RunError<S::Error>>|
                    eg == out && self.log@ == l1 + cs && expr_done(*old(self).doc, old(self).procedure_arguments_frames@, old(self).string_max_length, *e, old(self).doc.spec_blocks().len(), gs, cs, out) && (if gs.len() == 0 { self.state == t1 } else { mut_ref_current(gs[0]) == t1 && mut_ref_future(gs.last()) == self.state && forall|k: int| 0 <= k < gs.len() - 1 ==> mut_ref_future(#[trigger] gs[k]) == mut_ref_current(gs[k + 1]) });
                                let cb = self.log@.skip(l1.len() as int);
                                assert(cb =~= ca);
                                let ns = segs.push(cb);
                                assert(ns =~= segs + seq![cb]);
                                vstd::seq_lib::lemma_flatten_concat(segs, seq![cb]);
                                seq![cb].lemma_flatten_one_element();
                                assert(ns.flatten() =~= segs.flatten() + cb);
                                assert(l0 + ns.flatten() =~= self.log@);
                                lemma_calls_made_concat(gs, segs.flatten(), ga, ca);
                                lemma_chain_concat(t0, gs, t1, ga, self.state);
                                assert(args@[i as int].1 == Some(*e));
                                assert(ns.drop_last() =~= segs);
                                assert(args_evaluated(*pre.doc, pre.procedure_arguments_frames@, pre.string_max_length, args@, segs, vals@));
                                assert(args_evaluated(*old(self).doc, old(self).procedure_arguments_frames@, old(self).string_max_length, args@, ns.drop_last(), vals@));
                                assert(ns.last() == cb);
                                assert(1 <= ns.len() <= args@.len());
                                assert(args@[ns.len() - 1].1 == Some(*e));
                                assert(oa == Err::<V, RunError<S::Error>>(err));
                                assert(expr_outcome(*old(self).doc, old(self).procedure_arguments_frames@, old(self).string_max_length, *e, old(self).doc.spec_blocks().len(), ns.last(), Err::<V, RunError<S::Error>>(err)));
                                assert(args_outcome(*old(self).doc, old(self).procedure_arguments_frames@, old(self).string_max_length, args@, ns, Err::<Seq<(String, Option<V>)>, RunError<S::Error>>(err)));
                                assert(calls_made(gs + ga, ns.flatten()));
                            }
                            return Err(err);
                        },
                    }
                },
            }
            i = i + 1;
        }
        proof {
            assert(args_outcome(*old(self).doc, old(self).procedure_arguments_frames@, old(self).string_max_length, args@, segs, Ok::<Seq<(String, Option<V>)>, RunError<S::Error>>(vals@)));
        }
        Ok(vals)
    }

    /// Runs a procedure call block `id`: starts the call from a normal stack item, or
    /// drops the call's argument frame when its reminder item comes back.
    #[verifier::spinoff_prover]
    #[verifier::rlimit(60)]
    pub(crate) fn call_procedure(
        &mut self,
        id: usize,
        next: Option<usize>,
        stack_item: &StackItem<usize>,
        procedure_id: &String,
        arguments: &Vec<(String, Option<Expression<V>>)>,
    ) -> (res: Result<(), RunError<S::Error>>)
        ensures
            final(self).doc == old(self).doc,
            final(self).execute_stmt_count == old(self).execute_stmt_count,
            final(self).string_max_length == old(self).string_max_length,
            final(self).limits == old(self).limits,
            exists|gs: Seq<&mut S>, cs: Seq<StateCall<V, S::Error>>, out: Result<(), RunError<S::Error>>|
                #![trigger calls_made(gs, cs), stmt_outcome(*old(self).doc, old(self).procedure_arguments_frames@, old(self).string_max_length, id, *stack_item, next, StmtKind::ProceduresCall { procedure_id: *procedure_id, arguments: *arguments }, old(self).stack@, final(self).stack@, final(self).procedure_arguments_frames@, cs, out)]
                res == out && final(self).log@ == old(self).log@ + cs && calls_made(gs, cs) && stmt_outcome(*old(self).doc, old(self).procedure_arguments_frames@, old(self).string_max_length, id, *stack_item, next, StmtKind::ProceduresCall { procedure_id: *procedure_id, arguments: *arguments }, old(self).stack@, final(self).stack@, final(self).procedure_arguments_frames@, cs, out) && (if gs.len() == 0 { final(self).state == old(self).state } else { mut_ref_current(gs[0]) == old(self).state && mut_ref_future(gs.last()) == final(self).state && forall|k: int| 0 <= k < gs.len() - 1 ==> mut_ref_future(#[trigger] gs[k]) == mut_ref_current(gs[k + 1]) }),
    {
        let ghost t0 = self.state;
        let ghost l0 = self.log@;
        match stack_item {
            StackItem::Normal(_) => {
                let evaluated_arguments = self.eval_arguments(arguments);
                let ghost ag = vec_result_view(evaluated_arguments);
                let ghost t1 = self.state;
                let ghost l1 = self.log@;
                let doc = self.doc;
                let procedure = match find_procedure(doc.procedures(), procedure_id) {
                    Some(p) => p,
                    None => {
                        let res = Err(RunError::File(InvalidFileError::CantFindProcedureForCall));
                        proof {
                            let (gs, segs, ao) = choose|gs: Seq<&mut S>, segs: Seq<Seq<StateCall<V, S::Error>>>, out: Result<Seq<(String, Option<V>)>, RunError<S::Error>>| ag == out && args_outcome(*old(self).doc, old(self).procedure_arguments_frames@, old(self).string_max_length, arguments@, segs, out) && calls_made(gs, segs.flatten()) && l1 == l0 + segs.flatten() && (if gs.len() == 0 { t1 == t0 } else { mut_ref_current(gs[0]) == t0 && mut_ref_future(gs.last()) == t1 && forall|k: int| 0 <= k < gs.len() - 1 ==> mut_ref_future(#[trigger] gs[k]) == mut_ref_current(gs[k + 1]) });
                            assert(stmt_outcome(*old(self).doc, old(self).procedure_arguments_frames@, old(self).string_max_length, id, *stack_item, next, StmtKind::ProceduresCall { procedure_id: *procedure_id, arguments: *arguments }, old(self).stack@, self.stack@, self.procedure_arguments_frames@, segs.flatten(), res));
                        }
                        return res;
                    },
                };
                let vals = match evaluated_arguments {
                    Ok(v) => v,
                    Err(e) => {
                        proof {
                            let (gs, segs, ao) = choose|gs: Seq<&mut S>, segs: Seq<Seq<StateCall<V, S::Error>>>, out: Result<Seq<(String, Option<V>)>, RunError<S::Error>>| ag == out && args_outcome(*old(self).doc, old(self).procedure_arguments_frames@, old(self).string_max_length, arguments@, segs, out) && calls_made(gs, segs.flatten()) && l1 == l0 + segs.flatten() && (if gs.len() == 0 { t1 == t0 } else { mut_ref_current(gs[0]) == t0 && mut_ref_future(gs.last()) == t1 && forall|k: int| 0 <= k < gs.len() - 1 ==> mut_ref_future(#[trigger] gs[k]) == mut_ref_current(gs[k + 1]) });
                            assert(stmt_outcome(*old(self).doc, old(self).procedure_arguments_frames@, old(self).string_max_length, id, *stack_item, next, StmtKind::ProceduresCall { procedure_id: *procedure_id, arguments: *arguments }, old(self).stack@, self.stack@, self.procedure_arguments_frames@, segs.flatten(), Err::<(), RunError<S::Error>>(e)));
                        }
                        return Err(e);
                    },
                };
                let entries = match bind_arguments(&procedure.arguments, vals) {
                    Ok(e) => e,
                    Err(e) => {
                        let res = Err(RunError::File(e));
                        proof {
                            let (gs, segs, ao) = choose|gs: Seq<&mut S>, segs: Seq<Seq<StateCall<V, S::Error>>>, out: Result<Seq<(String, Option<V>)>, RunError<S::Error>>| ag == out && args_outcome(*old(self).doc, old(self).procedure_arguments_frames@, old(self).string_max_length, arguments@, segs, out) && calls_made(gs, segs.flatten()) && l1 == l0 + segs.flatten() && (if gs.len() == 0 { t1 == t0 } else { mut_ref_current(gs[0]) == t0 && mut_ref_future(gs.last()) == t1 && forall|k: int| 0 <= k < gs.len() - 1 ==> mut_ref_future(#[trigger] gs[k]) == mut_ref_current(gs[k + 1]) });
                            assert(stmt_outcome(*old(self).doc, old(self).procedure_arguments_frames@, old(self).string_max_length, id, *stack_item, next, StmtKind::ProceduresCall { procedure_id: *procedure_id, arguments: *arguments }, old(self).stack@, self.stack@, self.procedure_arguments_frames@, segs.flatten(), res));
                        }
                        return res;
                    },
                };
                let frame = ProcedureArgumentsFrame::new(procedure.procedure_id.clone(), entries);
                self.stack.push_opt(next);
                self.stack.push(StackItem::PopArgumentFrame(id));
                let ghost f0 = self.procedure_arguments_frames@;
                self.procedure_arguments_frames.push(frame);
                assert(self.procedure_arguments_frames@.drop_last() =~= f0);
                self.stack.push(StackItem::Normal(procedure.definition_block));
                let res = Ok(());
                proof {
                    let (gs, segs, ao) = choose|gs: Seq<&mut S>, segs: Seq<Seq<StateCall<V, S::Error>>>, out: Result<Seq<(String, Option<V>)>, RunError<S::Error>>| ag == out && args_outcome(*old(self).doc, old(self).procedure_arguments_frames@, old(self).string_max_length, arguments@, segs, out) && calls_made(gs, segs.flatten()) && l1 == l0 + segs.flatten() && (if gs.len() == 0 { t1 == t0 } else { mut_ref_current(gs[0]) == t0 && mut_ref_future(gs.last()) == t1 && forall|k: int| 0 <= k < gs.len() - 1 ==> mut_ref_future(#[trigger] gs[k]) == mut_ref_current(gs[k + 1]) });
                    assert(stmt_outcome(*old(self).doc, old(self).procedure_arguments_frames@, old(self).string_max_length, id, *stack_item, next, StmtKind::ProceduresCall { procedure_id: *procedure_id, arguments: *arguments }, old(self).stack@, self.stack@, self.procedure_arguments_frames@, segs.flatten(), res));
                }
                res
            },
            StackItem::PopArgumentFrame(_) => {
                let res = match self.procedure_arguments_frames.pop() {
                    Some(_) => Ok(()),
                    None => Err(RunError::Internal(InternalError::PopOnEmptyArgumentFramesStack)),
                };
                proof {
                    assert(stmt_outcome(*old(self).doc, old(self).procedure_arguments_frames@, old(self).string_max_length, id, *stack_item, next, StmtKind::ProceduresCall { procedure_id: *procedure_id, arguments: *arguments }, old(self).stack@, self.stack@, self.procedure_arguments_frames@, Seq::<StateCall<V, S::Error>>::empty(), res));
                    assert(calls_made(Seq::<&mut S>::empty(), Seq::<StateCall<V, S::Error>>::empty()));
                    assert(l0 + Seq::<StateCall<V, S::Error>>::empty() =~= self.log@);
                }
                res
            },
            StackItem::CountLoop(_, _) => {
                let res = Err(RunError::Internal(InternalError::FatalWrongStackFrameForContext));
                proof {
                    assert(stmt_outcome(*old(self).doc, old(self).procedure_arguments_frames@, old(self).string_max_length, id, *stack_item, next, StmtKind::ProceduresCall { procedure_id: *procedure_id, arguments: *arguments }, old(self).stack@, self.stack@, self.procedure_arguments_frames@, Seq::<StateCall<V, S::Error>>::empty(), res));
                    assert(calls_made(Seq::<&mut S>::empty(), Seq::<StateCall<V, S::Error>>::empty()));
                    assert(l0 + Seq::<StateCall<V, S::Error>>::empty() =~= self.log@);
                }
                res
            },
        }
    }
}

} // verus!
