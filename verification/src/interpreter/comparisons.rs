use vstd::prelude::*;

use crate::calls::{
    call_made, calls_made, cond_done, cond_kind_done, expr_done, lemma_calls_made_concat, lemma_chain_concat,
    lemma_one_call, StateCall,
};
use crate::error::{RunError, UnsupportedError};
use crate::frames::lookup_in_frames;
use crate::interpreter::expressions::missing_ref_exec;
use crate::interpreter::RunningInterpreter;
use crate::program::{block_refs_ok, blocks_wf, BlockKind, CondKind};
use crate::semantics::{cond_kind_outcome, cond_ref_outcome, evaluated, missing_ref};
use crate::state::State;
use crate::value::ScratchValue;

verus! {

impl<'a, V: ScratchValue, S: State<V>> RunningInterpreter<'a, V, S> {
    /// Evaluates a boolean input of a statement: the state calls it makes, in order,
    /// lead from the state before to the state after.
    #[verifier::spinoff_prover]
    #[verifier::rlimit(60)]
    pub(crate) fn eval_opt_cond(&mut self, cond: &Option<usize>) -> (res: Result<bool, RunError<S::Error>>)
        ensures
            Self::same_but_state(old(self), final(self)),
            !(res matches Err(RunError::Internal(_))),
            exists|gs: Seq<&mut S>, cs: Seq<StateCall<V, S::Error>>, out: Result<bool, RunError<S::Error>>|
                #![trigger cond_done(*old(self).doc, old(self).procedure_arguments_frames@, old(self).string_max_length, *cond, old(self).doc.spec_blocks().len(), gs, cs, out)]
                res == out && final(self).log@ == old(self).log@ + cs && cond_done(*old(self).doc, old(self).procedure_arguments_frames@, old(self).string_max_length, *cond, old(self).doc.spec_blocks().len(), gs, cs, out) && (if gs.len() == 0 { final(self).state == old(self).state } else { mut_ref_current(gs[0]) == old(self).state && mut_ref_future(gs.last()) == final(self).state && forall|k: int| 0 <= k < gs.len() - 1 ==> mut_ref_future(#[trigger] gs[k]) == mut_ref_current(gs[k + 1]) }),
    {
        self.doc.check_wf();
        self.eval_cond_below(cond, Ghost(self.doc.spec_blocks().len()))
    }

    /// Evaluates a boolean input whose reference lies below `bound` or outside the program.
    #[verifier::spinoff_prover]
    #[verifier::rlimit(60)]
    pub(crate) fn eval_cond_below(&mut self, cond: &Option<usize>, Ghost(bound): Ghost<nat>) -> (res: Result<bool, RunError<S::Error>>)
        requires
            blocks_wf(old(self).doc.spec_blocks()),
            bound <= old(self).doc.spec_blocks().len(),
            cond matches Some(r) ==> (r < bound || r >= old(self).doc.spec_blocks().len()),
        ensures
            Self::same_but_state(old(self), final(self)),
            !(res matches Err(RunError::Internal(_))),
            exists|gs: Seq<&mut S>, cs: Seq<StateCall<V, S::Error>>, out: Result<bool, RunError<S::Error>>|
                #![trigger cond_done(*old(self).doc, old(self).procedure_arguments_frames@, old(self).string_max_length, *cond, bound, gs, cs, out)]
                res == out && final(self).log@ == old(self).log@ + cs && cond_done(*old(self).doc, old(self).procedure_arguments_frames@, old(self).string_max_length, *cond, bound, gs, cs, out) && (if gs.len() == 0 { final(self).state == old(self).state } else { mut_ref_current(gs[0]) == old(self).state && mut_ref_future(gs.last()) == final(self).state && forall|k: int| 0 <= k < gs.len() - 1 ==> mut_ref_future(#[trigger] gs[k]) == mut_ref_current(gs[k + 1]) }),
        decreases bound, 2nat,
    {
        proof {
            reveal(evaluated);
        }
        let ghost t0 = self.state;
        let ghost l0 = self.log@;
        let r = match cond {
            None => {
                let res = Ok(false);
                proof {
                    assert(cond_done::<V, S>(*old(self).doc, old(self).procedure_arguments_frames@, old(self).string_max_length, *cond, bound, Seq::empty(), Seq::empty(), res));
                }
                return res;
            },
            Some(r) => *r,
        };
        let doc = self.doc;
        if r >= doc.blocks().len() {
            let res = Err(missing_ref_exec(r));
            proof {
                assert(cond_done::<V, S>(*old(self).doc, old(self).procedure_arguments_frames@, old(self).string_max_length, *cond, bound, Seq::empty(), Seq::empty(), res));
            }
            return res;
        }
        match &doc.blocks()[r].kind {
            BlockKind::Cond(c) => {
                assert(block_refs_ok(doc.spec_blocks()[r as int].kind, r as int, doc.spec_blocks().len() as int));
                let res = self.eval_cond_kind(c, r);
                proof {
                    let (gs, cs, out) = choose|gs: Seq<&mut S>, cs: Seq<StateCall<V, S::Error>>, out: Result<bool, RunError<S::Error>>|
                    res == out && self.log@ == l0 + cs && cond_kind_done(*old(self).doc, old(self).procedure_arguments_frames@, old(self).string_max_length, *c, r as nat, gs, cs, out) && (if gs.len() == 0 { self.state == t0 } else { mut_ref_current(gs[0]) == t0 && mut_ref_future(gs.last()) == self.state && forall|k: int| 0 <= k < gs.len() - 1 ==> mut_ref_future(#[trigger] gs[k]) == mut_ref_current(gs[k + 1]) });
                    assert(cond_done(*old(self).doc, old(self).procedure_arguments_frames@, old(self).string_max_length, *cond, bound, gs, cs, res));
                }
                res
            },
            _ => {
                let res = Err(missing_ref_exec(r));
                proof {
                    assert(cond_done::<V, S>(*old(self).doc, old(self).procedure_arguments_frames@, old(self).string_max_length, *cond, bound, Seq::empty(), Seq::empty(), res));
                }
                res
            },
        }
    }

    /// Evaluates a comparison block of kind `c` at index `r`.
    #[verifier::spinoff_prover]
    #[verifier::rlimit(60)]
    pub(crate) fn eval_cond_kind(&mut self, c: &CondKind<V>, r: usize) -> (res: Result<bool, RunError<S::Error>>)
        requires
            blocks_wf(old(self).doc.spec_blocks()),
            r < old(self).doc.spec_blocks().len(),
            block_refs_ok(BlockKind::Cond(*c), r as int, old(self).doc.spec_blocks().len() as int),
        ensures
            Self::same_but_state(old(self), final(self)),
            !(res matches Err(RunError::Internal(_))),
            exists|gs: Seq<&mut S>, cs: Seq<StateCall<V, S::Error>>, out: Result<bool, RunError<S::Error>>|
                #![trigger cond_kind_done(*old(self).doc, old(self).procedure_arguments_frames@, old(self).string_max_length, *c, r as nat, gs, cs, out)]
                res == out && final(self).log@ == old(self).log@ + cs && cond_kind_done(*old(self).doc, old(self).procedure_arguments_frames@, old(self).string_max_length, *c, r as nat, gs, cs, out) && (if gs.len() == 0 { final(self).state == old(self).state } else { mut_ref_current(gs[0]) == old(self).state && mut_ref_future(gs.last()) == final(self).state && forall|k: int| 0 <= k < gs.len() - 1 ==> mut_ref_future(#[trigger] gs[k]) == mut_ref_current(gs[k + 1]) }),
        decreases r + 1, 0nat,
    {
        proof {
            reveal(evaluated);
        }
        let ghost t0 = self.state;
        let ghost l0 = self.log@;
        let ghost b = r as nat;
        match c {
            CondKind::OperatorOr { .. } | CondKind::OperatorAnd { .. } => self.eval_cond_pair(c, r),
            CondKind::OperatorGt { .. } | CondKind::OperatorLt { .. } | CondKind::OperatorEquals { .. } | CondKind::OperatorContains { .. } => self.eval_cond_comparison(c, r),
            CondKind::OperatorNot { operand } => {
                let ar = self.eval_cond_below(operand, Ghost(b));
                let ghost ag = ar;
                let res = match ar {
                    Ok(x) => Ok(!x),
                    Err(e) => Err(e),
                };
                proof {
                    let (ga, ca, oa) = choose|gs: Seq<&mut S>, cs: Seq<StateCall<V, S::Error>>, out: Result<bool, RunError<S::Error>>|
                    ag == out && self.log@ == l0 + cs && cond_done(*old(self).doc, old(self).procedure_arguments_frames@, old(self).string_max_length, *operand, b, gs, cs, out) && (if gs.len() == 0 { self.state == t0 } else { mut_ref_current(gs[0]) == t0 && mut_ref_future(gs.last()) == self.state && forall|k: int| 0 <= k < gs.len() - 1 ==> mut_ref_future(#[trigger] gs[k]) == mut_ref_current(gs[k + 1]) });
                    assert(cond_kind_done(*old(self).doc, old(self).procedure_arguments_frames@, old(self).string_max_length, *c, r as nat, ga, ca, res));
                }
                res
            },
            CondKind::DataListContainsItem { list, item } => {
                let ar = self.eval_expr_below(item, Ghost(b));
                let ghost ag = ar;
                let ghost t1 = self.state;
                let ghost l1 = self.log@;
                let x = match ar {
                    Ok(x) => x,
                    Err(e) => {
                        proof {
                            let (ga, ca, oa) = choose|gs: Seq<&mut S>, cs: Seq<StateCall<V, S::Error>>, out: Result<V, RunError<S::Error>>|
                    ag == out && l1 == l0 + cs && expr_done(*old(self).doc, old(self).procedure_arguments_frames@, old(self).string_max_length, *item, b, gs, cs, out) && (if gs.len() == 0 { t1 == t0 } else { mut_ref_current(gs[0]) == t0 && mut_ref_future(gs.last()) == t1 && forall|k: int| 0 <= k < gs.len() - 1 ==> mut_ref_future(#[trigger] gs[k]) == mut_ref_current(gs[k + 1]) });
                            assert(ca.take(ca.len() as int) =~= ca);
                            assert(cond_kind_done(*old(self).doc, old(self).procedure_arguments_frames@, old(self).string_max_length, *c, r as nat, ga, ca, Err::<bool, RunError<S::Error>>(e)));
                        }
                        return Err(e);
                    },
                };
                let r2 = self.state.data_list_contains_item(list, &x);
                let ghost r2g = r2;
                proof {
                    self.log@ = self.log@.push(StateCall::ListContains(*list, x, r2g));
                }
                let res = match r2 {
                    Ok(found) => Ok(found),
                    Err(e) => Err(RunError::State(e)),
                };
                proof {
                    let (ga, ca, oa) = choose|gs: Seq<&mut S>, cs: Seq<StateCall<V, S::Error>>, out: Result<V, RunError<S::Error>>|
                    ag == out && l1 == l0 + cs && expr_done(*old(self).doc, old(self).procedure_arguments_frames@, old(self).string_max_length, *item, b, gs, cs, out) && (if gs.len() == 0 { t1 == t0 } else { mut_ref_current(gs[0]) == t0 && mut_ref_future(gs.last()) == t1 && forall|k: int| 0 <= k < gs.len() - 1 ==> mut_ref_future(#[trigger] gs[k]) == mut_ref_current(gs[k + 1]) });
                    let g = choose|g: &mut S| #![trigger call_ensures(S::data_list_contains_item, (g, &*list, &x), r2g)] call_ensures(S::data_list_contains_item, (g, &*list, &x), r2g) && mut_ref_current(g) == t1 && mut_ref_future(g) == self.state;
                    lemma_one_call(g, StateCall::ListContains(*list, x, r2g));
                    let cc = StateCall::ListContains(*list, x, r2g);
                    lemma_calls_made_concat(ga, ca, seq![g], seq![cc]);
                    lemma_chain_concat(t0, ga, t1, seq![g], self.state);
                    assert(self.log@ =~= l0 + (ca + seq![cc]));
                    assert((ca + seq![cc]).take(ca.len() as int) =~= ca);
                    assert((ca + seq![cc])[ca.len() as int] == cc);
                    assert(cond_kind_done(*old(self).doc, old(self).procedure_arguments_frames@, old(self).string_max_length, *c, r as nat, ga + seq![g], ca + seq![cc], res));
                }
                res
            },
            CondKind::UnsupportedSensing => {
                let res = Err(RunError::Unsupported(UnsupportedError::UnsupportedSensingBlock));
                proof { assert(cond_kind_done::<V, S>(*old(self).doc, old(self).procedure_arguments_frames@, old(self).string_max_length, *c, r as nat, Seq::empty(), Seq::empty(), res)); }
                res
            },
            CondKind::ArgumentReporterBoolean { value } => {
                let res = match lookup_in_frames(&self.procedure_arguments_frames, value) {
                    Some(binding) => match &binding.1 {
                        Some(v) => Ok(v.as_bool()),
                        None => Ok(false),
                    },
                    None => Ok(false),
                };
                proof { assert(cond_kind_done::<V, S>(*old(self).doc, old(self).procedure_arguments_frames@, old(self).string_max_length, *c, r as nat, Seq::empty(), Seq::empty(), res)); }
                res
            },
        }
    }

    /// Evaluates an and or an or of two boolean inputs, as `eval_cond_kind` does.
    #[verifier::spinoff_prover]
    #[verifier::rlimit(60)]
    fn eval_cond_pair(&mut self, c: &CondKind<V>, r: usize) -> (res: Result<bool, RunError<S::Error>>)
        requires
            blocks_wf(old(self).doc.spec_blocks()),
            r < old(self).doc.spec_blocks().len(),
            block_refs_ok(BlockKind::Cond(*c), r as int, old(self).doc.spec_blocks().len() as int),
            *c is OperatorOr || *c is OperatorAnd,
        ensures
            Self::same_but_state(old(self), final(self)),
            !(res matches Err(RunError::Internal(_))),
            exists|gs: Seq<&mut S>, cs: Seq<StateCall<V, S::Error>>, out: Result<bool, RunError<S::Error>>|
                #![trigger cond_kind_done(*old(self).doc, old(self).procedure_arguments_frames@, old(self).string_max_length, *c, r as nat, gs, cs, out)]
                res == out && final(self).log@ == old(self).log@ + cs && cond_kind_done(*old(self).doc, old(self).procedure_arguments_frames@, old(self).string_max_length, *c, r as nat, gs, cs, out) && (if gs.len() == 0 { final(self).state == old(self).state } else { mut_ref_current(gs[0]) == old(self).state && mut_ref_future(gs.last()) == final(self).state && forall|k: int| 0 <= k < gs.len() - 1 ==> mut_ref_future(#[trigger] gs[k]) == mut_ref_current(gs[k + 1]) }),
        decreases r, 3nat,
    {
        proof {
            reveal(evaluated);
        }
        let ghost t0 = self.state;
        let ghost l0 = self.log@;
        let ghost b = r as nat;
        match c {
            CondKind::OperatorOr { operand1, operand2 } => {
                let ar = self.eval_cond_below(operand1, Ghost(b));
                let ghost ag = ar;
                let ghost t1 = self.state;
                let ghost l1 = self.log@;
                let x = match ar {
                    Ok(x) => x,
                    Err(e) => {
                        proof {
                            let (ga, ca, oa) = choose|gs: Seq<&mut S>, cs: Seq<StateCall<V, S::Error>>, out: Result<bool, RunError<S::Error>>|
                    ag == out && l1 == l0 + cs && cond_done(*old(self).doc, old(self).procedure_arguments_frames@, old(self).string_max_length, *operand1, b, gs, cs, out) && (if gs.len() == 0 { t1 == t0 } else { mut_ref_current(gs[0]) == t0 && mut_ref_future(gs.last()) == t1 && forall|k: int| 0 <= k < gs.len() - 1 ==> mut_ref_future(#[trigger] gs[k]) == mut_ref_current(gs[k + 1]) });
                            assert(ca.take(ca.len() as int) =~= ca);
                            assert(cond_kind_done(*old(self).doc, old(self).procedure_arguments_frames@, old(self).string_max_length, *c, r as nat, ga, ca, Err::<bool, RunError<S::Error>>(e)));
                        }
                        return Err(e);
                    },
                };
                let br = self.eval_cond_below(operand2, Ghost(b));
                let ghost bg = br;
                let res = match br {
                    Ok(y) => Ok(x || y),
                    Err(e) => Err(e),
                };
                proof {
                    let (ga, ca, oa) = choose|gs: Seq<&mut S>, cs: Seq<StateCall<V, S::Error>>, out: Result<bool, RunError<S::Error>>|
                    ag == out && l1 == l0 + cs && cond_done(*old(self).doc, old(self).procedure_arguments_frames@, old(self).string_max_length, *operand1, b, gs, cs, out) && (if gs.len() == 0 { t1 == t0 } else { mut_ref_current(gs[0]) == t0 && mut_ref_future(gs.last()) == t1 && forall|k: int| 0 <= k < gs.len() - 1 ==> mut_ref_future(#[trigger] gs[k]) == mut_ref_current(gs[k + 1]) });
                    let (gb, cb, ob) = choose|gs: Seq<&mut S>, cs: Seq<StateCall<V, S::Error>>, out: Result<bool, RunError<S::Error>>|
                    bg == out && self.log@ == l1 + cs && cond_done(*old(self).doc, old(self).procedure_arguments_frames@, old(self).string_max_length, *operand2, b, gs, cs, out) && (if gs.len() == 0 { self.state == t1 } else { mut_ref_current(gs[0]) == t1 && mut_ref_future(gs.last()) == self.state && forall|k: int| 0 <= k < gs.len() - 1 ==> mut_ref_future(#[trigger] gs[k]) == mut_ref_current(gs[k + 1]) });
                    lemma_calls_made_concat(ga, ca, gb, cb);
                    lemma_chain_concat(t0, ga, t1, gb, self.state);
                    assert(self.log@ =~= l0 + (ca + cb));
                    assert((ca + cb).take(ca.len() as int) =~= ca);
                    assert((ca + cb).skip(ca.len() as int) =~= cb);
                    assert(cond_kind_done(*old(self).doc, old(self).procedure_arguments_frames@, old(self).string_max_length, *c, r as nat, ga + gb, ca + cb, res));
                }
                res
            },
            CondKind::OperatorAnd { operand1, operand2 } => {
                let ar = self.eval_cond_below(operand1, Ghost(b));
                let ghost ag = ar;
                let ghost t1 = self.state;
                let ghost l1 = self.log@;
                let x = match ar {
                    Ok(x) => x,
                    Err(e) => {
                        proof {
                            let (ga, ca, oa) = choose|gs: Seq<&mut S>, cs: Seq<StateCall<V, S::Error>>, out: Result<bool, RunError<S::Error>>|
                    ag == out && l1 == l0 + cs && cond_done(*old(self).doc, old(self).procedure_arguments_frames@, old(self).string_max_length, *operand1, b, gs, cs, out) && (if gs.len() == 0 { t1 == t0 } else { mut_ref_current(gs[0]) == t0 && mut_ref_future(gs.last()) == t1 && forall|k: int| 0 <= k < gs.len() - 1 ==> mut_ref_future(#[trigger] gs[k]) == mut_ref_current(gs[k + 1]) });
                            assert(ca.take(ca.len() as int) =~= ca);
                            assert(cond_kind_done(*old(self).doc, old(self).procedure_arguments_frames@, old(self).string_max_length, *c, r as nat, ga, ca, Err::<bool, RunError<S::Error>>(e)));
                        }
                        return Err(e);
                    },
                };
                let br = self.eval_cond_below(operand2, Ghost(b));
                let ghost bg = br;
                let res = match br {
                    Ok(y) => Ok(x && y),
                    Err(e) => Err(e),
                };
                proof {
                    let (ga, ca, oa) = choose|gs: Seq<&mut S>, cs: Seq<StateCall<V, S::Error>>, out: Result<bool, RunError<S::Error>>|
                    ag == out && l1 == l0 + cs && cond_done(*old(self).doc, old(self).procedure_arguments_frames@, old(self).string_max_length, *operand1, b, gs, cs, out) && (if gs.len() == 0 { t1 == t0 } else { mut_ref_current(gs[0]) == t0 && mut_ref_future(gs.last()) == t1 && forall|k: int| 0 <= k < gs.len() - 1 ==> mut_ref_future(#[trigger] gs[k]) == mut_ref_current(gs[k + 1]) });
                    let (gb, cb, ob) = choose|gs: Seq<&mut S>, cs: Seq<StateCall<V, S::Error>>, out: Result<bool, RunError<S::Error>>|
                    bg == out && self.log@ == l1 + cs && cond_done(*old(self).doc, old(self).procedure_arguments_frames@, old(self).string_max_length, *operand2, b, gs, cs, out) && (if gs.len() == 0 { self.state == t1 } else { mut_ref_current(gs[0]) == t1 && mut_ref_future(gs.last()) == self.state && forall|k: int| 0 <= k < gs.len() - 1 ==> mut_ref_future(#[trigger] gs[k]) == mut_ref_current(gs[k + 1]) });
                    lemma_calls_made_concat(ga, ca, gb, cb);
                    lemma_chain_concat(t0, ga, t1, gb, self.state);
                    assert(self.log@ =~= l0 + (ca + cb));
                    assert((ca + cb).take(ca.len() as int) =~= ca);
                    assert((ca + cb).skip(ca.len() as int) =~= cb);
                    assert(cond_kind_done(*old(self).doc, old(self).procedure_arguments_frames@, old(self).string_max_length, *c, r as nat, ga + gb, ca + cb, res));
                }
                res
            },
            _ => {
                proof {
                    assert(false);
                }
                Ok(false)
            },
        }
    }

    /// Evaluates a comparison of two inputs, as `eval_cond_kind` does.
    #[verifier::spinoff_prover]
    #[verifier::rlimit(60)]
    fn eval_cond_comparison(&mut self, c: &CondKind<V>, r: usize) -> (res: Result<bool, RunError<S::Error>>)
        requires
            blocks_wf(old(self).doc.spec_blocks()),
            r < old(self).doc.spec_blocks().len(),
            block_refs_ok(BlockKind::Cond(*c), r as int, old(self).doc.spec_blocks().len() as int),
            *c is OperatorGt || *c is OperatorLt || *c is OperatorEquals || *c is OperatorContains,
        ensures
            Self::same_but_state(old(self), final(self)),
            !(res matches Err(RunError::Internal(_))),
            exists|gs: Seq<&mut S>, cs: Seq<StateCall<V, S::Error>>, out: Result<bool, RunError<S::Error>>|
                #![trigger cond_kind_done(*old(self).doc, old(self).procedure_arguments_frames@, old(self).string_max_length, *c, r as nat, gs, cs, out)]
                res == out && final(self).log@ == old(self).log@ + cs && cond_kind_done(*old(self).doc, old(self).procedure_arguments_frames@, old(self).string_max_length, *c, r as nat, gs, cs, out) && (if gs.len() == 0 { final(self).state == old(self).state } else { mut_ref_current(gs[0]) == old(self).state && mut_ref_future(gs.last()) == final(self).state && forall|k: int| 0 <= k < gs.len() - 1 ==> mut_ref_future(#[trigger] gs[k]) == mut_ref_current(gs[k + 1]) }),
        decreases r, 3nat,
    {
        proof {
            reveal(evaluated);
        }
        let ghost t0 = self.state;
        let ghost l0 = self.log@;
        let ghost b = r as nat;
        match c {
            CondKind::OperatorGt { operand1, operand2 } => {
                let ar = self.eval_expr_below(operand1, Ghost(b));
                let ghost ag = ar;
                let ghost t1 = self.state;
                let ghost l1 = self.log@;
                let x = match ar {
                    Ok(x) => x,
                    Err(e) => {
                        proof {
                            let (ga, ca, oa) = choose|gs: Seq<&mut S>, cs: Seq<StateCall<V, S::Error>>, out: Result<V, RunError<S::Error>>|
                    ag == out && l1 == l0 + cs && expr_done(*old(self).doc, old(self).procedure_arguments_frames@, old(self).string_max_length, *operand1, b, gs, cs, out) && (if gs.len() == 0 { t1 == t0 } else { mut_ref_current(gs[0]) == t0 && mut_ref_future(gs.last()) == t1 && forall|k: int| 0 <= k < gs.len() - 1 ==> mut_ref_future(#[trigger] gs[k]) == mut_ref_current(gs[k + 1]) });
                            assert(ca.take(ca.len() as int) =~= ca);
                            assert(cond_kind_done(*old(self).doc, old(self).procedure_arguments_frames@, old(self).string_max_length, *c, r as nat, ga, ca, Err::<bool, RunError<S::Error>>(e)));
                        }
                        return Err(e);
                    },
                };
                let br = self.eval_expr_below(operand2, Ghost(b));
                let ghost bg = br;
                let res = match br {
                    Ok(y) => Ok(x.greater_than(&y)),
                    Err(e) => Err(e),
                };
                proof {
                    let (ga, ca, oa) = choose|gs: Seq<&mut S>, cs: Seq<StateCall<V, S::Error>>, out: Result<V, RunError<S::Error>>|
                    ag == out && l1 == l0 + cs && expr_done(*old(self).doc, old(self).procedure_arguments_frames@, old(self).string_max_length, *operand1, b, gs, cs, out) && (if gs.len() == 0 { t1 == t0 } else { mut_ref_current(gs[0]) == t0 && mut_ref_future(gs.last()) == t1 && forall|k: int| 0 <= k < gs.len() - 1 ==> mut_ref_future(#[trigger] gs[k]) == mut_ref_current(gs[k + 1]) });
                    let (gb, cb, ob) = choose|gs: Seq<&mut S>, cs: Seq<StateCall<V, S::Error>>, out: Result<V, RunError<S::Error>>|
                    bg == out && self.log@ == l1 + cs && expr_done(*old(self).doc, old(self).procedure_arguments_frames@, old(self).string_max_length, *operand2, b, gs, cs, out) && (if gs.len() == 0 { self.state == t1 } else { mut_ref_current(gs[0]) == t1 && mut_ref_future(gs.last()) == self.state && forall|k: int| 0 <= k < gs.len() - 1 ==> mut_ref_future(#[trigger] gs[k]) == mut_ref_current(gs[k + 1]) });
                    lemma_calls_made_concat(ga, ca, gb, cb);
                    lemma_chain_concat(t0, ga, t1, gb, self.state);
                    assert(self.log@ =~= l0 + (ca + cb));
                    assert((ca + cb).take(ca.len() as int) =~= ca);
                    assert((ca + cb).skip(ca.len() as int) =~= cb);
                    assert(cond_kind_done(*old(self).doc, old(self).procedure_arguments_frames@, old(self).string_max_length, *c, r as nat, ga + gb, ca + cb, res));
                }
                res
            },
            CondKind::OperatorLt { operand1, operand2 } => {
                let ar = self.eval_expr_below(operand1, Ghost(b));
                let ghost ag = ar;
                let ghost t1 = self.state;
                let ghost l1 = self.log@;
                let x = match ar {
                    Ok(x) => x,
                    Err(e) => {
                        proof {
                            let (ga, ca, oa) = choose|gs: Seq<&mut S>, cs: Seq<StateCall<V, S::Error>>, out: Result<V, RunError<S::Error>>|
                    ag == out && l1 == l0 + cs && expr_done(*old(self).doc, old(self).procedure_arguments_frames@, old(self).string_max_length, *operand1, b, gs, cs, out) && (if gs.len() == 0 { t1 == t0 } else { mut_ref_current(gs[0]) == t0 && mut_ref_future(gs.last()) == t1 && forall|k: int| 0 <= k < gs.len() - 1 ==> mut_ref_future(#[trigger] gs[k]) == mut_ref_current(gs[k + 1]) });
                            assert(ca.take(ca.len() as int) =~= ca);
                            assert(cond_kind_done(*old(self).doc, old(self).procedure_arguments_frames@, old(self).string_max_length, *c, r as nat, ga, ca, Err::<bool, RunError<S::Error>>(e)));
                        }
                        return Err(e);
                    },
                };
                let br = self.eval_expr_below(operand2, Ghost(b));
                let ghost bg = br;
                let res = match br {
                    Ok(y) => Ok(x.less_than(&y)),
                    Err(e) => Err(e),
                };
                proof {
                    let (ga, ca, oa) = choose|gs: Seq<&mut S>, cs: Seq<StateCall<V, S::Error>>, out: Result<V, RunError<S::Error>>|
                    ag == out && l1 == l0 + cs && expr_done(*old(self).doc, old(self).procedure_arguments_frames@, old(self).string_max_length, *operand1, b, gs, cs, out) && (if gs.len() == 0 { t1 == t0 } else { mut_ref_current(gs[0]) == t0 && mut_ref_future(gs.last()) == t1 && forall|k: int| 0 <= k < gs.len() - 1 ==> mut_ref_future(#[trigger] gs[k]) == mut_ref_current(gs[k + 1]) });
                    let (gb, cb, ob) = choose|gs: Seq<&mut S>, cs: Seq<StateCall<V, S::Error>>, out: Result<V, RunError<S::Error>>|
                    bg == out && self.log@ == l1 + cs && expr_done(*old(self).doc, old(self).procedure_arguments_frames@, old(self).string_max_length, *operand2, b, gs, cs, out) && (if gs.len() == 0 { self.state == t1 } else { mut_ref_current(gs[0]) == t1 && mut_ref_future(gs.last()) == self.state && forall|k: int| 0 <= k < gs.len() - 1 ==> mut_ref_future(#[trigger] gs[k]) == mut_ref_current(gs[k + 1]) });
                    lemma_calls_made_concat(ga, ca, gb, cb);
                    lemma_chain_concat(t0, ga, t1, gb, self.state);
                    assert(self.log@ =~= l0 + (ca + cb));
                    assert((ca + cb).take(ca.len() as int) =~= ca);
                    assert((ca + cb).skip(ca.len() as int) =~= cb);
                    assert(cond_kind_done(*old(self).doc, old(self).procedure_arguments_frames@, old(self).string_max_length, *c, r as nat, ga + gb, ca + cb, res));
                }
                res
            },
            CondKind::OperatorEquals { operand1, operand2 } => {
                let ar = self.eval_expr_below(operand1, Ghost(b));
                let ghost ag = ar;
                let ghost t1 = self.state;
                let ghost l1 = self.log@;
                let x = match ar {
                    Ok(x) => x,
                    Err(e) => {
                        proof {
                            let (ga, ca, oa) = choose|gs: Seq<&mut S>, cs: Seq<StateCall<V, S::Error>>, out: Result<V, RunError<S::Error>>|
                    ag == out && l1 == l0 + cs && expr_done(*old(self).doc, old(self).procedure_arguments_frames@, old(self).string_max_length, *operand1, b, gs, cs, out) && (if gs.len() == 0 { t1 == t0 } else { mut_ref_current(gs[0]) == t0 && mut_ref_future(gs.last()) == t1 && forall|k: int| 0 <= k < gs.len() - 1 ==> mut_ref_future(#[trigger] gs[k]) == mut_ref_current(gs[k + 1]) });
                            assert(ca.take(ca.len() as int) =~= ca);
                            assert(cond_kind_done(*old(self).doc, old(self).procedure_arguments_frames@, old(self).string_max_length, *c, r as nat, ga, ca, Err::<bool, RunError<S::Error>>(e)));
                        }
                        return Err(e);
                    },
                };
                let br = self.eval_expr_below(operand2, Ghost(b));
                let ghost bg = br;
                let res = match br {
                    Ok(y) => Ok(x.equals(&y)),
                    Err(e) => Err(e),
                };
                proof {
                    let (ga, ca, oa) = choose|gs: Seq<&mut S>, cs: Seq<StateCall<V, S::Error>>, out: Result<V, RunError<S::Error>>|
                    ag == out && l1 == l0 + cs && expr_done(*old(self).doc, old(self).procedure_arguments_frames@, old(self).string_max_length, *operand1, b, gs, cs, out) && (if gs.len() == 0 { t1 == t0 } else { mut_ref_current(gs[0]) == t0 && mut_ref_future(gs.last()) == t1 && forall|k: int| 0 <= k < gs.len() - 1 ==> mut_ref_future(#[trigger] gs[k]) == mut_ref_current(gs[k + 1]) });
                    let (gb, cb, ob) = choose|gs: Seq<&mut S>, cs: Seq<StateCall<V, S::Error>>, out: Result<V, RunError<S::Error>>|
                    bg == out && self.log@ == l1 + cs && expr_done(*old(self).doc, old(self).procedure_arguments_frames@, old(self).string_max_length, *operand2, b, gs, cs, out) && (if gs.len() == 0 { self.state == t1 } else { mut_ref_current(gs[0]) == t1 && mut_ref_future(gs.last()) == self.state && forall|k: int| 0 <= k < gs.len() - 1 ==> mut_ref_future(#[trigger] gs[k]) == mut_ref_current(gs[k + 1]) });
                    lemma_calls_made_concat(ga, ca, gb, cb);
                    lemma_chain_concat(t0, ga, t1, gb, self.state);
                    assert(self.log@ =~= l0 + (ca + cb));
                    assert((ca + cb).take(ca.len() as int) =~= ca);
                    assert((ca + cb).skip(ca.len() as int) =~= cb);
                    assert(cond_kind_done(*old(self).doc, old(self).procedure_arguments_frames@, old(self).string_max_length, *c, r as nat, ga + gb, ca + cb, res));
                }
                res
            },
            CondKind::OperatorContains { string1, string2 } => {
                let ar = self.eval_expr_below(string1, Ghost(b));
                let ghost ag = ar;
                let ghost t1 = self.state;
                let ghost l1 = self.log@;
                let x = match ar {
                    Ok(x) => x,
                    Err(e) => {
                        proof {
                            let (ga, ca, oa) = choose|gs: Seq<&mut S>, cs: Seq<StateCall<V, S::Error>>, out: Result<V, RunError<S::Error>>|
                    ag == out && l1 == l0 + cs && expr_done(*old(self).doc, old(self).procedure_arguments_frames@, old(self).string_max_length, *string1, b, gs, cs, out) && (if gs.len() == 0 { t1 == t0 } else { mut_ref_current(gs[0]) == t0 && mut_ref_future(gs.last()) == t1 && forall|k: int| 0 <= k < gs.len() - 1 ==> mut_ref_future(#[trigger] gs[k]) == mut_ref_current(gs[k + 1]) });
                            assert(ca.take(ca.len() as int) =~= ca);
                            assert(cond_kind_done(*old(self).doc, old(self).procedure_arguments_frames@, old(self).string_max_length, *c, r as nat, ga, ca, Err::<bool, RunError<S::Error>>(e)));
                        }
                        return Err(e);
                    },
                };
                let br = self.eval_expr_below(string2, Ghost(b));
                let ghost bg = br;
                let res = match br {
                    Ok(y) => Ok(x.contains_text(&y)),
                    Err(e) => Err(e),
                };
                proof {
                    let (ga, ca, oa) = choose|gs: Seq<&mut S>, cs: Seq<StateCall<V, S::Error>>, out: Result<V, RunError<S::Error>>|
                    ag == out && l1 == l0 + cs && expr_done(*old(self).doc, old(self).procedure_arguments_frames@, old(self).string_max_length, *string1, b, gs, cs, out) && (if gs.len() == 0 { t1 == t0 } else { mut_ref_current(gs[0]) == t0 && mut_ref_future(gs.last()) == t1 && forall|k: int| 0 <= k < gs.len() - 1 ==> mut_ref_future(#[trigger] gs[k]) == mut_ref_current(gs[k + 1]) });
                    let (gb, cb, ob) = choose|gs: Seq<&mut S>, cs: Seq<StateCall<V, S::Error>>, out: Result<V, RunError<S::Error>>|
                    bg == out && self.log@ == l1 + cs && expr_done(*old(self).doc, old(self).procedure_arguments_frames@, old(self).string_max_length, *string2, b, gs, cs, out) && (if gs.len() == 0 { self.state == t1 } else { mut_ref_current(gs[0]) == t1 && mut_ref_future(gs.last()) == self.state && forall|k: int| 0 <= k < gs.len() - 1 ==> mut_ref_future(#[trigger] gs[k]) == mut_ref_current(gs[k + 1]) });
                    lemma_calls_made_concat(ga, ca, gb, cb);
                    lemma_chain_concat(t0, ga, t1, gb, self.state);
                    assert(self.log@ =~= l0 + (ca + cb));
                    assert((ca + cb).take(ca.len() as int) =~= ca);
                    assert((ca + cb).skip(ca.len() as int) =~= cb);
                    assert(cond_kind_done(*old(self).doc, old(self).procedure_arguments_frames@, old(self).string_max_length, *c, r as nat, ga + gb, ca + cb, res));
                }
                res
            },
            _ => {
                proof {
                    assert(false);
                }
                Ok(false)
            },
        }
    }
}

} // verus!
