use vstd::prelude::*;

use crate::calls::{
    block_done, call_made, calls_made, cond_kind_done, expr_done, expr_kind_done, lemma_calls_made_concat,
    lemma_chain_concat, lemma_one_call, lift, StateCall,
};
use crate::error::{InvalidFileError, LimitError, RunError, UnsupportedError};
use crate::frames::lookup_in_frames;
use crate::interpreter::RunningInterpreter;
use crate::program::{block_refs_ok, blocks_wf, BlockKind, ExprKind, Expression};
use crate::semantics::{
    block_value_outcome, evaluated, expr_kind_outcome, expr_outcome, missing_ref, one_value, two_values,
    BinaryStep, UnaryStep,
};
use crate::state::State;
use crate::value::ScratchValue;

verus! {

/// The error for an input that refers to block `r` where no fitting block is.
pub(crate) fn missing_ref_exec<E>(r: usize) -> (res: RunError<E>)
    ensures
        res == missing_ref::<E>(r),
{
    RunError::File(InvalidFileError::NoBlockFoundForReference(r))
}

impl<'a, V: ScratchValue, S: State<V>> RunningInterpreter<'a, V, S> {
    /// Evaluates an input of a statement: the state calls it makes, in order, lead
    /// from the state before to the state after, and the outcome is the one the
    /// program's semantics gives for those calls.
    #[verifier::spinoff_prover]
    #[verifier::rlimit(60)]
    pub(crate) fn eval_expr(&mut self, expression: &Expression<V>) -> (res: Result<V, RunError<S::Error>>)
        ensures
            Self::same_but_state(old(self), final(self)),
            !(res matches Err(RunError::Internal(_))),
            exists|gs: Seq<&mut S>, cs: Seq<StateCall<V, S::Error>>, out: Result<V, RunError<S::Error>>|
                #![trigger expr_done(*old(self).doc, old(self).procedure_arguments_frames@, old(self).string_max_length, *expression, old(self).doc.spec_blocks().len(), gs, cs, out)]
                res == out && final(self).log@ == old(self).log@ + cs && expr_done(*old(self).doc, old(self).procedure_arguments_frames@, old(self).string_max_length, *expression, old(self).doc.spec_blocks().len(), gs, cs, out) && (if gs.len() == 0 { final(self).state == old(self).state } else { mut_ref_current(gs[0]) == old(self).state && mut_ref_future(gs.last()) == final(self).state && forall|k: int| 0 <= k < gs.len() - 1 ==> mut_ref_future(#[trigger] gs[k]) == mut_ref_current(gs[k + 1]) }),
    {
        self.doc.check_wf();
        self.eval_expr_below(expression, Ghost(self.doc.spec_blocks().len()))
    }

    /// Evaluates an input whose block references lie below `bound` or outside the program.
    #[verifier::spinoff_prover]
    #[verifier::rlimit(60)]
    pub(crate) fn eval_expr_below(&mut self, expression: &Expression<V>, Ghost(bound): Ghost<nat>) -> (res: Result<V, RunError<S::Error>>)
        requires
            blocks_wf(old(self).doc.spec_blocks()),
            bound <= old(self).doc.spec_blocks().len(),
            expression matches Expression::Blo(r) ==> (r < bound || r >= old(
                self,
            ).doc.spec_blocks().len()),
        ensures
            Self::same_but_state(old(self), final(self)),
            !(res matches Err(RunError::Internal(_))),
            exists|gs: Seq<&mut S>, cs: Seq<StateCall<V, S::Error>>, out: Result<V, RunError<S::Error>>|
                #![trigger expr_done(*old(self).doc, old(self).procedure_arguments_frames@, old(self).string_max_length, *expression, bound, gs, cs, out)]
                res == out && final(self).log@ == old(self).log@ + cs && expr_done(*old(self).doc, old(self).procedure_arguments_frames@, old(self).string_max_length, *expression, bound, gs, cs, out) && (if gs.len() == 0 { final(self).state == old(self).state } else { mut_ref_current(gs[0]) == old(self).state && mut_ref_future(gs.last()) == final(self).state && forall|k: int| 0 <= k < gs.len() - 1 ==> mut_ref_future(#[trigger] gs[k]) == mut_ref_current(gs[k + 1]) }),
        decreases bound, 2nat,
    {
        proof {
            reveal(evaluated);
        }
        let ghost t0 = self.state;
        let ghost l0 = self.log@;
        match expression {
            Expression::Var(var_id) => {
                let r = self.state.data_read_variable(var_id);
                let ghost rg = r;
                proof {
                    self.log@ = self.log@.push(StateCall::ReadVariable(*var_id, rg));
                }
                let res = match r {
                    Ok(v) => Ok(v),
                    Err(e) => Err(RunError::State(e)),
                };
                proof {
                    let g = choose|g: &mut S| #![trigger call_ensures(S::data_read_variable, (g, &*var_id), rg)] call_ensures(S::data_read_variable, (g, &*var_id), rg) && mut_ref_current(g) == t0 && mut_ref_future(g) == self.state;
                    lemma_one_call(g, StateCall::ReadVariable(*var_id, rg));
                    assert(self.log@ =~= l0 + seq![StateCall::ReadVariable(*var_id, rg)]);
                    assert(expr_done(*old(self).doc, old(self).procedure_arguments_frames@, old(self).string_max_length, *expression, bound, seq![g], seq![StateCall::ReadVariable(*var_id, rg)], res));
                }
                res
            },
            Expression::Lis(lis_id) => {
                let r = self.state.data_read_textual_list_repr(lis_id);
                let ghost rg = r;
                proof {
                    self.log@ = self.log@.push(StateCall::ListText(*lis_id, rg));
                }
                let res = match r {
                    Ok(v) => Ok(v),
                    Err(e) => Err(RunError::State(e)),
                };
                proof {
                    let g = choose|g: &mut S| #![trigger call_ensures(S::data_read_textual_list_repr, (g, &*lis_id), rg)] call_ensures(S::data_read_textual_list_repr, (g, &*lis_id), rg) && mut_ref_current(g) == t0 && mut_ref_future(g) == self.state;
                    lemma_one_call(g, StateCall::ListText(*lis_id, rg));
                    assert(self.log@ =~= l0 + seq![StateCall::ListText(*lis_id, rg)]);
                    assert(expr_done(*old(self).doc, old(self).procedure_arguments_frames@, old(self).string_max_length, *expression, bound, seq![g], seq![StateCall::ListText(*lis_id, rg)], res));
                }
                res
            },
            Expression::Lit(val) => {
                let res = Ok(val.clone());
                proof {
                    assert(expr_done::<V, S>(*old(self).doc, old(self).procedure_arguments_frames@, old(self).string_max_length, *expression, bound, Seq::empty(), Seq::empty(), res));
                }
                res
            },
            Expression::Blo(block_ref) => {
                let r = *block_ref;
                if r >= self.doc.blocks().len() {
                    let res = Err(missing_ref_exec(r));
                    proof {
                        assert(expr_done::<V, S>(*old(self).doc, old(self).procedure_arguments_frames@, old(self).string_max_length, *expression, bound, Seq::empty(), Seq::empty(), res));
                    }
                    res
                } else {
                    let res = self.eval_block_value(r);
                    proof {
                        let (gs, cs, out) = choose|gs: Seq<&mut S>, cs: Seq<StateCall<V, S::Error>>, out: Result<V, RunError<S::Error>>|
                    res == out && self.log@ == l0 + cs && block_done(*old(self).doc, old(self).procedure_arguments_frames@, old(self).string_max_length, r, gs, cs, out) && (if gs.len() == 0 { self.state == t0 } else { mut_ref_current(gs[0]) == t0 && mut_ref_future(gs.last()) == self.state && forall|k: int| 0 <= k < gs.len() - 1 ==> mut_ref_future(#[trigger] gs[k]) == mut_ref_current(gs[k + 1]) });
                        assert(expr_done(*old(self).doc, old(self).procedure_arguments_frames@, old(self).string_max_length, *expression, bound, gs, cs, out));
                    }
                    res
                }
            },
        }
    }

    /// Evaluates block `r` for its value.
    #[verifier::spinoff_prover]
    #[verifier::rlimit(60)]
    fn eval_block_value(&mut self, r: usize) -> (res: Result<V, RunError<S::Error>>)
        requires
            blocks_wf(old(self).doc.spec_blocks()),
            r < old(self).doc.spec_blocks().len(),
        ensures
            Self::same_but_state(old(self), final(self)),
            !(res matches Err(RunError::Internal(_))),
            exists|gs: Seq<&mut S>, cs: Seq<StateCall<V, S::Error>>, out: Result<V, RunError<S::Error>>|
                #![trigger block_done(*old(self).doc, old(self).procedure_arguments_frames@, old(self).string_max_length, r, gs, cs, out)]
                res == out && final(self).log@ == old(self).log@ + cs && block_done(*old(self).doc, old(self).procedure_arguments_frames@, old(self).string_max_length, r, gs, cs, out) && (if gs.len() == 0 { final(self).state == old(self).state } else { mut_ref_current(gs[0]) == old(self).state && mut_ref_future(gs.last()) == final(self).state && forall|k: int| 0 <= k < gs.len() - 1 ==> mut_ref_future(#[trigger] gs[k]) == mut_ref_current(gs[k + 1]) }),
        decreases r + 1, 1nat,
    {
        let ghost t0 = self.state;
        let ghost l0 = self.log@;
        let doc = self.doc;
        let block = &doc.blocks()[r];
        match &block.kind {
            BlockKind::Cond(c) => {
                assert(block_refs_ok(doc.spec_blocks()[r as int].kind, r as int, doc.spec_blocks().len() as int));
                let rc = self.eval_cond_kind(c, r);
                let ghost rcg = rc;
                let res = match rc {
                    Ok(b) => Ok(V::from_bool(b)),
                    Err(e) => Err(e),
                };
                proof {
                    let (gs, cs, out) = choose|gs: Seq<&mut S>, cs: Seq<StateCall<V, S::Error>>, out: Result<bool, RunError<S::Error>>|
                    rcg == out && self.log@ == l0 + cs && cond_kind_done(*old(self).doc, old(self).procedure_arguments_frames@, old(self).string_max_length, *c, r as nat, gs, cs, out) && (if gs.len() == 0 { self.state == t0 } else { mut_ref_current(gs[0]) == t0 && mut_ref_future(gs.last()) == self.state && forall|k: int| 0 <= k < gs.len() - 1 ==> mut_ref_future(#[trigger] gs[k]) == mut_ref_current(gs[k + 1]) });
                    assert(block_done(*old(self).doc, old(self).procedure_arguments_frames@, old(self).string_max_length, r, gs, cs, res));
                }
                res
            },
            BlockKind::Expr(k) => {
                assert(block_refs_ok(doc.spec_blocks()[r as int].kind, r as int, doc.spec_blocks().len() as int));
                let res = self.eval_expr_kind(k, r);
                proof {
                    let (gs, cs, out) = choose|gs: Seq<&mut S>, cs: Seq<StateCall<V, S::Error>>, out: Result<V, RunError<S::Error>>|
                    res == out && self.log@ == l0 + cs && expr_kind_done(*old(self).doc, old(self).procedure_arguments_frames@, old(self).string_max_length, *k, r as nat, gs, cs, out) && (if gs.len() == 0 { self.state == t0 } else { mut_ref_current(gs[0]) == t0 && mut_ref_future(gs.last()) == self.state && forall|k: int| 0 <= k < gs.len() - 1 ==> mut_ref_future(#[trigger] gs[k]) == mut_ref_current(gs[k + 1]) });
                    assert(block_done(*old(self).doc, old(self).procedure_arguments_frames@, old(self).string_max_length, r, gs, cs, res));
                }
                res
            },
            _ => {
                let res = Err(missing_ref_exec(r));
                proof {
                    assert(block_done::<V, S>(*old(self).doc, old(self).procedure_arguments_frames@, old(self).string_max_length, r, Seq::empty(), Seq::empty(), res));
                }
                res
            },
        }
    }

    /// Evaluates input `a` (below `r`) and takes step `op` on its value.
    #[verifier::spinoff_prover]
    #[verifier::rlimit(60)]
    fn eval_unary(&mut self, a: &Expression<V>, r: usize, op: UnaryStep) -> (res: Result<V, RunError<S::Error>>)
        requires
            blocks_wf(old(self).doc.spec_blocks()),
            r < old(self).doc.spec_blocks().len(),
            a matches Expression::Blo(x) ==> (x < r || x >= old(self).doc.spec_blocks().len()),
        ensures
            Self::same_but_state(old(self), final(self)),
            !(res matches Err(RunError::Internal(_))),
            exists|gs: Seq<&mut S>, cs: Seq<StateCall<V, S::Error>>, out: Result<V, RunError<S::Error>>|
                #![trigger calls_made(gs, cs), one_value(*old(self).doc, old(self).procedure_arguments_frames@, old(self).string_max_length, *a, r as nat, cs, out, op)]
                res == out && final(self).log@ == old(self).log@ + cs && calls_made(gs, cs) && one_value(*old(self).doc, old(self).procedure_arguments_frames@, old(self).string_max_length, *a, r as nat, cs, out, op) && (if gs.len() == 0 { final(self).state == old(self).state } else { mut_ref_current(gs[0]) == old(self).state && mut_ref_future(gs.last()) == final(self).state && forall|k: int| 0 <= k < gs.len() - 1 ==> mut_ref_future(#[trigger] gs[k]) == mut_ref_current(gs[k + 1]) }),
        decreases r, 3nat,
    {
        let ghost t0 = self.state;
        let ghost l0 = self.log@;
        let ghost b = r as nat;
        let xr = self.eval_expr_below(a, Ghost(b));
        let ghost xg = xr;
        let ghost t1 = self.state;
        let ghost l1 = self.log@;
        let x = match xr {
            Ok(x) => x,
            Err(e) => {
                proof {
                    let (ga, ca, oa) = choose|gs: Seq<&mut S>, cs: Seq<StateCall<V, S::Error>>, out: Result<V, RunError<S::Error>>|
                    xg == out && l1 == l0 + cs && expr_done(*old(self).doc, old(self).procedure_arguments_frames@, old(self).string_max_length, *a, b, gs, cs, out) && (if gs.len() == 0 { t1 == t0 } else { mut_ref_current(gs[0]) == t0 && mut_ref_future(gs.last()) == t1 && forall|k: int| 0 <= k < gs.len() - 1 ==> mut_ref_future(#[trigger] gs[k]) == mut_ref_current(gs[k + 1]) });
                    assert(ca.take(ca.len() as int) =~= ca);
                    assert(one_value(*old(self).doc, old(self).procedure_arguments_frames@, old(self).string_max_length, *a, r as nat, ca, Err::<V, RunError<S::Error>>(e), op));
                }
                return Err(e);
            },
        };
        match op {
            UnaryStep::ItemOfList(list) => {
                let r2 = self.state.data_item_of_list(&list, &x);
                let ghost r2g = r2;
                proof {
                    self.log@ = self.log@.push(StateCall::ItemOfList(list, x, r2g));
                }
                let res = match r2 {
                    Ok(v) => Ok(v),
                    Err(e) => Err(RunError::State(e)),
                };
                proof {
                    let (ga, ca, oa) = choose|gs: Seq<&mut S>, cs: Seq<StateCall<V, S::Error>>, out: Result<V, RunError<S::Error>>|
                    xg == out && l1 == l0 + cs && expr_done(*old(self).doc, old(self).procedure_arguments_frames@, old(self).string_max_length, *a, b, gs, cs, out) && (if gs.len() == 0 { t1 == t0 } else { mut_ref_current(gs[0]) == t0 && mut_ref_future(gs.last()) == t1 && forall|k: int| 0 <= k < gs.len() - 1 ==> mut_ref_future(#[trigger] gs[k]) == mut_ref_current(gs[k + 1]) });
                    let g = choose|g: &mut S| #![trigger call_ensures(S::data_item_of_list, (g, &list, &x), r2g)] call_ensures(S::data_item_of_list, (g, &list, &x), r2g) && mut_ref_current(g) == t1 && mut_ref_future(g) == self.state;
                    lemma_one_call(g, StateCall::ItemOfList(list, x, r2g));
                    let c = StateCall::ItemOfList(list, x, r2g);
                    lemma_calls_made_concat(ga, ca, seq![g], seq![c]);
                    lemma_chain_concat(t0, ga, t1, seq![g], self.state);
                    assert(self.log@ =~= l0 + (ca + seq![c]));
                    assert((ca + seq![c]).take(ca.len() as int) =~= ca);
                    assert((ca + seq![c]).skip(ca.len() as int) =~= seq![c]);
                    assert(one_value(*old(self).doc, old(self).procedure_arguments_frames@, old(self).string_max_length, *a, r as nat, ca + seq![c], res, op));
                }
                res
            },
            UnaryStep::ItemNumOfList(list) => {
                let r2 = self.state.data_item_num_of_list(&list, &x);
                let ghost r2g = r2;
                proof {
                    self.log@ = self.log@.push(StateCall::ItemNumOfList(list, x, r2g));
                }
                let res = match r2 {
                    Ok(n) => Ok(V::from_int(n)),
                    Err(e) => Err(RunError::State(e)),
                };
                proof {
                    let (ga, ca, oa) = choose|gs: Seq<&mut S>, cs: Seq<StateCall<V, S::Error>>, out: Result<V, RunError<S::Error>>|
                    xg == out && l1 == l0 + cs && expr_done(*old(self).doc, old(self).procedure_arguments_frames@, old(self).string_max_length, *a, b, gs, cs, out) && (if gs.len() == 0 { t1 == t0 } else { mut_ref_current(gs[0]) == t0 && mut_ref_future(gs.last()) == t1 && forall|k: int| 0 <= k < gs.len() - 1 ==> mut_ref_future(#[trigger] gs[k]) == mut_ref_current(gs[k + 1]) });
                    let g = choose|g: &mut S| #![trigger call_ensures(S::data_item_num_of_list, (g, &list, &x), r2g)] call_ensures(S::data_item_num_of_list, (g, &list, &x), r2g) && mut_ref_current(g) == t1 && mut_ref_future(g) == self.state;
                    lemma_one_call(g, StateCall::ItemNumOfList(list, x, r2g));
                    let c = StateCall::ItemNumOfList(list, x, r2g);
                    lemma_calls_made_concat(ga, ca, seq![g], seq![c]);
                    lemma_chain_concat(t0, ga, t1, seq![g], self.state);
                    assert(self.log@ =~= l0 + (ca + seq![c]));
                    assert((ca + seq![c]).take(ca.len() as int) =~= ca);
                    assert((ca + seq![c]).skip(ca.len() as int) =~= seq![c]);
                    assert(one_value(*old(self).doc, old(self).procedure_arguments_frames@, old(self).string_max_length, *a, r as nat, ca + seq![c], res, op));
                }
                res
            },
            _ => {
                let res = match op {
                    UnaryStep::Mathop(o) => Ok(x.math_op(o)),
                    UnaryStep::Round => Ok(x.round()),
                    _ => {
                        let len = x.textual_length();
                        Ok(V::from_int(len as i64))
                    },
                };
                proof {
                    let (ga, ca, oa) = choose|gs: Seq<&mut S>, cs: Seq<StateCall<V, S::Error>>, out: Result<V, RunError<S::Error>>|
                    xg == out && l1 == l0 + cs && expr_done(*old(self).doc, old(self).procedure_arguments_frames@, old(self).string_max_length, *a, b, gs, cs, out) && (if gs.len() == 0 { t1 == t0 } else { mut_ref_current(gs[0]) == t0 && mut_ref_future(gs.last()) == t1 && forall|k: int| 0 <= k < gs.len() - 1 ==> mut_ref_future(#[trigger] gs[k]) == mut_ref_current(gs[k + 1]) });
                    assert(ca.take(ca.len() as int) =~= ca);
                    assert(ca.skip(ca.len() as int) =~= Seq::<StateCall<V, S::Error>>::empty());
                    assert(one_value(*old(self).doc, old(self).procedure_arguments_frames@, old(self).string_max_length, *a, r as nat, ca, res, op));
                }
                res
            },
        }
    }

    /// Evaluates inputs `a` then `c` (below `r`) and takes step `op` on their values.
    #[verifier::spinoff_prover]
    #[verifier::rlimit(60)]
    fn eval_binary(&mut self, a: &Expression<V>, c: &Expression<V>, r: usize, op: BinaryStep) -> (res: Result<V, RunError<S::Error>>)
        requires
            blocks_wf(old(self).doc.spec_blocks()),
            r < old(self).doc.spec_blocks().len(),
            a matches Expression::Blo(x) ==> (x < r || x >= old(self).doc.spec_blocks().len()),
            c matches Expression::Blo(x) ==> (x < r || x >= old(self).doc.spec_blocks().len()),
        ensures
            Self::same_but_state(old(self), final(self)),
            !(res matches Err(RunError::Internal(_))),
            exists|gs: Seq<&mut S>, cs: Seq<StateCall<V, S::Error>>, out: Result<V, RunError<S::Error>>|
                #![trigger calls_made(gs, cs), two_values(*old(self).doc, old(self).procedure_arguments_frames@, old(self).string_max_length, *a, *c, r as nat, cs, out, op)]
                res == out && final(self).log@ == old(self).log@ + cs && calls_made(gs, cs) && two_values(*old(self).doc, old(self).procedure_arguments_frames@, old(self).string_max_length, *a, *c, r as nat, cs, out, op) && (if gs.len() == 0 { final(self).state == old(self).state } else { mut_ref_current(gs[0]) == old(self).state && mut_ref_future(gs.last()) == final(self).state && forall|k: int| 0 <= k < gs.len() - 1 ==> mut_ref_future(#[trigger] gs[k]) == mut_ref_current(gs[k + 1]) }),
        decreases r, 3nat,
    {
        let ghost t0 = self.state;
        let ghost l0 = self.log@;
        let ghost b = r as nat;
        let xr = self.eval_expr_below(a, Ghost(b));
        let ghost xg = xr;
        let ghost t1 = self.state;
        let ghost l1 = self.log@;
        let x = match xr {
            Ok(x) => x,
            Err(e) => {
                proof {
                    let (ga, ca, oa) = choose|gs: Seq<&mut S>, cs: Seq<StateCall<V, S::Error>>, out: Result<V, RunError<S::Error>>|
                    xg == out && l1 == l0 + cs && expr_done(*old(self).doc, old(self).procedure_arguments_frames@, old(self).string_max_length, *a, b, gs, cs, out) && (if gs.len() == 0 { t1 == t0 } else { mut_ref_current(gs[0]) == t0 && mut_ref_future(gs.last()) == t1 && forall|k: int| 0 <= k < gs.len() - 1 ==> mut_ref_future(#[trigger] gs[k]) == mut_ref_current(gs[k + 1]) });
                    assert(ca.take(ca.len() as int) =~= ca);
                    assert(two_values(*old(self).doc, old(self).procedure_arguments_frames@, old(self).string_max_length, *a, *c, r as nat, ca, Err::<V, RunError<S::Error>>(e), op));
                }
                return Err(e);
            },
        };
        let yr = self.eval_expr_below(c, Ghost(b));
        let ghost yg = yr;
        let ghost t2 = self.state;
        let ghost l2 = self.log@;
        let y = match yr {
            Ok(y) => y,
            Err(e) => {
                proof {
                    let (ga, ca, oa) = choose|gs: Seq<&mut S>, cs: Seq<StateCall<V, S::Error>>, out: Result<V, RunError<S::Error>>|
                    xg == out && l1 == l0 + cs && expr_done(*old(self).doc, old(self).procedure_arguments_frames@, old(self).string_max_length, *a, b, gs, cs, out) && (if gs.len() == 0 { t1 == t0 } else { mut_ref_current(gs[0]) == t0 && mut_ref_future(gs.last()) == t1 && forall|k: int| 0 <= k < gs.len() - 1 ==> mut_ref_future(#[trigger] gs[k]) == mut_ref_current(gs[k + 1]) });
                    let (gb, cb, ob) = choose|gs: Seq<&mut S>, cs: Seq<StateCall<V, S::Error>>, out: Result<V, RunError<S::Error>>|
                    yg == out && l2 == l1 + cs && expr_done(*old(self).doc, old(self).procedure_arguments_frames@, old(self).string_max_length, *c, b, gs, cs, out) && (if gs.len() == 0 { t2 == t1 } else { mut_ref_current(gs[0]) == t1 && mut_ref_future(gs.last()) == t2 && forall|k: int| 0 <= k < gs.len() - 1 ==> mut_ref_future(#[trigger] gs[k]) == mut_ref_current(gs[k + 1]) });
                    lemma_calls_made_concat(ga, ca, gb, cb);
                    lemma_chain_concat(t0, ga, t1, gb, self.state);
                    assert(self.log@ =~= l0 + (ca + cb));
                    assert((ca + cb).take(ca.len() as int) =~= ca);
                    assert((ca + cb).subrange(ca.len() as int, (ca.len() + cb.len()) as int) =~= cb);
                    assert(two_values(*old(self).doc, old(self).procedure_arguments_frames@, old(self).string_max_length, *a, *c, r as nat, ca + cb, Err::<V, RunError<S::Error>>(e), op));
                }
                return Err(e);
            },
        };
        match op {
            BinaryStep::Random => {
                let nx = x.as_number();
                let ny = y.as_number();
                let ghost nxg = nx;
                let ghost nyg = ny;
                let r3 = self.state.request_random(nx, ny);
                let ghost r3g = r3;
                proof {
                    self.log@ = self.log@.push(StateCall::Random(nxg, nyg, r3g));
                }
                let res = match r3 {
                    Ok(n) => Ok(V::from_number(n)),
                    Err(e) => Err(RunError::State(e)),
                };
                proof {
                    let (ga, ca, oa) = choose|gs: Seq<&mut S>, cs: Seq<StateCall<V, S::Error>>, out: Result<V, RunError<S::Error>>|
                    xg == out && l1 == l0 + cs && expr_done(*old(self).doc, old(self).procedure_arguments_frames@, old(self).string_max_length, *a, b, gs, cs, out) && (if gs.len() == 0 { t1 == t0 } else { mut_ref_current(gs[0]) == t0 && mut_ref_future(gs.last()) == t1 && forall|k: int| 0 <= k < gs.len() - 1 ==> mut_ref_future(#[trigger] gs[k]) == mut_ref_current(gs[k + 1]) });
                    let (gb, cb, ob) = choose|gs: Seq<&mut S>, cs: Seq<StateCall<V, S::Error>>, out: Result<V, RunError<S::Error>>|
                    yg == out && l2 == l1 + cs && expr_done(*old(self).doc, old(self).procedure_arguments_frames@, old(self).string_max_length, *c, b, gs, cs, out) && (if gs.len() == 0 { t2 == t1 } else { mut_ref_current(gs[0]) == t1 && mut_ref_future(gs.last()) == t2 && forall|k: int| 0 <= k < gs.len() - 1 ==> mut_ref_future(#[trigger] gs[k]) == mut_ref_current(gs[k + 1]) });
                    let g = choose|g: &mut S| #![trigger call_ensures(S::request_random, (g, nxg, nyg), r3g)] call_ensures(S::request_random, (g, nxg, nyg), r3g) && mut_ref_current(g) == t2 && mut_ref_future(g) == self.state;
                    lemma_one_call(g, StateCall::Random(nxg, nyg, r3g));
                    let cc = StateCall::Random(nxg, nyg, r3g);
                    lemma_calls_made_concat(ga, ca, gb, cb);
                    lemma_chain_concat(t0, ga, t1, gb, t2);
                    lemma_calls_made_concat(ga + gb, ca + cb, seq![g], seq![cc]);
                    lemma_chain_concat(t0, ga + gb, t2, seq![g], self.state);
                    let all = ca + cb + seq![cc];
                    assert(self.log@ =~= l0 + all);
                    assert(all.take(ca.len() as int) =~= ca);
                    assert(all.subrange(ca.len() as int, (ca.len() + cb.len()) as int) =~= cb);
                    assert(all.skip((ca.len() + cb.len()) as int) =~= seq![cc]);
                    assert(two_values(*old(self).doc, old(self).procedure_arguments_frames@, old(self).string_max_length, *a, *c, r as nat, all, res, op));
                }
                res
            },
            _ => {
                let res = match op {
                    BinaryStep::Add => Ok(x.add_numbers(&y)),
                    BinaryStep::Multiply => Ok(x.mul_numbers(&y)),
                    BinaryStep::Subtract => Ok(x.sub_numbers(&y)),
                    BinaryStep::Divide => Ok(x.div_numbers(&y)),
                    BinaryStep::Mod => Ok(x.modulo(&y)),
                    BinaryStep::Join => match x.concat(&y, self.string_max_length) {
                        Some(v) => Ok(v),
                        None => Err(RunError::Limit(LimitError::StringExceededLengthLimit(self.string_max_length))),
                    },
                    _ => Ok(y.nth_letter(&x)),
                };
                proof {
                    let (ga, ca, oa) = choose|gs: Seq<&mut S>, cs: Seq<StateCall<V, S::Error>>, out: Result<V, RunError<S::Error>>|
                    xg == out && l1 == l0 + cs && expr_done(*old(self).doc, old(self).procedure_arguments_frames@, old(self).string_max_length, *a, b, gs, cs, out) && (if gs.len() == 0 { t1 == t0 } else { mut_ref_current(gs[0]) == t0 && mut_ref_future(gs.last()) == t1 && forall|k: int| 0 <= k < gs.len() - 1 ==> mut_ref_future(#[trigger] gs[k]) == mut_ref_current(gs[k + 1]) });
                    let (gb, cb, ob) = choose|gs: Seq<&mut S>, cs: Seq<StateCall<V, S::Error>>, out: Result<V, RunError<S::Error>>|
                    yg == out && l2 == l1 + cs && expr_done(*old(self).doc, old(self).procedure_arguments_frames@, old(self).string_max_length, *c, b, gs, cs, out) && (if gs.len() == 0 { t2 == t1 } else { mut_ref_current(gs[0]) == t1 && mut_ref_future(gs.last()) == t2 && forall|k: int| 0 <= k < gs.len() - 1 ==> mut_ref_future(#[trigger] gs[k]) == mut_ref_current(gs[k + 1]) });
                    lemma_calls_made_concat(ga, ca, gb, cb);
                    lemma_chain_concat(t0, ga, t1, gb, self.state);
                    assert(self.log@ =~= l0 + (ca + cb));
                    let all = ca + cb;
                    assert(self.log@ =~= l0 + all);
                    assert(all.take(ca.len() as int) =~= ca);
                    assert(all.subrange(ca.len() as int, (ca.len() + cb.len()) as int) =~= cb);
                    assert(all.skip((ca.len() + cb.len()) as int) =~= Seq::<StateCall<V, S::Error>>::empty());
                    assert(two_values(*old(self).doc, old(self).procedure_arguments_frames@, old(self).string_max_length, *a, *c, r as nat, all, res, op));
                }
                res
            },
        }
    }

    /// Evaluates an expression block of kind `k` at index `r`.
    #[verifier::spinoff_prover]
    #[verifier::rlimit(60)]
    fn eval_expr_kind(&mut self, k: &ExprKind<V>, r: usize) -> (res: Result<V, RunError<S::Error>>)
        requires
            blocks_wf(old(self).doc.spec_blocks()),
            r < old(self).doc.spec_blocks().len(),
            block_refs_ok(BlockKind::Expr(*k), r as int, old(self).doc.spec_blocks().len() as int),
        ensures
            Self::same_but_state(old(self), final(self)),
            !(res matches Err(RunError::Internal(_))),
            exists|gs: Seq<&mut S>, cs: Seq<StateCall<V, S::Error>>, out: Result<V, RunError<S::Error>>|
                #![trigger expr_kind_done(*old(self).doc, old(self).procedure_arguments_frames@, old(self).string_max_length, *k, r as nat, gs, cs, out)]
                res == out && final(self).log@ == old(self).log@ + cs && expr_kind_done(*old(self).doc, old(self).procedure_arguments_frames@, old(self).string_max_length, *k, r as nat, gs, cs, out) && (if gs.len() == 0 { final(self).state == old(self).state } else { mut_ref_current(gs[0]) == old(self).state && mut_ref_future(gs.last()) == final(self).state && forall|k: int| 0 <= k < gs.len() - 1 ==> mut_ref_future(#[trigger] gs[k]) == mut_ref_current(gs[k + 1]) }),
        decreases r + 1, 0nat,
    {
        let ghost t0 = self.state;
        let ghost l0 = self.log@;
        match k {
            ExprKind::UnsupportedLooks => {
                let res = Err(RunError::Unsupported(UnsupportedError::UnsupportedLooksBlock));
                proof { assert(expr_kind_done::<V, S>(*old(self).doc, old(self).procedure_arguments_frames@, old(self).string_max_length, *k, r as nat, Seq::empty(), Seq::empty(), res)); }
                res
            },
            ExprKind::UnsupportedMotion => {
                let res = Err(RunError::Unsupported(UnsupportedError::UnsupportedMotionBlock));
                proof { assert(expr_kind_done::<V, S>(*old(self).doc, old(self).procedure_arguments_frames@, old(self).string_max_length, *k, r as nat, Seq::empty(), Seq::empty(), res)); }
                res
            },
            ExprKind::UnsupportedSensing => {
                let res = Err(RunError::Unsupported(UnsupportedError::UnsupportedSensingBlock));
                proof { assert(expr_kind_done::<V, S>(*old(self).doc, old(self).procedure_arguments_frames@, old(self).string_max_length, *k, r as nat, Seq::empty(), Seq::empty(), res)); }
                res
            },
            ExprKind::ArgumentReporterStringNumber { value } => {
                let res = match lookup_in_frames(&self.procedure_arguments_frames, value) {
                    Some(binding) => match &binding.1 {
                        Some(v) => Ok(v.clone()),
                        None => Ok(V::empty_text()),
                    },
                    None => Ok(V::empty_text()),
                };
                proof { assert(expr_kind_done::<V, S>(*old(self).doc, old(self).procedure_arguments_frames@, old(self).string_max_length, *k, r as nat, Seq::empty(), Seq::empty(), res)); }
                res
            },
            ExprKind::DataLengthOfList { list } => {
                let r2 = self.state.data_length_of_list(list);
                let ghost r2g = r2;
                proof {
                    self.log@ = self.log@.push(StateCall::LengthOfList(*list, r2g));
                }
                let res = match r2 {
                    Ok(n) => Ok(V::from_int(n)),
                    Err(e) => Err(RunError::State(e)),
                };
                proof {
                    let g = choose|g: &mut S| #![trigger call_ensures(S::data_length_of_list, (g, &*list), r2g)] call_ensures(S::data_length_of_list, (g, &*list), r2g) && mut_ref_current(g) == t0 && mut_ref_future(g) == self.state;
                    lemma_one_call(g, StateCall::LengthOfList(*list, r2g));
                    assert(self.log@ =~= l0 + seq![StateCall::LengthOfList(*list, r2g)]);
                    assert(expr_kind_done(*old(self).doc, old(self).procedure_arguments_frames@, old(self).string_max_length, *k, r as nat, seq![g], seq![StateCall::LengthOfList(*list, r2g)], res));
                }
                res
            },
            ExprKind::SensingAnswer => {
                let r2 = self.state.last_answer();
                let ghost r2g = r2;
                proof {
                    self.log@ = self.log@.push(StateCall::<V, S::Error>::Answer(r2g));
                }
                let res = match r2 {
                    Ok(s) => Ok(V::from_text(s)),
                    Err(e) => Err(RunError::State(e)),
                };
                proof {
                    let g = choose|g: &mut S| #![trigger call_ensures(S::last_answer, (g,), r2g)] call_ensures(S::last_answer, (g,), r2g) && mut_ref_current(g) == t0 && mut_ref_future(g) == self.state;
                    lemma_one_call(g, StateCall::Answer(r2g));
                    assert(self.log@ =~= l0 + seq![StateCall::Answer(r2g)]);
                    assert(expr_kind_done(*old(self).doc, old(self).procedure_arguments_frames@, old(self).string_max_length, *k, r as nat, seq![g], seq![StateCall::<V, S::Error>::Answer(r2g)], res));
                }
                res
            },
            ExprKind::DataItemOfList { list, index } => {
                let res = self.eval_unary(index, r, UnaryStep::ItemOfList(*list));
                proof {
                    let (gs, cs, out) = choose|gs: Seq<&mut S>, cs: Seq<StateCall<V, S::Error>>, out: Result<V, RunError<S::Error>>|
                    res == out && self.log@ == l0 + cs && calls_made(gs, cs) && one_value(*old(self).doc, old(self).procedure_arguments_frames@, old(self).string_max_length, *index, r as nat, cs, out, UnaryStep::ItemOfList(*list)) && (if gs.len() == 0 { self.state == t0 } else { mut_ref_current(gs[0]) == t0 && mut_ref_future(gs.last()) == self.state && forall|k: int| 0 <= k < gs.len() - 1 ==> mut_ref_future(#[trigger] gs[k]) == mut_ref_current(gs[k + 1]) });
                    assert(expr_kind_done(*old(self).doc, old(self).procedure_arguments_frames@, old(self).string_max_length, *k, r as nat, gs, cs, res));
                }
                res
            },
            ExprKind::DataItemNumOfList { list, item } => {
                let res = self.eval_unary(item, r, UnaryStep::ItemNumOfList(*list));
                proof {
                    let (gs, cs, out) = choose|gs: Seq<&mut S>, cs: Seq<StateCall<V, S::Error>>, out: Result<V, RunError<S::Error>>|
                    res == out && self.log@ == l0 + cs && calls_made(gs, cs) && one_value(*old(self).doc, old(self).procedure_arguments_frames@, old(self).string_max_length, *item, r as nat, cs, out, UnaryStep::ItemNumOfList(*list)) && (if gs.len() == 0 { self.state == t0 } else { mut_ref_current(gs[0]) == t0 && mut_ref_future(gs.last()) == self.state && forall|k: int| 0 <= k < gs.len() - 1 ==> mut_ref_future(#[trigger] gs[k]) == mut_ref_current(gs[k + 1]) });
                    assert(expr_kind_done(*old(self).doc, old(self).procedure_arguments_frames@, old(self).string_max_length, *k, r as nat, gs, cs, res));
                }
                res
            },
            ExprKind::OperatorMathop { operator, num } => {
                let res = self.eval_unary(num, r, UnaryStep::Mathop(*operator));
                proof {
                    let (gs, cs, out) = choose|gs: Seq<&mut S>, cs: Seq<StateCall<V, S::Error>>, out: Result<V, RunError<S::Error>>|
                    res == out && self.log@ == l0 + cs && calls_made(gs, cs) && one_value(*old(self).doc, old(self).procedure_arguments_frames@, old(self).string_max_length, *num, r as nat, cs, out, UnaryStep::Mathop(*operator)) && (if gs.len() == 0 { self.state == t0 } else { mut_ref_current(gs[0]) == t0 && mut_ref_future(gs.last()) == self.state && forall|k: int| 0 <= k < gs.len() - 1 ==> mut_ref_future(#[trigger] gs[k]) == mut_ref_current(gs[k + 1]) });
                    assert(expr_kind_done(*old(self).doc, old(self).procedure_arguments_frames@, old(self).string_max_length, *k, r as nat, gs, cs, res));
                }
                res
            },
            ExprKind::OperatorRound { num } => {
                let res = self.eval_unary(num, r, UnaryStep::Round);
                proof {
                    let (gs, cs, out) = choose|gs: Seq<&mut S>, cs: Seq<StateCall<V, S::Error>>, out: Result<V, RunError<S::Error>>|
                    res == out && self.log@ == l0 + cs && calls_made(gs, cs) && one_value(*old(self).doc, old(self).procedure_arguments_frames@, old(self).string_max_length, *num, r as nat, cs, out, UnaryStep::Round) && (if gs.len() == 0 { self.state == t0 } else { mut_ref_current(gs[0]) == t0 && mut_ref_future(gs.last()) == self.state && forall|k: int| 0 <= k < gs.len() - 1 ==> mut_ref_future(#[trigger] gs[k]) == mut_ref_current(gs[k + 1]) });
                    assert(expr_kind_done(*old(self).doc, old(self).procedure_arguments_frames@, old(self).string_max_length, *k, r as nat, gs, cs, res));
                }
                res
            },
            ExprKind::OperatorLength { string } => {
                let res = self.eval_unary(string, r, UnaryStep::Length);
                proof {
                    let (gs, cs, out) = choose|gs: Seq<&mut S>, cs: Seq<StateCall<V, S::Error>>, out: Result<V, RunError<S::Error>>|
                    res == out && self.log@ == l0 + cs && calls_made(gs, cs) && one_value(*old(self).doc, old(self).procedure_arguments_frames@, old(self).string_max_length, *string, r as nat, cs, out, UnaryStep::Length) && (if gs.len() == 0 { self.state == t0 } else { mut_ref_current(gs[0]) == t0 && mut_ref_future(gs.last()) == self.state && forall|k: int| 0 <= k < gs.len() - 1 ==> mut_ref_future(#[trigger] gs[k]) == mut_ref_current(gs[k + 1]) });
                    assert(expr_kind_done(*old(self).doc, old(self).procedure_arguments_frames@, old(self).string_max_length, *k, r as nat, gs, cs, res));
                }
                res
            },
            ExprKind::OperatorAdd { num1, num2 } => {
                let res = self.eval_binary(num1, num2, r, BinaryStep::Add);
                proof {
                    let (gs, cs, out) = choose|gs: Seq<&mut S>, cs: Seq<StateCall<V, S::Error>>, out: Result<V, RunError<S::Error>>|
                    res == out && self.log@ == l0 + cs && calls_made(gs, cs) && two_values(*old(self).doc, old(self).procedure_arguments_frames@, old(self).string_max_length, *num1, *num2, r as nat, cs, out, BinaryStep::Add) && (if gs.len() == 0 { self.state == t0 } else { mut_ref_current(gs[0]) == t0 && mut_ref_future(gs.last()) == self.state && forall|k: int| 0 <= k < gs.len() - 1 ==> mut_ref_future(#[trigger] gs[k]) == mut_ref_current(gs[k + 1]) });
                    assert(expr_kind_done(*old(self).doc, old(self).procedure_arguments_frames@, old(self).string_max_length, *k, r as nat, gs, cs, res));
                }
                res
            },
            ExprKind::OperatorMultiply { num1, num2 } => {
                let res = self.eval_binary(num1, num2, r, BinaryStep::Multiply);
                proof {
                    let (gs, cs, out) = choose|gs: Seq<&mut S>, cs: Seq<StateCall<V, S::Error>>, out: Result<V, RunError<S::Error>>|
                    res == out && self.log@ == l0 + cs && calls_made(gs, cs) && two_values(*old(self).doc, old(self).procedure_arguments_frames@, old(self).string_max_length, *num1, *num2, r as nat, cs, out, BinaryStep::Multiply) && (if gs.len() == 0 { self.state == t0 } else { mut_ref_current(gs[0]) == t0 && mut_ref_future(gs.last()) == self.state && forall|k: int| 0 <= k < gs.len() - 1 ==> mut_ref_future(#[trigger] gs[k]) == mut_ref_current(gs[k + 1]) });
                    assert(expr_kind_done(*old(self).doc, old(self).procedure_arguments_frames@, old(self).string_max_length, *k, r as nat, gs, cs, res));
                }
                res
            },
            ExprKind::OperatorSubtract { num1, num2 } => {
                let res = self.eval_binary(num1, num2, r, BinaryStep::Subtract);
                proof {
                    let (gs, cs, out) = choose|gs: Seq<&mut S>, cs: Seq<StateCall<V, S::Error>>, out: Result<V, RunError<S::Error>>|
                    res == out && self.log@ == l0 + cs && calls_made(gs, cs) && two_values(*old(self).doc, old(self).procedure_arguments_frames@, old(self).string_max_length, *num1, *num2, r as nat, cs, out, BinaryStep::Subtract) && (if gs.len() == 0 { self.state == t0 } else { mut_ref_current(gs[0]) == t0 && mut_ref_future(gs.last()) == self.state && forall|k: int| 0 <= k < gs.len() - 1 ==> mut_ref_future(#[trigger] gs[k]) == mut_ref_current(gs[k + 1]) });
                    assert(expr_kind_done(*old(self).doc, old(self).procedure_arguments_frames@, old(self).string_max_length, *k, r as nat, gs, cs, res));
                }
                res
            },
            ExprKind::OperatorDivide { num1, num2 } => {
                let res = self.eval_binary(num1, num2, r, BinaryStep::Divide);
                proof {
                    let (gs, cs, out) = choose|gs: Seq<&mut S>, cs: Seq<StateCall<V, S::Error>>, out: Result<V, RunError<S::Error>>|
                    res == out && self.log@ == l0 + cs && calls_made(gs, cs) && two_values(*old(self).doc, old(self).procedure_arguments_frames@, old(self).string_max_length, *num1, *num2, r as nat, cs, out, BinaryStep::Divide) && (if gs.len() == 0 { self.state == t0 } else { mut_ref_current(gs[0]) == t0 && mut_ref_future(gs.last()) == self.state && forall|k: int| 0 <= k < gs.len() - 1 ==> mut_ref_future(#[trigger] gs[k]) == mut_ref_current(gs[k + 1]) });
                    assert(expr_kind_done(*old(self).doc, old(self).procedure_arguments_frames@, old(self).string_max_length, *k, r as nat, gs, cs, res));
                }
                res
            },
            ExprKind::OperatorMod { num1, num2 } => {
                let res = self.eval_binary(num1, num2, r, BinaryStep::Mod);
                proof {
                    let (gs, cs, out) = choose|gs: Seq<&mut S>, cs: Seq<StateCall<V, S::Error>>, out: Result<V, RunError<S::Error>>|
                    res == out && self.log@ == l0 + cs && calls_made(gs, cs) && two_values(*old(self).doc, old(self).procedure_arguments_frames@, old(self).string_max_length, *num1, *num2, r as nat, cs, out, BinaryStep::Mod) && (if gs.len() == 0 { self.state == t0 } else { mut_ref_current(gs[0]) == t0 && mut_ref_future(gs.last()) == self.state && forall|k: int| 0 <= k < gs.len() - 1 ==> mut_ref_future(#[trigger] gs[k]) == mut_ref_current(gs[k + 1]) });
                    assert(expr_kind_done(*old(self).doc, old(self).procedure_arguments_frames@, old(self).string_max_length, *k, r as nat, gs, cs, res));
                }
                res
            },
            ExprKind::OperatorRandom { from, to } => {
                let res = self.eval_binary(from, to, r, BinaryStep::Random);
                proof {
                    let (gs, cs, out) = choose|gs: Seq<&mut S>, cs: Seq<StateCall<V, S::Error>>, out: Result<V, RunError<S::Error>>|
                    res == out && self.log@ == l0 + cs && calls_made(gs, cs) && two_values(*old(self).doc, old(self).procedure_arguments_frames@, old(self).string_max_length, *from, *to, r as nat, cs, out, BinaryStep::Random) && (if gs.len() == 0 { self.state == t0 } else { mut_ref_current(gs[0]) == t0 && mut_ref_future(gs.last()) == self.state && forall|k: int| 0 <= k < gs.len() - 1 ==> mut_ref_future(#[trigger] gs[k]) == mut_ref_current(gs[k + 1]) });
                    assert(expr_kind_done(*old(self).doc, old(self).procedure_arguments_frames@, old(self).string_max_length, *k, r as nat, gs, cs, res));
                }
                res
            },
            ExprKind::OperatorJoin { string1, string2 } => {
                let res = self.eval_binary(string1, string2, r, BinaryStep::Join);
                proof {
                    let (gs, cs, out) = choose|gs: Seq<&mut S>, cs: Seq<StateCall<V, S::Error>>, out: Result<V, RunError<S::Error>>|
                    res == out && self.log@ == l0 + cs && calls_made(gs, cs) && two_values(*old(self).doc, old(self).procedure_arguments_frames@, old(self).string_max_length, *string1, *string2, r as nat, cs, out, BinaryStep::Join) && (if gs.len() == 0 { self.state == t0 } else { mut_ref_current(gs[0]) == t0 && mut_ref_future(gs.last()) == self.state && forall|k: int| 0 <= k < gs.len() - 1 ==> mut_ref_future(#[trigger] gs[k]) == mut_ref_current(gs[k + 1]) });
                    assert(expr_kind_done(*old(self).doc, old(self).procedure_arguments_frames@, old(self).string_max_length, *k, r as nat, gs, cs, res));
                }
                res
            },
            ExprKind::OperatorLetterOf { letter, string } => {
                let res = self.eval_binary(letter, string, r, BinaryStep::LetterOf);
                proof {
                    let (gs, cs, out) = choose|gs: Seq<&mut S>, cs: Seq<StateCall<V, S::Error>>, out: Result<V, RunError<S::Error>>|
                    res == out && self.log@ == l0 + cs && calls_made(gs, cs) && two_values(*old(self).doc, old(self).procedure_arguments_frames@, old(self).string_max_length, *letter, *string, r as nat, cs, out, BinaryStep::LetterOf) && (if gs.len() == 0 { self.state == t0 } else { mut_ref_current(gs[0]) == t0 && mut_ref_future(gs.last()) == self.state && forall|k: int| 0 <= k < gs.len() - 1 ==> mut_ref_future(#[trigger] gs[k]) == mut_ref_current(gs[k + 1]) });
                    assert(expr_kind_done(*old(self).doc, old(self).procedure_arguments_frames@, old(self).string_max_length, *k, r as nat, gs, cs, res));
                }
                res
            },
        }
    }
}

} // verus!
