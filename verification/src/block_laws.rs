//! Laws of the blocks: what each kind of block gives, stated over the values its inputs
//! evaluate to and the calls it makes on the state.
use vstd::prelude::*;

use crate::calls::{lift, unit_result, StateCall};
use crate::error::RunError;
use crate::frames::{frames_lookup, lemma_first_procedure_index_bounds, ProcedureArgumentsFrame};
use crate::program::{CondKind, ExprKind, Expression, List, ProcedureArgumentDef, Program, StmtKind, Variable};
use crate::semantics::cond_ref_outcome;
use crate::stack::StackItem;
use crate::state::OutputKind;
use crate::steps::{cond_then, push_next, repeat_count, repeat_push, stmt_outcome, timed_output, two_values_then, unit_then, value_then};
use crate::semantics::{
    binary_step_outcome, compare_step_outcome, cond_kind_outcome, evaluated, expr_kind_outcome, expr_outcome, one_value,
    same_err, two_conds, two_values, two_values_compared, unary_step_outcome, BinaryStep, CompareStep, UnaryStep,
};
use crate::value::{MathOp, ScratchValue};

verus! {

/// Where a comparison of inputs `a` and `b` gives a truth value, its calls split into
/// those of `a`, then those of `b`, both inputs gave values, and the step took them.
proof fn lemma_compared_parts<V: ScratchValue, E>(
    p: Program<V>,
    f: Seq<ProcedureArgumentsFrame<V>>,
    m: usize,
    a: Expression<V>,
    b: Expression<V>,
    bound: nat,
    cs: Seq<StateCall<V, E>>,
    v: bool,
    op: CompareStep,
)
    requires
        two_values_compared(p, f, m, a, b, bound, cs, Ok::<bool, RunError<E>>(v), op),
    ensures
        exists|ca: Seq<StateCall<V, E>>, cb: Seq<StateCall<V, E>>, x: V, y: V|
            #![trigger expr_outcome(p, f, m, a, bound, ca, Ok::<V, RunError<E>>(x)), expr_outcome(p, f, m, b, bound, cb, Ok::<V, RunError<E>>(y))]
            cs == ca + cb && expr_outcome(p, f, m, a, bound, ca, Ok::<V, RunError<E>>(x)) && expr_outcome(
                p,
                f,
                m,
                b,
                bound,
                cb,
                Ok::<V, RunError<E>>(y),
            ) && compare_step_outcome(op, x, y, Ok::<bool, RunError<E>>(v)),
{
    let (ca, oa) = choose|ca: Seq<StateCall<V, E>>, oa: Result<V, RunError<E>>|
        #![trigger evaluated(a, bound, (ca, oa))]
        evaluated(a, bound, (ca, oa)) && ca.len() <= cs.len() && cs.take(ca.len() as int) == ca
            && expr_outcome(p, f, m, a, bound, ca, oa) && match oa {
            Err(_) => cs == ca && same_err(oa, Ok::<bool, RunError<E>>(v)),
            Ok(x) => exists|ob: Result<V, RunError<E>>|
                #![trigger evaluated(b, bound, (cs.skip(ca.len() as int), ob))]
                evaluated(b, bound, (cs.skip(ca.len() as int), ob)) && expr_outcome(
                    p,
                    f,
                    m,
                    b,
                    bound,
                    cs.skip(ca.len() as int),
                    ob,
                ) && match ob {
                    Err(_) => same_err(ob, Ok::<bool, RunError<E>>(v)),
                    Ok(y) => compare_step_outcome(op, x, y, Ok::<bool, RunError<E>>(v)),
                },
        };
    assert(ca.len() <= cs.len());
    assert(oa is Ok);
    let x = oa->Ok_0;
    let cb = cs.skip(ca.len() as int);
    let ob = choose|ob: Result<V, RunError<E>>|
        #![trigger evaluated(b, bound, (cb, ob))]
        evaluated(b, bound, (cb, ob)) && expr_outcome(p, f, m, b, bound, cb, ob) && match ob {
            Err(_) => same_err(ob, Ok::<bool, RunError<E>>(v)),
            Ok(y) => compare_step_outcome(op, x, y, Ok::<bool, RunError<E>>(v)),
        };
    let y = ob->Ok_0;
    assert(cs =~= ca + cb);
    assert(expr_outcome(p, f, m, a, bound, ca, Ok::<V, RunError<E>>(x)));
    assert(expr_outcome(p, f, m, b, bound, cb, Ok::<V, RunError<E>>(y)));
}

/// A less-than block gives the answer of `less_than` on the value of its first input
/// and the value of its second, in that order; the calls of the first input come first.
pub proof fn law_less_than_block<V: ScratchValue, E>(
    p: Program<V>,
    f: Seq<ProcedureArgumentsFrame<V>>,
    m: usize,
    a: Expression<V>,
    b: Expression<V>,
    r: nat,
    cs: Seq<StateCall<V, E>>,
    v: bool,
)
    requires
        cond_kind_outcome(p, f, m, CondKind::OperatorLt { operand1: a, operand2: b }, r, cs, Ok::<bool, RunError<E>>(v)),
    ensures
        exists|ca: Seq<StateCall<V, E>>, cb: Seq<StateCall<V, E>>, x: V, y: V|
            #![trigger expr_outcome(p, f, m, a, r, ca, Ok::<V, RunError<E>>(x)), expr_outcome(p, f, m, b, r, cb, Ok::<V, RunError<E>>(y))]
            cs == ca + cb && expr_outcome(p, f, m, a, r, ca, Ok::<V, RunError<E>>(x)) && expr_outcome(
                p,
                f,
                m,
                b,
                r,
                cb,
                Ok::<V, RunError<E>>(y),
            ) && call_ensures(V::less_than, (&x, &y), v),
{
    lemma_compared_parts(p, f, m, a, b, r, cs, v, CompareStep::Lt);
}

/// `s` with block `b`, if there is one, on top: what runs next.
pub open spec fn with_on_top(s: Seq<StackItem<usize>>, b: Option<usize>) -> Seq<StackItem<usize>> {
    match b {
        Some(n) => s.push(StackItem::Normal(n)),
        None => s,
    }
}

/// Where a statement with one input and one closing state call succeeds: the calls
/// are those of the input, then the closing call, which fits the input's value and
/// succeeded, and the next block follows.
proof fn lemma_value_then_parts<V: ScratchValue, E>(
    p: Program<V>,
    f: Seq<ProcedureArgumentsFrame<V>>,
    m: usize,
    e: Expression<V>,
    s: Seq<StackItem<usize>>,
    next: Option<usize>,
    s1: Seq<StackItem<usize>>,
    cs: Seq<StateCall<V, E>>,
    fits: spec_fn(V, StateCall<V, E>) -> bool,
)
    requires
        value_then(p, f, m, e, s, next, s1, cs, Ok::<(), RunError<E>>(()), fits),
    ensures
        cs.len() > 0,
        unit_result(cs.last()) is Ok,
        s1 == push_next(s, next),
        exists|ca: Seq<StateCall<V, E>>, x: V|
            #![trigger expr_outcome(p, f, m, e, p.spec_blocks().len(), ca, Ok::<V, RunError<E>>(x))]
            cs == ca.push(cs.last()) && expr_outcome(p, f, m, e, p.spec_blocks().len(), ca, Ok::<V, RunError<E>>(x)) && fits(x, cs.last()),
{
    let len = p.spec_blocks().len();
    let (ca, oa) = choose|ca: Seq<StateCall<V, E>>, oa: Result<V, RunError<E>>|
        #![trigger evaluated(e, len, (ca, oa))]
        evaluated(e, len, (ca, oa)) && ca.len() <= cs.len() && cs.take(ca.len() as int) == ca
            && expr_outcome(p, f, m, e, len, ca, oa) && match oa {
            Err(_) => cs == ca && same_err(oa, Ok::<(), RunError<E>>(())) && s1 == s,
            Ok(x) => cs.len() == ca.len() + 1 && fits(x, cs[ca.len() as int]) && unit_then(
                unit_result(cs[ca.len() as int]),
                s,
                next,
                s1,
                Ok::<(), RunError<E>>(()),
            ),
        };
    let x = oa->Ok_0;
    let c = cs[ca.len() as int];
    assert(cs =~= ca.push(c));
    assert(expr_outcome(p, f, m, e, len, ca, Ok::<V, RunError<E>>(x)));
    assert(fits(x, c));
}

/// Where a statement with two inputs and one closing state call succeeds: the calls
/// are those of the first input, then those of the second, then the closing call,
/// which fits both values and succeeded, and the next block follows.
proof fn lemma_two_values_then_parts<V: ScratchValue, E>(
    p: Program<V>,
    f: Seq<ProcedureArgumentsFrame<V>>,
    m: usize,
    a: Expression<V>,
    b: Expression<V>,
    s: Seq<StackItem<usize>>,
    next: Option<usize>,
    s1: Seq<StackItem<usize>>,
    cs: Seq<StateCall<V, E>>,
    fits: spec_fn(V, V, StateCall<V, E>) -> bool,
)
    requires
        two_values_then(p, f, m, a, b, s, next, s1, cs, Ok::<(), RunError<E>>(()), fits),
    ensures
        cs.len() > 0,
        unit_result(cs.last()) is Ok,
        s1 == push_next(s, next),
        exists|ca: Seq<StateCall<V, E>>, cb: Seq<StateCall<V, E>>, x: V, y: V|
            #![trigger expr_outcome(p, f, m, a, p.spec_blocks().len(), ca, Ok::<V, RunError<E>>(x)), expr_outcome(p, f, m, b, p.spec_blocks().len(), cb, Ok::<V, RunError<E>>(y))]
            cs == (ca + cb).push(cs.last()) && expr_outcome(p, f, m, a, p.spec_blocks().len(), ca, Ok::<V, RunError<E>>(x))
                && expr_outcome(p, f, m, b, p.spec_blocks().len(), cb, Ok::<V, RunError<E>>(y)) && fits(x, y, cs.last()),
{
    let len = p.spec_blocks().len();
    let (ca, oa) = choose|ca: Seq<StateCall<V, E>>, oa: Result<V, RunError<E>>|
        #![trigger evaluated(a, len, (ca, oa))]
        evaluated(a, len, (ca, oa)) && ca.len() <= cs.len() && cs.take(ca.len() as int) == ca
            && expr_outcome(p, f, m, a, len, ca, oa) && match oa {
            Err(_) => cs == ca && same_err(oa, Ok::<(), RunError<E>>(())) && s1 == s,
            Ok(x) => exists|cb: Seq<StateCall<V, E>>, ob: Result<V, RunError<E>>|
                #![trigger evaluated(b, len, (cb, ob))]
                evaluated(b, len, (cb, ob)) && (ca.len() + cb.len()) as int <= cs.len() && cs.subrange(
                    ca.len() as int,
                    (ca.len() + cb.len()) as int,
                ) == cb && expr_outcome(p, f, m, b, len, cb, ob) && match ob {
                    Err(_) => cs.len() == (ca.len() + cb.len()) as int && same_err(ob, Ok::<(), RunError<E>>(())) && s1 == s,
                    Ok(y) => cs.len() == (ca.len() + cb.len()) as int + 1 && fits(x, y, cs[(ca.len() + cb.len()) as int])
                        && unit_then(unit_result(cs[(ca.len() + cb.len()) as int]), s, next, s1, Ok::<(), RunError<E>>(())),
                },
        };
    let x = oa->Ok_0;
    let (cb, ob) = choose|cb: Seq<StateCall<V, E>>, ob: Result<V, RunError<E>>|
        #![trigger evaluated(b, len, (cb, ob))]
        evaluated(b, len, (cb, ob)) && (ca.len() + cb.len()) as int <= cs.len() && cs.subrange(
            ca.len() as int,
            (ca.len() + cb.len()) as int,
        ) == cb && expr_outcome(p, f, m, b, len, cb, ob) && match ob {
            Err(_) => cs.len() == (ca.len() + cb.len()) as int && same_err(ob, Ok::<(), RunError<E>>(())) && s1 == s,
            Ok(y) => cs.len() == (ca.len() + cb.len()) as int + 1 && fits(x, y, cs[(ca.len() + cb.len()) as int])
                && unit_then(unit_result(cs[(ca.len() + cb.len()) as int]), s, next, s1, Ok::<(), RunError<E>>(())),
        };
    let y = ob->Ok_0;
    let c = cs[(ca.len() + cb.len()) as int];
    assert(cs =~= (ca + cb).push(c));
    assert(expr_outcome(p, f, m, a, len, ca, Ok::<V, RunError<E>>(x)));
    assert(expr_outcome(p, f, m, b, len, cb, Ok::<V, RunError<E>>(y)));
    assert(fits(x, y, c));
}

/// Where a statement that tests a condition succeeds, the condition gave a truth value on the statement's calls, and the
/// statement did what that value asks.
proof fn lemma_cond_then_parts<V: ScratchValue, E>(
    p: Program<V>,
    f: Seq<ProcedureArgumentsFrame<V>>,
    m: usize,
    c: Option<usize>,
    s: Seq<StackItem<usize>>,
    s1: Seq<StackItem<usize>>,
    cs: Seq<StateCall<V, E>>,
    out: Result<(), RunError<E>>,
    on_true: (Result<(), RunError<E>>, Seq<StackItem<usize>>),
    on_false: (Result<(), RunError<E>>, Seq<StackItem<usize>>),
)
    requires
        cond_then(p, f, m, c, s, s1, cs, out, on_true, on_false),
        out is Ok,
    ensures
        exists|b: bool|
            #![trigger cond_ref_outcome(p, f, m, c, p.spec_blocks().len(), cs, Ok::<bool, RunError<E>>(b))]
            cond_ref_outcome(p, f, m, c, p.spec_blocks().len(), cs, Ok::<bool, RunError<E>>(b)) && if b {
                out == on_true.0 && s1 == on_true.1
            } else {
                out == on_false.0 && s1 == on_false.1
            },
{
    let len = p.spec_blocks().len();
    let oc = choose|oc: Result<bool, RunError<E>>|
        #![trigger evaluated(c, len, (cs, oc))]
        evaluated(c, len, (cs, oc)) && cond_ref_outcome(p, f, m, c, len, cs, oc) && match oc {
            Err(_) => same_err(oc, out) && s1 == s,
            Ok(true) => out == on_true.0 && s1 == on_true.1,
            Ok(false) => out == on_false.0 && s1 == on_false.1,
        };
    let b = oc->Ok_0;
    assert(cond_ref_outcome(p, f, m, c, len, cs, Ok::<bool, RunError<E>>(b)));
}

/// A say block shows the value of its message input: the calls of a successful say
/// are those of the message input and then one output call of kind `Say` with that
/// value, and the next block runs next.
pub proof fn law_say_shows_its_message<V: ScratchValue, E>(
    p: Program<V>,
    f: Seq<ProcedureArgumentsFrame<V>>,
    m: usize,
    id: usize,
    item: StackItem<usize>,
    next: Option<usize>,
    message: Expression<V>,
    s: Seq<StackItem<usize>>,
    s1: Seq<StackItem<usize>>,
    f1: Seq<ProcedureArgumentsFrame<V>>,
    cs: Seq<StateCall<V, E>>,
)
    requires
        stmt_outcome(p, f, m, id, item, next, StmtKind::LooksSay { message }, s, s1, f1, cs, Ok::<(), RunError<E>>(())),
    ensures
        f1 == f,
        s1 == with_on_top(s, next),
        exists|ca: Seq<StateCall<V, E>>, x: V|
            #![trigger expr_outcome(p, f, m, message, p.spec_blocks().len(), ca, Ok::<V, RunError<E>>(x))]
            cs == ca.push(StateCall::Output(OutputKind::Say, x)) && expr_outcome(p, f, m, message, p.spec_blocks().len(), ca, Ok::<V, RunError<E>>(x)),
{
    lemma_value_then_parts(p, f, m, message, s, next, s1, cs, |x: V, c: StateCall<V, E>| c == StateCall::<V, E>::Output(OutputKind::Say, x));
}

/// A wait-until block whose step succeeds found its condition true, and the next block
/// runs next.
pub proof fn law_wait_until_goes_on_when_true<V: ScratchValue, E>(
    p: Program<V>,
    f: Seq<ProcedureArgumentsFrame<V>>,
    m: usize,
    id: usize,
    item: StackItem<usize>,
    next: Option<usize>,
    condition: Option<usize>,
    s: Seq<StackItem<usize>>,
    s1: Seq<StackItem<usize>>,
    f1: Seq<ProcedureArgumentsFrame<V>>,
    cs: Seq<StateCall<V, E>>,
)
    requires
        stmt_outcome(p, f, m, id, item, next, StmtKind::ControlWaitUntil { condition }, s, s1, f1, cs, Ok::<(), RunError<E>>(())),
    ensures
        f1 == f,
        s1 == with_on_top(s, next),
        cond_ref_outcome(p, f, m, condition, p.spec_blocks().len(), cs, Ok::<bool, RunError<E>>(true)),
{
    let ok = Ok::<(), RunError<E>>(());
    lemma_cond_then_parts(p, f, m, condition, s, s1, cs, ok, (ok, push_next(s, next)), (Err(RunError::User(crate::error::UserError::WaitUntilFalseNeverTerminatesInSingleThreadded)), s));
}


/// Where a block with two value inputs gives a value: its calls are those of the first
/// input, then those of the second, then those of its own step, and both inputs gave
/// values.
proof fn lemma_two_values_parts<V: ScratchValue, E>(
    p: Program<V>,
    f: Seq<ProcedureArgumentsFrame<V>>,
    m: usize,
    a: Expression<V>,
    b: Expression<V>,
    bound: nat,
    cs: Seq<StateCall<V, E>>,
    v: V,
    op: BinaryStep,
)
    requires
        two_values(p, f, m, a, b, bound, cs, Ok::<V, RunError<E>>(v), op),
    ensures
        exists|ca: Seq<StateCall<V, E>>, cb: Seq<StateCall<V, E>>, x: V, y: V|
            #![trigger expr_outcome(p, f, m, a, bound, ca, Ok::<V, RunError<E>>(x)), expr_outcome(p, f, m, b, bound, cb, Ok::<V, RunError<E>>(y))]
            ca.len() + cb.len() <= cs.len() && cs == ca + cb + cs.skip((ca.len() + cb.len()) as int) && expr_outcome(p, f, m, a, bound, ca, Ok::<V, RunError<E>>(x)) && expr_outcome(p, f, m, b, bound, cb, Ok::<V, RunError<E>>(y))
                && binary_step_outcome(op, m, x, y, cs.skip((ca.len() + cb.len()) as int), Ok::<V, RunError<E>>(v)),
{
    let (ca, oa) = choose|ca: Seq<StateCall<V, E>>, oa: Result<V, RunError<E>>|
        #![trigger evaluated(a, bound, (ca, oa))]
        evaluated(a, bound, (ca, oa)) && ca.len() <= cs.len() && cs.take(ca.len() as int) == ca
            && expr_outcome(p, f, m, a, bound, ca, oa) && match oa {
            Err(_) => cs == ca && same_err(oa, Ok::<V, RunError<E>>(v)),
            Ok(x) => exists|cb: Seq<StateCall<V, E>>, ob: Result<V, RunError<E>>|
                #![trigger evaluated(b, bound, (cb, ob))]
                evaluated(b, bound, (cb, ob)) && (ca.len() + cb.len()) as int <= cs.len() && cs.subrange(
                    ca.len() as int,
                    (ca.len() + cb.len()) as int,
                ) == cb && expr_outcome(p, f, m, b, bound, cb, ob) && match ob {
                    Err(_) => cs.len() == (ca.len() + cb.len()) as int && same_err(ob, Ok::<V, RunError<E>>(v)),
                    Ok(y) => binary_step_outcome(op, m, x, y, cs.skip((ca.len() + cb.len()) as int), Ok::<V, RunError<E>>(v)),
                },
        };
    let x = oa->Ok_0;
    let (cb, ob) = choose|cb: Seq<StateCall<V, E>>, ob: Result<V, RunError<E>>|
        #![trigger evaluated(b, bound, (cb, ob))]
        evaluated(b, bound, (cb, ob)) && (ca.len() + cb.len()) as int <= cs.len() && cs.subrange(
            ca.len() as int,
            (ca.len() + cb.len()) as int,
        ) == cb && expr_outcome(p, f, m, b, bound, cb, ob) && match ob {
            Err(_) => cs.len() == (ca.len() + cb.len()) as int && same_err(ob, Ok::<V, RunError<E>>(v)),
            Ok(y) => binary_step_outcome(op, m, x, y, cs.skip((ca.len() + cb.len()) as int), Ok::<V, RunError<E>>(v)),
        };
    let y = ob->Ok_0;
    assert(cs =~= ca + cb + cs.skip((ca.len() + cb.len()) as int));
    assert(expr_outcome(p, f, m, a, bound, ca, Ok::<V, RunError<E>>(x)));
    assert(expr_outcome(p, f, m, b, bound, cb, Ok::<V, RunError<E>>(y)));
}

/// Where a block with one value input gives a value: its calls are those of the input,
/// then those of its own step, and the input gave a value.
proof fn lemma_one_value_parts<V: ScratchValue, E>(
    p: Program<V>,
    f: Seq<ProcedureArgumentsFrame<V>>,
    m: usize,
    a: Expression<V>,
    bound: nat,
    cs: Seq<StateCall<V, E>>,
    v: V,
    op: UnaryStep,
)
    requires
        one_value(p, f, m, a, bound, cs, Ok::<V, RunError<E>>(v), op),
    ensures
        exists|ca: Seq<StateCall<V, E>>, x: V|
            #![trigger expr_outcome(p, f, m, a, bound, ca, Ok::<V, RunError<E>>(x))]
            ca.len() <= cs.len() && cs == ca + cs.skip(ca.len() as int) && expr_outcome(p, f, m, a, bound, ca, Ok::<V, RunError<E>>(x)) && unary_step_outcome(op, x, cs.skip(ca.len() as int), Ok::<V, RunError<E>>(v)),
{
    let (ca, oa) = choose|ca: Seq<StateCall<V, E>>, oa: Result<V, RunError<E>>|
        #![trigger evaluated(a, bound, (ca, oa))]
        evaluated(a, bound, (ca, oa)) && ca.len() <= cs.len() && cs.take(ca.len() as int) == ca
            && expr_outcome(p, f, m, a, bound, ca, oa) && match oa {
            Ok(x) => unary_step_outcome(op, x, cs.skip(ca.len() as int), Ok::<V, RunError<E>>(v)),
            Err(_) => cs == ca && same_err(oa, Ok::<V, RunError<E>>(v)),
        };
    let x = oa->Ok_0;
    assert(cs =~= ca + cs.skip(ca.len() as int));
    assert(expr_outcome(p, f, m, a, bound, ca, Ok::<V, RunError<E>>(x)));
}

/// Where a block with two boolean inputs gives a truth value: its calls are those of
/// the first input, then those of the second, and both gave truth values, which the
/// block combined with `||` (`is_or`) or `&&`.
proof fn lemma_two_conds_parts<V: ScratchValue, E>(
    p: Program<V>,
    f: Seq<ProcedureArgumentsFrame<V>>,
    m: usize,
    a: Option<usize>,
    b: Option<usize>,
    bound: nat,
    cs: Seq<StateCall<V, E>>,
    v: bool,
    is_or: bool,
)
    requires
        two_conds(p, f, m, a, b, bound, cs, Ok::<bool, RunError<E>>(v), is_or),
    ensures
        exists|ca: Seq<StateCall<V, E>>, cb: Seq<StateCall<V, E>>, x: bool, y: bool|
            #![trigger cond_ref_outcome(p, f, m, a, bound, ca, Ok::<bool, RunError<E>>(x)), cond_ref_outcome(p, f, m, b, bound, cb, Ok::<bool, RunError<E>>(y))]
            cs == ca + cb && cond_ref_outcome(p, f, m, a, bound, ca, Ok::<bool, RunError<E>>(x)) && cond_ref_outcome(p, f, m, b, bound, cb, Ok::<bool, RunError<E>>(y)) && v == (if is_or { x || y } else { x && y }),
{
    let (ca, oa) = choose|ca: Seq<StateCall<V, E>>, oa: Result<bool, RunError<E>>|
        #![trigger evaluated(a, bound, (ca, oa))]
        evaluated(a, bound, (ca, oa)) && ca.len() <= cs.len() && cs.take(ca.len() as int) == ca
            && cond_ref_outcome(p, f, m, a, bound, ca, oa) && match oa {
            Err(_) => cs == ca && same_err(oa, Ok::<bool, RunError<E>>(v)),
            Ok(x) => exists|ob: Result<bool, RunError<E>>|
                #![trigger evaluated(b, bound, (cs.skip(ca.len() as int), ob))]
                evaluated(b, bound, (cs.skip(ca.len() as int), ob)) && cond_ref_outcome(
                    p,
                    f,
                    m,
                    b,
                    bound,
                    cs.skip(ca.len() as int),
                    ob,
                ) && match ob {
                    Err(_) => same_err(ob, Ok::<bool, RunError<E>>(v)),
                    Ok(y) => Ok::<bool, RunError<E>>(v) == Ok::<bool, RunError<E>>(if is_or { x || y } else { x && y }),
                },
        };
    let x = oa->Ok_0;
    let cb = cs.skip(ca.len() as int);
    let ob = choose|ob: Result<bool, RunError<E>>|
        #![trigger evaluated(b, bound, (cb, ob))]
        evaluated(b, bound, (cb, ob)) && cond_ref_outcome(p, f, m, b, bound, cb, ob) && match ob {
            Err(_) => same_err(ob, Ok::<bool, RunError<E>>(v)),
            Ok(y) => Ok::<bool, RunError<E>>(v) == Ok::<bool, RunError<E>>(if is_or { x || y } else { x && y }),
        };
    let y = ob->Ok_0;
    assert(cs =~= ca + cb);
    assert(cond_ref_outcome(p, f, m, a, bound, ca, Ok::<bool, RunError<E>>(x)));
    assert(cond_ref_outcome(p, f, m, b, bound, cb, Ok::<bool, RunError<E>>(y)));
}


/// A greater-than block gives the answer of `greater_than` on the value of its first
/// input and the value of its second, in that order; the calls of the first come first.
pub proof fn law_greater_than_block<V: ScratchValue, E>(
    p: Program<V>,
    f: Seq<ProcedureArgumentsFrame<V>>,
    m: usize,
    a: Expression<V>,
    b: Expression<V>,
    r: nat,
    cs: Seq<StateCall<V, E>>,
    v: bool,
)
    requires
        cond_kind_outcome(p, f, m, CondKind::OperatorGt { operand1: a, operand2: b }, r, cs, Ok::<bool, RunError<E>>(v)),
    ensures
        exists|ca: Seq<StateCall<V, E>>, cb: Seq<StateCall<V, E>>, x: V, y: V|
            #![trigger expr_outcome(p, f, m, a, r, ca, Ok::<V, RunError<E>>(x)), expr_outcome(p, f, m, b, r, cb, Ok::<V, RunError<E>>(y))]
            cs == ca + cb && expr_outcome(p, f, m, a, r, ca, Ok::<V, RunError<E>>(x)) && expr_outcome(p, f, m, b, r, cb, Ok::<V, RunError<E>>(y)) && call_ensures(V::greater_than, (&x, &y), v),
{
    lemma_compared_parts(p, f, m, a, b, r, cs, v, CompareStep::Gt);
}


/// An equals block gives the answer of `equals` on the values of its two inputs; the
/// calls of the first input come first.
pub proof fn law_equals_block<V: ScratchValue, E>(
    p: Program<V>,
    f: Seq<ProcedureArgumentsFrame<V>>,
    m: usize,
    a: Expression<V>,
    b: Expression<V>,
    r: nat,
    cs: Seq<StateCall<V, E>>,
    v: bool,
)
    requires
        cond_kind_outcome(p, f, m, CondKind::OperatorEquals { operand1: a, operand2: b }, r, cs, Ok::<bool, RunError<E>>(v)),
    ensures
        exists|ca: Seq<StateCall<V, E>>, cb: Seq<StateCall<V, E>>, x: V, y: V|
            #![trigger expr_outcome(p, f, m, a, r, ca, Ok::<V, RunError<E>>(x)), expr_outcome(p, f, m, b, r, cb, Ok::<V, RunError<E>>(y))]
            cs == ca + cb && expr_outcome(p, f, m, a, r, ca, Ok::<V, RunError<E>>(x)) && expr_outcome(p, f, m, b, r, cb, Ok::<V, RunError<E>>(y)) && call_ensures(V::equals, (&x, &y), v),
{
    lemma_compared_parts(p, f, m, a, b, r, cs, v, CompareStep::Equals);
}


/// A contains block asks whether the text of its first input contains the text of its
/// second (`contains_text` on the two values, in that order); the first input's calls
/// come first.
pub proof fn law_contains_block<V: ScratchValue, E>(
    p: Program<V>,
    f: Seq<ProcedureArgumentsFrame<V>>,
    m: usize,
    a: Expression<V>,
    b: Expression<V>,
    r: nat,
    cs: Seq<StateCall<V, E>>,
    v: bool,
)
    requires
        cond_kind_outcome(p, f, m, CondKind::OperatorContains { string1: a, string2: b }, r, cs, Ok::<bool, RunError<E>>(v)),
    ensures
        exists|ca: Seq<StateCall<V, E>>, cb: Seq<StateCall<V, E>>, x: V, y: V|
            #![trigger expr_outcome(p, f, m, a, r, ca, Ok::<V, RunError<E>>(x)), expr_outcome(p, f, m, b, r, cb, Ok::<V, RunError<E>>(y))]
            cs == ca + cb && expr_outcome(p, f, m, a, r, ca, Ok::<V, RunError<E>>(x)) && expr_outcome(p, f, m, b, r, cb, Ok::<V, RunError<E>>(y)) && call_ensures(V::contains_text, (&x, &y), v),
{
    lemma_compared_parts(p, f, m, a, b, r, cs, v, CompareStep::Contains);
}


/// An and block evaluates both inputs, the first one's calls first, and is true
/// exactly when both are true.
pub proof fn law_and_block<V: ScratchValue, E>(
    p: Program<V>,
    f: Seq<ProcedureArgumentsFrame<V>>,
    m: usize,
    a: Option<usize>,
    b: Option<usize>,
    r: nat,
    cs: Seq<StateCall<V, E>>,
    v: bool,
)
    requires
        cond_kind_outcome(p, f, m, CondKind::OperatorAnd { operand1: a, operand2: b }, r, cs, Ok::<bool, RunError<E>>(v)),
    ensures
        exists|ca: Seq<StateCall<V, E>>, cb: Seq<StateCall<V, E>>, x: bool, y: bool|
            #![trigger cond_ref_outcome(p, f, m, a, r, ca, Ok::<bool, RunError<E>>(x)), cond_ref_outcome(p, f, m, b, r, cb, Ok::<bool, RunError<E>>(y))]
            cs == ca + cb && cond_ref_outcome(p, f, m, a, r, ca, Ok::<bool, RunError<E>>(x)) && cond_ref_outcome(p, f, m, b, r, cb, Ok::<bool, RunError<E>>(y)) && v == (x && y),
{
    lemma_two_conds_parts(p, f, m, a, b, r, cs, v, false);
}


/// An or block evaluates both inputs, the first one's calls first, and is true
/// exactly when at least one of them is true.
pub proof fn law_or_block<V: ScratchValue, E>(
    p: Program<V>,
    f: Seq<ProcedureArgumentsFrame<V>>,
    m: usize,
    a: Option<usize>,
    b: Option<usize>,
    r: nat,
    cs: Seq<StateCall<V, E>>,
    v: bool,
)
    requires
        cond_kind_outcome(p, f, m, CondKind::OperatorOr { operand1: a, operand2: b }, r, cs, Ok::<bool, RunError<E>>(v)),
    ensures
        exists|ca: Seq<StateCall<V, E>>, cb: Seq<StateCall<V, E>>, x: bool, y: bool|
            #![trigger cond_ref_outcome(p, f, m, a, r, ca, Ok::<bool, RunError<E>>(x)), cond_ref_outcome(p, f, m, b, r, cb, Ok::<bool, RunError<E>>(y))]
            cs == ca + cb && cond_ref_outcome(p, f, m, a, r, ca, Ok::<bool, RunError<E>>(x)) && cond_ref_outcome(p, f, m, b, r, cb, Ok::<bool, RunError<E>>(y)) && v == (x || y),
{
    lemma_two_conds_parts(p, f, m, a, b, r, cs, v, true);
}


/// A not block gives the opposite of what its input gives, on the same calls.
pub proof fn law_not_block<V: ScratchValue, E>(
    p: Program<V>,
    f: Seq<ProcedureArgumentsFrame<V>>,
    m: usize,
    a: Option<usize>,
    r: nat,
    cs: Seq<StateCall<V, E>>,
    v: bool,
)
    requires
        cond_kind_outcome(p, f, m, CondKind::OperatorNot { operand: a }, r, cs, Ok::<bool, RunError<E>>(v)),
    ensures
        cond_ref_outcome(p, f, m, a, r, cs, Ok::<bool, RunError<E>>(!v)),
{
    let oa = choose|oa: Result<bool, RunError<E>>|
        #![trigger evaluated(a, r, (cs, oa))]
        evaluated(a, r, (cs, oa)) && cond_ref_outcome(p, f, m, a, r, cs, oa) && match oa {
            Err(_) => same_err(oa, Ok::<bool, RunError<E>>(v)),
            Ok(x) => Ok::<bool, RunError<E>>(v) == Ok::<bool, RunError<E>>(!x),
        };
    assert(oa == Ok::<bool, RunError<E>>(!v));
}


/// A boolean argument reporter whose name is bound, in the innermost frame that binds
/// it, to a value `w` reads `as_bool` of `w`; it makes no call on the state.
pub proof fn law_boolean_argument_reads_its_binding<V: ScratchValue, E>(
    p: Program<V>,
    f: Seq<ProcedureArgumentsFrame<V>>,
    m: usize,
    name: String,
    r: nat,
    cs: Seq<StateCall<V, E>>,
    out: Result<bool, RunError<E>>,
    key: ProcedureArgumentDef,
    w: V,
)
    requires
        cond_kind_outcome(p, f, m, CondKind::ArgumentReporterBoolean { value: name }, r, cs, out),
        frames_lookup(f, name@) == Some((key, Some(w))),
    ensures
        cs.len() == 0,
        out matches Ok(b) && call_ensures(V::as_bool, (&w,), b),
{
}


/// A boolean argument reporter whose name is bound to nothing, or to an empty input,
/// reads as false.
pub proof fn law_boolean_argument_unbound_is_false<V: ScratchValue, E>(
    p: Program<V>,
    f: Seq<ProcedureArgumentsFrame<V>>,
    m: usize,
    name: String,
    r: nat,
    cs: Seq<StateCall<V, E>>,
    out: Result<bool, RunError<E>>,
)
    requires
        cond_kind_outcome(p, f, m, CondKind::ArgumentReporterBoolean { value: name }, r, cs, out),
        !(frames_lookup(f, name@) matches Some((_, Some(_)))),
    ensures
        cs.len() == 0,
        out == Ok::<bool, RunError<E>>(false),
{
}


/// A list-contains block evaluates its item input and then asks the state whether the
/// list holds that value; it gives what the state answered.
pub proof fn law_list_contains_block<V: ScratchValue, E>(
    p: Program<V>,
    f: Seq<ProcedureArgumentsFrame<V>>,
    m: usize,
    list: List,
    a: Expression<V>,
    r: nat,
    cs: Seq<StateCall<V, E>>,
    v: bool,
)
    requires
        cond_kind_outcome(p, f, m, CondKind::DataListContainsItem { list, item: a }, r, cs, Ok::<bool, RunError<E>>(v)),
    ensures
        exists|ca: Seq<StateCall<V, E>>, x: V|
            #![trigger expr_outcome(p, f, m, a, r, ca, Ok::<V, RunError<E>>(x))]
            cs == ca.push(StateCall::ListContains(list, x, Ok(v))) && expr_outcome(p, f, m, a, r, ca, Ok::<V, RunError<E>>(x)),
{
    let (ca, oa) = choose|ca: Seq<StateCall<V, E>>, oa: Result<V, RunError<E>>|
        #![trigger evaluated(a, r, (ca, oa))]
        evaluated(a, r, (ca, oa)) && ca.len() <= cs.len() && cs.take(ca.len() as int) == ca
            && expr_outcome(p, f, m, a, r, ca, oa) && match oa {
            Ok(x) => cs.len() == ca.len() + 1 && (cs[ca.len() as int] matches StateCall::ListContains(k, i, rr)
                && k == list && i == x && Ok::<bool, RunError<E>>(v) == lift(rr)),
            Err(_) => cs == ca && same_err(oa, Ok::<bool, RunError<E>>(v)),
        };
    let x = oa->Ok_0;
    assert(cs =~= ca.push(StateCall::ListContains(list, x, Ok(v))));
    assert(expr_outcome(p, f, m, a, r, ca, Ok::<V, RunError<E>>(x)));
}


/// An add block gives `add_numbers` of its first input's value and its second's; it
/// makes no call of its own.
pub proof fn law_add_block<V: ScratchValue, E>(
    p: Program<V>,
    f: Seq<ProcedureArgumentsFrame<V>>,
    m: usize,
    a: Expression<V>,
    b: Expression<V>,
    r: nat,
    cs: Seq<StateCall<V, E>>,
    v: V,
)
    requires
        expr_kind_outcome(p, f, m, ExprKind::OperatorAdd { num1: a, num2: b }, r, cs, Ok::<V, RunError<E>>(v)),
    ensures
        exists|ca: Seq<StateCall<V, E>>, cb: Seq<StateCall<V, E>>, x: V, y: V|
            #![trigger expr_outcome(p, f, m, a, r, ca, Ok::<V, RunError<E>>(x)), expr_outcome(p, f, m, b, r, cb, Ok::<V, RunError<E>>(y))]
            cs == ca + cb && expr_outcome(p, f, m, a, r, ca, Ok::<V, RunError<E>>(x)) && expr_outcome(p, f, m, b, r, cb, Ok::<V, RunError<E>>(y)) && call_ensures(V::add_numbers, (&x, &y), v),
{
    lemma_two_values_parts(p, f, m, a, b, r, cs, v, BinaryStep::Add);
    let (ca, cb, x, y) = choose|ca: Seq<StateCall<V, E>>, cb: Seq<StateCall<V, E>>, x: V, y: V|
        ca.len() + cb.len() <= cs.len() && cs == ca + cb + cs.skip((ca.len() + cb.len()) as int) && expr_outcome(p, f, m, a, r, ca, Ok::<V, RunError<E>>(x)) && expr_outcome(p, f, m, b, r, cb, Ok::<V, RunError<E>>(y))
            && binary_step_outcome(BinaryStep::Add, m, x, y, cs.skip((ca.len() + cb.len()) as int), Ok::<V, RunError<E>>(v));
    assert(cs =~= ca + cb);
}


/// A subtract block takes its second input's value from its first's (`sub_numbers`,
/// in that order).
pub proof fn law_subtract_block<V: ScratchValue, E>(
    p: Program<V>,
    f: Seq<ProcedureArgumentsFrame<V>>,
    m: usize,
    a: Expression<V>,
    b: Expression<V>,
    r: nat,
    cs: Seq<StateCall<V, E>>,
    v: V,
)
    requires
        expr_kind_outcome(p, f, m, ExprKind::OperatorSubtract { num1: a, num2: b }, r, cs, Ok::<V, RunError<E>>(v)),
    ensures
        exists|ca: Seq<StateCall<V, E>>, cb: Seq<StateCall<V, E>>, x: V, y: V|
            #![trigger expr_outcome(p, f, m, a, r, ca, Ok::<V, RunError<E>>(x)), expr_outcome(p, f, m, b, r, cb, Ok::<V, RunError<E>>(y))]
            cs == ca + cb && expr_outcome(p, f, m, a, r, ca, Ok::<V, RunError<E>>(x)) && expr_outcome(p, f, m, b, r, cb, Ok::<V, RunError<E>>(y)) && call_ensures(V::sub_numbers, (&x, &y), v),
{
    lemma_two_values_parts(p, f, m, a, b, r, cs, v, BinaryStep::Subtract);
    let (ca, cb, x, y) = choose|ca: Seq<StateCall<V, E>>, cb: Seq<StateCall<V, E>>, x: V, y: V|
        ca.len() + cb.len() <= cs.len() && cs == ca + cb + cs.skip((ca.len() + cb.len()) as int) && expr_outcome(p, f, m, a, r, ca, Ok::<V, RunError<E>>(x)) && expr_outcome(p, f, m, b, r, cb, Ok::<V, RunError<E>>(y))
            && binary_step_outcome(BinaryStep::Subtract, m, x, y, cs.skip((ca.len() + cb.len()) as int), Ok::<V, RunError<E>>(v));
    assert(cs =~= ca + cb);
}


/// A multiply block gives `mul_numbers` of its two inputs' values.
pub proof fn law_multiply_block<V: ScratchValue, E>(
    p: Program<V>,
    f: Seq<ProcedureArgumentsFrame<V>>,
    m: usize,
    a: Expression<V>,
    b: Expression<V>,
    r: nat,
    cs: Seq<StateCall<V, E>>,
    v: V,
)
    requires
        expr_kind_outcome(p, f, m, ExprKind::OperatorMultiply { num1: a, num2: b }, r, cs, Ok::<V, RunError<E>>(v)),
    ensures
        exists|ca: Seq<StateCall<V, E>>, cb: Seq<StateCall<V, E>>, x: V, y: V|
            #![trigger expr_outcome(p, f, m, a, r, ca, Ok::<V, RunError<E>>(x)), expr_outcome(p, f, m, b, r, cb, Ok::<V, RunError<E>>(y))]
            cs == ca + cb && expr_outcome(p, f, m, a, r, ca, Ok::<V, RunError<E>>(x)) && expr_outcome(p, f, m, b, r, cb, Ok::<V, RunError<E>>(y)) && call_ensures(V::mul_numbers, (&x, &y), v),
{
    lemma_two_values_parts(p, f, m, a, b, r, cs, v, BinaryStep::Multiply);
    let (ca, cb, x, y) = choose|ca: Seq<StateCall<V, E>>, cb: Seq<StateCall<V, E>>, x: V, y: V|
        ca.len() + cb.len() <= cs.len() && cs == ca + cb + cs.skip((ca.len() + cb.len()) as int) && expr_outcome(p, f, m, a, r, ca, Ok::<V, RunError<E>>(x)) && expr_outcome(p, f, m, b, r, cb, Ok::<V, RunError<E>>(y))
            && binary_step_outcome(BinaryStep::Multiply, m, x, y, cs.skip((ca.len() + cb.len()) as int), Ok::<V, RunError<E>>(v));
    assert(cs =~= ca + cb);
}


/// A divide block divides its first input's value by its second's (`div_numbers`, in
/// that order).
pub proof fn law_divide_block<V: ScratchValue, E>(
    p: Program<V>,
    f: Seq<ProcedureArgumentsFrame<V>>,
    m: usize,
    a: Expression<V>,
    b: Expression<V>,
    r: nat,
    cs: Seq<StateCall<V, E>>,
    v: V,
)
    requires
        expr_kind_outcome(p, f, m, ExprKind::OperatorDivide { num1: a, num2: b }, r, cs, Ok::<V, RunError<E>>(v)),
    ensures
        exists|ca: Seq<StateCall<V, E>>, cb: Seq<StateCall<V, E>>, x: V, y: V|
            #![trigger expr_outcome(p, f, m, a, r, ca, Ok::<V, RunError<E>>(x)), expr_outcome(p, f, m, b, r, cb, Ok::<V, RunError<E>>(y))]
            cs == ca + cb && expr_outcome(p, f, m, a, r, ca, Ok::<V, RunError<E>>(x)) && expr_outcome(p, f, m, b, r, cb, Ok::<V, RunError<E>>(y)) && call_ensures(V::div_numbers, (&x, &y), v),
{
    lemma_two_values_parts(p, f, m, a, b, r, cs, v, BinaryStep::Divide);
    let (ca, cb, x, y) = choose|ca: Seq<StateCall<V, E>>, cb: Seq<StateCall<V, E>>, x: V, y: V|
        ca.len() + cb.len() <= cs.len() && cs == ca + cb + cs.skip((ca.len() + cb.len()) as int) && expr_outcome(p, f, m, a, r, ca, Ok::<V, RunError<E>>(x)) && expr_outcome(p, f, m, b, r, cb, Ok::<V, RunError<E>>(y))
            && binary_step_outcome(BinaryStep::Divide, m, x, y, cs.skip((ca.len() + cb.len()) as int), Ok::<V, RunError<E>>(v));
    assert(cs =~= ca + cb);
}


/// A mod block gives its first input's value modulo its second's.
pub proof fn law_mod_block<V: ScratchValue, E>(
    p: Program<V>,
    f: Seq<ProcedureArgumentsFrame<V>>,
    m: usize,
    a: Expression<V>,
    b: Expression<V>,
    r: nat,
    cs: Seq<StateCall<V, E>>,
    v: V,
)
    requires
        expr_kind_outcome(p, f, m, ExprKind::OperatorMod { num1: a, num2: b }, r, cs, Ok::<V, RunError<E>>(v)),
    ensures
        exists|ca: Seq<StateCall<V, E>>, cb: Seq<StateCall<V, E>>, x: V, y: V|
            #![trigger expr_outcome(p, f, m, a, r, ca, Ok::<V, RunError<E>>(x)), expr_outcome(p, f, m, b, r, cb, Ok::<V, RunError<E>>(y))]
            cs == ca + cb && expr_outcome(p, f, m, a, r, ca, Ok::<V, RunError<E>>(x)) && expr_outcome(p, f, m, b, r, cb, Ok::<V, RunError<E>>(y)) && call_ensures(V::modulo, (&x, &y), v),
{
    lemma_two_values_parts(p, f, m, a, b, r, cs, v, BinaryStep::Mod);
    let (ca, cb, x, y) = choose|ca: Seq<StateCall<V, E>>, cb: Seq<StateCall<V, E>>, x: V, y: V|
        ca.len() + cb.len() <= cs.len() && cs == ca + cb + cs.skip((ca.len() + cb.len()) as int) && expr_outcome(p, f, m, a, r, ca, Ok::<V, RunError<E>>(x)) && expr_outcome(p, f, m, b, r, cb, Ok::<V, RunError<E>>(y))
            && binary_step_outcome(BinaryStep::Mod, m, x, y, cs.skip((ca.len() + cb.len()) as int), Ok::<V, RunError<E>>(v));
    assert(cs =~= ca + cb);
}


/// A join block that gives a value gives the first input's text followed by the
/// second's, joined within the length bound `m` (`concat` gave that value).
pub proof fn law_join_block<V: ScratchValue, E>(
    p: Program<V>,
    f: Seq<ProcedureArgumentsFrame<V>>,
    m: usize,
    a: Expression<V>,
    b: Expression<V>,
    r: nat,
    cs: Seq<StateCall<V, E>>,
    v: V,
)
    requires
        expr_kind_outcome(p, f, m, ExprKind::OperatorJoin { string1: a, string2: b }, r, cs, Ok::<V, RunError<E>>(v)),
    ensures
        exists|ca: Seq<StateCall<V, E>>, cb: Seq<StateCall<V, E>>, x: V, y: V|
            #![trigger expr_outcome(p, f, m, a, r, ca, Ok::<V, RunError<E>>(x)), expr_outcome(p, f, m, b, r, cb, Ok::<V, RunError<E>>(y))]
            cs == ca + cb && expr_outcome(p, f, m, a, r, ca, Ok::<V, RunError<E>>(x)) && expr_outcome(p, f, m, b, r, cb, Ok::<V, RunError<E>>(y)) && call_ensures(V::concat, (&x, &y, m), Some(v)),
{
    lemma_two_values_parts(p, f, m, a, b, r, cs, v, BinaryStep::Join);
    let (ca, cb, x, y) = choose|ca: Seq<StateCall<V, E>>, cb: Seq<StateCall<V, E>>, x: V, y: V|
        ca.len() + cb.len() <= cs.len() && cs == ca + cb + cs.skip((ca.len() + cb.len()) as int) && expr_outcome(p, f, m, a, r, ca, Ok::<V, RunError<E>>(x)) && expr_outcome(p, f, m, b, r, cb, Ok::<V, RunError<E>>(y))
            && binary_step_outcome(BinaryStep::Join, m, x, y, cs.skip((ca.len() + cb.len()) as int), Ok::<V, RunError<E>>(v));
    assert(cs =~= ca + cb);
}


/// A letter-of block gives the letter of its string input (the second) at the position
/// its letter input (the first) gives.
pub proof fn law_letter_of_block<V: ScratchValue, E>(
    p: Program<V>,
    f: Seq<ProcedureArgumentsFrame<V>>,
    m: usize,
    a: Expression<V>,
    b: Expression<V>,
    r: nat,
    cs: Seq<StateCall<V, E>>,
    v: V,
)
    requires
        expr_kind_outcome(p, f, m, ExprKind::OperatorLetterOf { letter: a, string: b }, r, cs, Ok::<V, RunError<E>>(v)),
    ensures
        exists|ca: Seq<StateCall<V, E>>, cb: Seq<StateCall<V, E>>, x: V, y: V|
            #![trigger expr_outcome(p, f, m, a, r, ca, Ok::<V, RunError<E>>(x)), expr_outcome(p, f, m, b, r, cb, Ok::<V, RunError<E>>(y))]
            cs == ca + cb && expr_outcome(p, f, m, a, r, ca, Ok::<V, RunError<E>>(x)) && expr_outcome(p, f, m, b, r, cb, Ok::<V, RunError<E>>(y)) && call_ensures(V::nth_letter, (&y, &x), v),
{
    lemma_two_values_parts(p, f, m, a, b, r, cs, v, BinaryStep::LetterOf);
    let (ca, cb, x, y) = choose|ca: Seq<StateCall<V, E>>, cb: Seq<StateCall<V, E>>, x: V, y: V|
        ca.len() + cb.len() <= cs.len() && cs == ca + cb + cs.skip((ca.len() + cb.len()) as int) && expr_outcome(p, f, m, a, r, ca, Ok::<V, RunError<E>>(x)) && expr_outcome(p, f, m, b, r, cb, Ok::<V, RunError<E>>(y))
            && binary_step_outcome(BinaryStep::LetterOf, m, x, y, cs.skip((ca.len() + cb.len()) as int), Ok::<V, RunError<E>>(v));
    assert(cs =~= ca + cb);
}

/// A round block gives `round` of its input's value and makes no call of its own.
pub proof fn law_round_block<V: ScratchValue, E>(
    p: Program<V>,
    f: Seq<ProcedureArgumentsFrame<V>>,
    m: usize,
    a: Expression<V>,
    r: nat,
    cs: Seq<StateCall<V, E>>,
    v: V,
)
    requires
        expr_kind_outcome(p, f, m, ExprKind::OperatorRound { num: a }, r, cs, Ok::<V, RunError<E>>(v)),
    ensures
        exists|ca: Seq<StateCall<V, E>>, x: V|
            #![trigger expr_outcome(p, f, m, a, r, ca, Ok::<V, RunError<E>>(x))]
            expr_outcome(p, f, m, a, r, ca, Ok::<V, RunError<E>>(x)) && cs == ca && call_ensures(V::round, (&x,), v),
{
    lemma_one_value_parts(p, f, m, a, r, cs, v, UnaryStep::Round);
    let (ca, x) = choose|ca: Seq<StateCall<V, E>>, x: V|
        ca.len() <= cs.len() && cs == ca + cs.skip(ca.len() as int) && expr_outcome(p, f, m, a, r, ca, Ok::<V, RunError<E>>(x)) && unary_step_outcome(UnaryStep::Round, x, cs.skip(ca.len() as int), Ok::<V, RunError<E>>(v));
    assert(cs =~= ca + cs.skip(ca.len() as int));
    assert(cs.skip(ca.len() as int).len() == 0 ==> cs =~= ca);
    assert(cs.skip(ca.len() as int).len() == 1 ==> cs =~= ca.push(cs.skip(ca.len() as int)[0]));
}


/// A math block applies its operator to its input's value.
pub proof fn law_math_block<V: ScratchValue, E>(
    p: Program<V>,
    f: Seq<ProcedureArgumentsFrame<V>>,
    m: usize,
    o: MathOp,
    a: Expression<V>,
    r: nat,
    cs: Seq<StateCall<V, E>>,
    v: V,
)
    requires
        expr_kind_outcome(p, f, m, ExprKind::OperatorMathop { operator: o, num: a }, r, cs, Ok::<V, RunError<E>>(v)),
    ensures
        exists|ca: Seq<StateCall<V, E>>, x: V|
            #![trigger expr_outcome(p, f, m, a, r, ca, Ok::<V, RunError<E>>(x))]
            expr_outcome(p, f, m, a, r, ca, Ok::<V, RunError<E>>(x)) && cs == ca && call_ensures(V::math_op, (&x, o), v),
{
    lemma_one_value_parts(p, f, m, a, r, cs, v, UnaryStep::Mathop(o));
    let (ca, x) = choose|ca: Seq<StateCall<V, E>>, x: V|
        ca.len() <= cs.len() && cs == ca + cs.skip(ca.len() as int) && expr_outcome(p, f, m, a, r, ca, Ok::<V, RunError<E>>(x)) && unary_step_outcome(UnaryStep::Mathop(o), x, cs.skip(ca.len() as int), Ok::<V, RunError<E>>(v));
    assert(cs =~= ca + cs.skip(ca.len() as int));
    assert(cs.skip(ca.len() as int).len() == 0 ==> cs =~= ca);
    assert(cs.skip(ca.len() as int).len() == 1 ==> cs =~= ca.push(cs.skip(ca.len() as int)[0]));
}


/// A length block gives the textual length of its input's value, as a number.
pub proof fn law_length_block<V: ScratchValue, E>(
    p: Program<V>,
    f: Seq<ProcedureArgumentsFrame<V>>,
    m: usize,
    a: Expression<V>,
    r: nat,
    cs: Seq<StateCall<V, E>>,
    v: V,
)
    requires
        expr_kind_outcome(p, f, m, ExprKind::OperatorLength { string: a }, r, cs, Ok::<V, RunError<E>>(v)),
    ensures
        exists|ca: Seq<StateCall<V, E>>, x: V|
            #![trigger expr_outcome(p, f, m, a, r, ca, Ok::<V, RunError<E>>(x))]
            expr_outcome(p, f, m, a, r, ca, Ok::<V, RunError<E>>(x)) && cs == ca && exists|len: usize| #[trigger] call_ensures(V::textual_length, (&x,), len) && call_ensures(V::from_int, (len as i64,), v),
{
    lemma_one_value_parts(p, f, m, a, r, cs, v, UnaryStep::Length);
    let (ca, x) = choose|ca: Seq<StateCall<V, E>>, x: V|
        ca.len() <= cs.len() && cs == ca + cs.skip(ca.len() as int) && expr_outcome(p, f, m, a, r, ca, Ok::<V, RunError<E>>(x)) && unary_step_outcome(UnaryStep::Length, x, cs.skip(ca.len() as int), Ok::<V, RunError<E>>(v));
    assert(cs =~= ca + cs.skip(ca.len() as int));
    assert(cs.skip(ca.len() as int).len() == 0 ==> cs =~= ca);
    assert(cs.skip(ca.len() as int).len() == 1 ==> cs =~= ca.push(cs.skip(ca.len() as int)[0]));
}


/// An item-of block evaluates its index input and then asks the state for the list's
/// item at that value; it gives what the state answered.
pub proof fn law_item_of_list_block<V: ScratchValue, E>(
    p: Program<V>,
    f: Seq<ProcedureArgumentsFrame<V>>,
    m: usize,
    list: List,
    a: Expression<V>,
    r: nat,
    cs: Seq<StateCall<V, E>>,
    v: V,
)
    requires
        expr_kind_outcome(p, f, m, ExprKind::DataItemOfList { list, index: a }, r, cs, Ok::<V, RunError<E>>(v)),
    ensures
        exists|ca: Seq<StateCall<V, E>>, x: V|
            #![trigger expr_outcome(p, f, m, a, r, ca, Ok::<V, RunError<E>>(x))]
            expr_outcome(p, f, m, a, r, ca, Ok::<V, RunError<E>>(x)) && cs == ca.push(StateCall::ItemOfList(list, x, Ok(v))),
{
    lemma_one_value_parts(p, f, m, a, r, cs, v, UnaryStep::ItemOfList(list));
    let (ca, x) = choose|ca: Seq<StateCall<V, E>>, x: V|
        ca.len() <= cs.len() && cs == ca + cs.skip(ca.len() as int) && expr_outcome(p, f, m, a, r, ca, Ok::<V, RunError<E>>(x)) && unary_step_outcome(UnaryStep::ItemOfList(list), x, cs.skip(ca.len() as int), Ok::<V, RunError<E>>(v));
    assert(cs =~= ca + cs.skip(ca.len() as int));
    assert(cs.skip(ca.len() as int).len() == 0 ==> cs =~= ca);
    assert(cs.skip(ca.len() as int).len() == 1 ==> cs =~= ca.push(cs.skip(ca.len() as int)[0]));
}


/// A random block evaluates its two inputs in order, reads both as numbers, and asks
/// the state for a random number between them (first input as the lower end); it gives
/// the number the state drew.
pub proof fn law_random_block<V: ScratchValue, E>(
    p: Program<V>,
    f: Seq<ProcedureArgumentsFrame<V>>,
    m: usize,
    a: Expression<V>,
    b: Expression<V>,
    r: nat,
    cs: Seq<StateCall<V, E>>,
    v: V,
)
    requires
        expr_kind_outcome(p, f, m, ExprKind::OperatorRandom { from: a, to: b }, r, cs, Ok::<V, RunError<E>>(v)),
    ensures
        exists|ca: Seq<StateCall<V, E>>, cb: Seq<StateCall<V, E>>, x: V, y: V, lo: V::Number, hi: V::Number, n: V::Number|
            #![trigger expr_outcome(p, f, m, a, r, ca, Ok::<V, RunError<E>>(x)), expr_outcome(p, f, m, b, r, cb, Ok::<V, RunError<E>>(y)), call_ensures(V::as_number, (&x,), lo), call_ensures(V::as_number, (&y,), hi), call_ensures(V::from_number, (n,), v)]
            cs == (ca + cb).push(StateCall::Random(lo, hi, Ok(n))) && expr_outcome(p, f, m, a, r, ca, Ok::<V, RunError<E>>(x)) && expr_outcome(p, f, m, b, r, cb, Ok::<V, RunError<E>>(y))
                && call_ensures(V::as_number, (&x,), lo) && call_ensures(V::as_number, (&y,), hi) && call_ensures(V::from_number, (n,), v),
{
    lemma_two_values_parts(p, f, m, a, b, r, cs, v, BinaryStep::Random);
    let (ca, cb, x, y) = choose|ca: Seq<StateCall<V, E>>, cb: Seq<StateCall<V, E>>, x: V, y: V|
        ca.len() + cb.len() <= cs.len() && cs == ca + cb + cs.skip((ca.len() + cb.len()) as int) && expr_outcome(p, f, m, a, r, ca, Ok::<V, RunError<E>>(x)) && expr_outcome(p, f, m, b, r, cb, Ok::<V, RunError<E>>(y))
            && binary_step_outcome(BinaryStep::Random, m, x, y, cs.skip((ca.len() + cb.len()) as int), Ok::<V, RunError<E>>(v));
    let rest = cs.skip((ca.len() + cb.len()) as int);
    let c = rest[0];
    assert(cs =~= (ca + cb).push(c));
    let lo = c->Random_0;
    let hi = c->Random_1;
    let n = c->Random_2->Ok_0;
    assert(call_ensures(V::from_number, (n,), v));
}


/// A string or number argument reporter whose name is bound, in the innermost frame
/// that binds it, to a value `w` gives a clone of `w`; it makes no call on the state.
pub proof fn law_text_argument_reads_its_binding<V: ScratchValue, E>(
    p: Program<V>,
    f: Seq<ProcedureArgumentsFrame<V>>,
    m: usize,
    name: String,
    r: nat,
    cs: Seq<StateCall<V, E>>,
    out: Result<V, RunError<E>>,
    key: ProcedureArgumentDef,
    w: V,
)
    requires
        expr_kind_outcome(p, f, m, ExprKind::ArgumentReporterStringNumber { value: name }, r, cs, out),
        frames_lookup(f, name@) == Some((key, Some(w))),
    ensures
        cs.len() == 0,
        out matches Ok(v) && cloned(w, v),
{
}


/// A string or number argument reporter whose name is bound to nothing, or to an empty
/// input, gives the empty text.
pub proof fn law_text_argument_unbound_is_empty<V: ScratchValue, E>(
    p: Program<V>,
    f: Seq<ProcedureArgumentsFrame<V>>,
    m: usize,
    name: String,
    r: nat,
    cs: Seq<StateCall<V, E>>,
    out: Result<V, RunError<E>>,
)
    requires
        expr_kind_outcome(p, f, m, ExprKind::ArgumentReporterStringNumber { value: name }, r, cs, out),
        !(frames_lookup(f, name@) matches Some((_, Some(_)))),
    ensures
        cs.len() == 0,
        out matches Ok(v) && call_ensures(V::empty_text, (), v),
{
}


/// A variable input makes exactly one call, reading that variable from the state, and
/// gives what the state answered.
pub proof fn law_variable_input_reads_the_state<V: ScratchValue, E>(
    p: Program<V>,
    f: Seq<ProcedureArgumentsFrame<V>>,
    m: usize,
    x: Variable,
    bound: nat,
    cs: Seq<StateCall<V, E>>,
    out: Result<V, RunError<E>>,
)
    requires
        expr_outcome(p, f, m, Expression::Var(x), bound, cs, out),
    ensures
        exists|rr: Result<V, E>| cs == seq![StateCall::ReadVariable(x, rr)] && out == lift(rr),
{
    let rr = cs[0]->ReadVariable_1;
    assert(cs =~= seq![StateCall::ReadVariable(x, rr)]);
}


/// A think block shows the value of its message input as a thought, and the next block
/// runs next.
pub proof fn law_think_shows_its_message<V: ScratchValue, E>(
    p: Program<V>,
    f: Seq<ProcedureArgumentsFrame<V>>,
    m: usize,
    id: usize,
    item: StackItem<usize>,
    next: Option<usize>,
    message: Expression<V>,
    s: Seq<StackItem<usize>>,
    s1: Seq<StackItem<usize>>,
    f1: Seq<ProcedureArgumentsFrame<V>>,
    cs: Seq<StateCall<V, E>>,
)
    requires
        stmt_outcome(p, f, m, id, item, next, StmtKind::LooksThink { message }, s, s1, f1, cs, Ok::<(), RunError<E>>(())),
    ensures
        f1 == f,
        s1 == with_on_top(s, next),
        exists|ca: Seq<StateCall<V, E>>, x: V|
            #![trigger expr_outcome(p, f, m, message, p.spec_blocks().len(), ca, Ok::<V, RunError<E>>(x))]
            cs == ca.push(StateCall::Output(OutputKind::Think, x)) && expr_outcome(p, f, m, message, p.spec_blocks().len(), ca, Ok::<V, RunError<E>>(x)),
{
    let fits = |x: V, c: StateCall<V, E>| c == StateCall::<V, E>::Output(OutputKind::Think, x);
    lemma_value_then_parts(p, f, m, message, s, next, s1, cs, fits);
    let (ca, x) = choose|ca: Seq<StateCall<V, E>>, x: V|
        #![trigger expr_outcome(p, f, m, message, p.spec_blocks().len(), ca, Ok::<V, RunError<E>>(x))]
        cs == ca.push(cs.last()) && expr_outcome(p, f, m, message, p.spec_blocks().len(), ca, Ok::<V, RunError<E>>(x)) && fits(x, cs.last());
    assert(cs.last() == StateCall::<V, E>::Output(OutputKind::Think, x));
}


/// An ask block asks the value of its question input, and the next block runs next once
/// the state took the question.
pub proof fn law_ask_asks_its_question<V: ScratchValue, E>(
    p: Program<V>,
    f: Seq<ProcedureArgumentsFrame<V>>,
    m: usize,
    id: usize,
    item: StackItem<usize>,
    next: Option<usize>,
    question: Expression<V>,
    s: Seq<StackItem<usize>>,
    s1: Seq<StackItem<usize>>,
    f1: Seq<ProcedureArgumentsFrame<V>>,
    cs: Seq<StateCall<V, E>>,
)
    requires
        stmt_outcome(p, f, m, id, item, next, StmtKind::SensingAskAndWait { question }, s, s1, f1, cs, Ok::<(), RunError<E>>(())),
    ensures
        f1 == f,
        s1 == with_on_top(s, next),
        exists|ca: Seq<StateCall<V, E>>, x: V|
            #![trigger expr_outcome(p, f, m, question, p.spec_blocks().len(), ca, Ok::<V, RunError<E>>(x))]
            cs == ca.push(StateCall::Ask(x, Ok(()))) && expr_outcome(p, f, m, question, p.spec_blocks().len(), ca, Ok::<V, RunError<E>>(x)),
{
    let fits = |x: V, c: StateCall<V, E>| c matches StateCall::Ask(v, _) && v == x;
    lemma_value_then_parts(p, f, m, question, s, next, s1, cs, fits);
    let (ca, x) = choose|ca: Seq<StateCall<V, E>>, x: V|
        #![trigger expr_outcome(p, f, m, question, p.spec_blocks().len(), ca, Ok::<V, RunError<E>>(x))]
        cs == ca.push(cs.last()) && expr_outcome(p, f, m, question, p.spec_blocks().len(), ca, Ok::<V, RunError<E>>(x)) && fits(x, cs.last());
    let u: () = unit_result(cs.last())->Ok_0;
    assert(u == () && unit_result(cs.last()) == Ok::<(), E>(()));
    assert(cs.last() == StateCall::<V, E>::Ask(x, Ok(())));
}


/// A set-variable block writes the value of its input to its variable, and the next
/// block runs next once the write succeeded.
pub proof fn law_set_variable_writes_the_value<V: ScratchValue, E>(
    p: Program<V>,
    f: Seq<ProcedureArgumentsFrame<V>>,
    m: usize,
    id: usize,
    item: StackItem<usize>,
    next: Option<usize>,
    variable: Variable,
    value: Expression<V>,
    s: Seq<StackItem<usize>>,
    s1: Seq<StackItem<usize>>,
    f1: Seq<ProcedureArgumentsFrame<V>>,
    cs: Seq<StateCall<V, E>>,
)
    requires
        stmt_outcome(p, f, m, id, item, next, StmtKind::DataSetVariableTo { variable, value }, s, s1, f1, cs, Ok::<(), RunError<E>>(())),
    ensures
        f1 == f,
        s1 == with_on_top(s, next),
        exists|ca: Seq<StateCall<V, E>>, x: V|
            #![trigger expr_outcome(p, f, m, value, p.spec_blocks().len(), ca, Ok::<V, RunError<E>>(x))]
            cs == ca.push(StateCall::SetVariable(variable, x, Ok(()))) && expr_outcome(p, f, m, value, p.spec_blocks().len(), ca, Ok::<V, RunError<E>>(x)),
{
    let fits = |x: V, c: StateCall<V, E>| c matches StateCall::SetVariable(w, v, _) && w == variable && v == x;
    lemma_value_then_parts(p, f, m, value, s, next, s1, cs, fits);
    let (ca, x) = choose|ca: Seq<StateCall<V, E>>, x: V|
        #![trigger expr_outcome(p, f, m, value, p.spec_blocks().len(), ca, Ok::<V, RunError<E>>(x))]
        cs == ca.push(cs.last()) && expr_outcome(p, f, m, value, p.spec_blocks().len(), ca, Ok::<V, RunError<E>>(x)) && fits(x, cs.last());
    let u: () = unit_result(cs.last())->Ok_0;
    assert(u == () && unit_result(cs.last()) == Ok::<(), E>(()));
    assert(cs.last() == StateCall::<V, E>::SetVariable(variable, x, Ok(())));
}


/// A change-variable block changes its variable by the value of its input, and the next
/// block runs next once the change succeeded.
pub proof fn law_change_variable_adds_the_value<V: ScratchValue, E>(
    p: Program<V>,
    f: Seq<ProcedureArgumentsFrame<V>>,
    m: usize,
    id: usize,
    item: StackItem<usize>,
    next: Option<usize>,
    variable: Variable,
    value: Expression<V>,
    s: Seq<StackItem<usize>>,
    s1: Seq<StackItem<usize>>,
    f1: Seq<ProcedureArgumentsFrame<V>>,
    cs: Seq<StateCall<V, E>>,
)
    requires
        stmt_outcome(p, f, m, id, item, next, StmtKind::DataChangeVariableBy { variable, value }, s, s1, f1, cs, Ok::<(), RunError<E>>(())),
    ensures
        f1 == f,
        s1 == with_on_top(s, next),
        exists|ca: Seq<StateCall<V, E>>, x: V|
            #![trigger expr_outcome(p, f, m, value, p.spec_blocks().len(), ca, Ok::<V, RunError<E>>(x))]
            cs == ca.push(StateCall::ChangeVariable(variable, x, Ok(()))) && expr_outcome(p, f, m, value, p.spec_blocks().len(), ca, Ok::<V, RunError<E>>(x)),
{
    let fits = |x: V, c: StateCall<V, E>| c matches StateCall::ChangeVariable(w, v, _) && w == variable && v == x;
    lemma_value_then_parts(p, f, m, value, s, next, s1, cs, fits);
    let (ca, x) = choose|ca: Seq<StateCall<V, E>>, x: V|
        #![trigger expr_outcome(p, f, m, value, p.spec_blocks().len(), ca, Ok::<V, RunError<E>>(x))]
        cs == ca.push(cs.last()) && expr_outcome(p, f, m, value, p.spec_blocks().len(), ca, Ok::<V, RunError<E>>(x)) && fits(x, cs.last());
    let u: () = unit_result(cs.last())->Ok_0;
    assert(u == () && unit_result(cs.last()) == Ok::<(), E>(()));
    assert(cs.last() == StateCall::<V, E>::ChangeVariable(variable, x, Ok(())));
}


/// An add-to-list block appends the value of its input to its list.
pub proof fn law_add_to_list_appends_the_value<V: ScratchValue, E>(
    p: Program<V>,
    f: Seq<ProcedureArgumentsFrame<V>>,
    m: usize,
    id: usize,
    item: StackItem<usize>,
    next: Option<usize>,
    list: List,
    e: Expression<V>,
    s: Seq<StackItem<usize>>,
    s1: Seq<StackItem<usize>>,
    f1: Seq<ProcedureArgumentsFrame<V>>,
    cs: Seq<StateCall<V, E>>,
)
    requires
        stmt_outcome(p, f, m, id, item, next, StmtKind::DataAddToList { list, item: e }, s, s1, f1, cs, Ok::<(), RunError<E>>(())),
    ensures
        f1 == f,
        s1 == with_on_top(s, next),
        exists|ca: Seq<StateCall<V, E>>, x: V|
            #![trigger expr_outcome(p, f, m, e, p.spec_blocks().len(), ca, Ok::<V, RunError<E>>(x))]
            cs == ca.push(StateCall::Append(list, x, Ok(()))) && expr_outcome(p, f, m, e, p.spec_blocks().len(), ca, Ok::<V, RunError<E>>(x)),
{
    let fits = |x: V, c: StateCall<V, E>| c matches StateCall::Append(l, i, _) && l == list && i == x;
    lemma_value_then_parts(p, f, m, e, s, next, s1, cs, fits);
    let (ca, x) = choose|ca: Seq<StateCall<V, E>>, x: V|
        #![trigger expr_outcome(p, f, m, e, p.spec_blocks().len(), ca, Ok::<V, RunError<E>>(x))]
        cs == ca.push(cs.last()) && expr_outcome(p, f, m, e, p.spec_blocks().len(), ca, Ok::<V, RunError<E>>(x)) && fits(x, cs.last());
    let u: () = unit_result(cs.last())->Ok_0;
    assert(u == () && unit_result(cs.last()) == Ok::<(), E>(()));
    assert(cs.last() == StateCall::<V, E>::Append(list, x, Ok(())));
}


/// A delete-of-list block deletes the item of its list at the value of its index input.
pub proof fn law_delete_of_list_deletes_at_the_value<V: ScratchValue, E>(
    p: Program<V>,
    f: Seq<ProcedureArgumentsFrame<V>>,
    m: usize,
    id: usize,
    item: StackItem<usize>,
    next: Option<usize>,
    list: List,
    index: Expression<V>,
    s: Seq<StackItem<usize>>,
    s1: Seq<StackItem<usize>>,
    f1: Seq<ProcedureArgumentsFrame<V>>,
    cs: Seq<StateCall<V, E>>,
)
    requires
        stmt_outcome(p, f, m, id, item, next, StmtKind::DataDeleteOfList { list, index }, s, s1, f1, cs, Ok::<(), RunError<E>>(())),
    ensures
        f1 == f,
        s1 == with_on_top(s, next),
        exists|ca: Seq<StateCall<V, E>>, x: V|
            #![trigger expr_outcome(p, f, m, index, p.spec_blocks().len(), ca, Ok::<V, RunError<E>>(x))]
            cs == ca.push(StateCall::DeleteOf(list, x, Ok(()))) && expr_outcome(p, f, m, index, p.spec_blocks().len(), ca, Ok::<V, RunError<E>>(x)),
{
    let fits = |x: V, c: StateCall<V, E>| c matches StateCall::DeleteOf(l, i, _) && l == list && i == x;
    lemma_value_then_parts(p, f, m, index, s, next, s1, cs, fits);
    let (ca, x) = choose|ca: Seq<StateCall<V, E>>, x: V|
        #![trigger expr_outcome(p, f, m, index, p.spec_blocks().len(), ca, Ok::<V, RunError<E>>(x))]
        cs == ca.push(cs.last()) && expr_outcome(p, f, m, index, p.spec_blocks().len(), ca, Ok::<V, RunError<E>>(x)) && fits(x, cs.last());
    let u: () = unit_result(cs.last())->Ok_0;
    assert(u == () && unit_result(cs.last()) == Ok::<(), E>(()));
    assert(cs.last() == StateCall::<V, E>::DeleteOf(list, x, Ok(())));
}


/// An insert block evaluates its index, then its item, and inserts the item's value
/// into its list at the index's value.
pub proof fn law_insert_at_list_inserts_the_item<V: ScratchValue, E>(
    p: Program<V>,
    f: Seq<ProcedureArgumentsFrame<V>>,
    m: usize,
    id: usize,
    item: StackItem<usize>,
    next: Option<usize>,
    list: List,
    index: Expression<V>,
    e: Expression<V>,
    s: Seq<StackItem<usize>>,
    s1: Seq<StackItem<usize>>,
    f1: Seq<ProcedureArgumentsFrame<V>>,
    cs: Seq<StateCall<V, E>>,
)
    requires
        stmt_outcome(p, f, m, id, item, next, StmtKind::DataInsertAtList { list, index, item: e }, s, s1, f1, cs, Ok::<(), RunError<E>>(())),
    ensures
        f1 == f,
        s1 == with_on_top(s, next),
        exists|ca: Seq<StateCall<V, E>>, cb: Seq<StateCall<V, E>>, x: V, y: V|
            #![trigger expr_outcome(p, f, m, index, p.spec_blocks().len(), ca, Ok::<V, RunError<E>>(x)), expr_outcome(p, f, m, e, p.spec_blocks().len(), cb, Ok::<V, RunError<E>>(y))]
            cs == (ca + cb).push(StateCall::Insert(list, x, y, Ok(()))) && expr_outcome(p, f, m, index, p.spec_blocks().len(), ca, Ok::<V, RunError<E>>(x)) && expr_outcome(p, f, m, e, p.spec_blocks().len(), cb, Ok::<V, RunError<E>>(y)),
{
    let fits = |x: V, y: V, c: StateCall<V, E>| c matches StateCall::Insert(l, i, v, _) && l == list && i == x && v == y;
    lemma_two_values_then_parts(p, f, m, index, e, s, next, s1, cs, fits);
    let (ca, cb, x, y) = choose|ca: Seq<StateCall<V, E>>, cb: Seq<StateCall<V, E>>, x: V, y: V|
        #![trigger expr_outcome(p, f, m, index, p.spec_blocks().len(), ca, Ok::<V, RunError<E>>(x)), expr_outcome(p, f, m, e, p.spec_blocks().len(), cb, Ok::<V, RunError<E>>(y))]
        cs == (ca + cb).push(cs.last()) && expr_outcome(p, f, m, index, p.spec_blocks().len(), ca, Ok::<V, RunError<E>>(x)) && expr_outcome(p, f, m, e, p.spec_blocks().len(), cb, Ok::<V, RunError<E>>(y)) && fits(x, y, cs.last());
    let u: () = unit_result(cs.last())->Ok_0;
    assert(u == () && unit_result(cs.last()) == Ok::<(), E>(()));
    assert(cs.last() == StateCall::<V, E>::Insert(list, x, y, Ok(())));
}


/// A replace block evaluates its index, then its item, and replaces the list's item at
/// the index's value with the item's value.
pub proof fn law_replace_item_replaces_with_the_item<V: ScratchValue, E>(
    p: Program<V>,
    f: Seq<ProcedureArgumentsFrame<V>>,
    m: usize,
    id: usize,
    item: StackItem<usize>,
    next: Option<usize>,
    list: List,
    index: Expression<V>,
    e: Expression<V>,
    s: Seq<StackItem<usize>>,
    s1: Seq<StackItem<usize>>,
    f1: Seq<ProcedureArgumentsFrame<V>>,
    cs: Seq<StateCall<V, E>>,
)
    requires
        stmt_outcome(p, f, m, id, item, next, StmtKind::DataReplaceItemOfList { list, index, item: e }, s, s1, f1, cs, Ok::<(), RunError<E>>(())),
    ensures
        f1 == f,
        s1 == with_on_top(s, next),
        exists|ca: Seq<StateCall<V, E>>, cb: Seq<StateCall<V, E>>, x: V, y: V|
            #![trigger expr_outcome(p, f, m, index, p.spec_blocks().len(), ca, Ok::<V, RunError<E>>(x)), expr_outcome(p, f, m, e, p.spec_blocks().len(), cb, Ok::<V, RunError<E>>(y))]
            cs == (ca + cb).push(StateCall::Replace(list, x, y, Ok(()))) && expr_outcome(p, f, m, index, p.spec_blocks().len(), ca, Ok::<V, RunError<E>>(x)) && expr_outcome(p, f, m, e, p.spec_blocks().len(), cb, Ok::<V, RunError<E>>(y)),
{
    let fits = |x: V, y: V, c: StateCall<V, E>| c matches StateCall::Replace(l, i, v, _) && l == list && i == x && v == y;
    lemma_two_values_then_parts(p, f, m, index, e, s, next, s1, cs, fits);
    let (ca, cb, x, y) = choose|ca: Seq<StateCall<V, E>>, cb: Seq<StateCall<V, E>>, x: V, y: V|
        #![trigger expr_outcome(p, f, m, index, p.spec_blocks().len(), ca, Ok::<V, RunError<E>>(x)), expr_outcome(p, f, m, e, p.spec_blocks().len(), cb, Ok::<V, RunError<E>>(y))]
        cs == (ca + cb).push(cs.last()) && expr_outcome(p, f, m, index, p.spec_blocks().len(), ca, Ok::<V, RunError<E>>(x)) && expr_outcome(p, f, m, e, p.spec_blocks().len(), cb, Ok::<V, RunError<E>>(y)) && fits(x, y, cs.last());
    let u: () = unit_result(cs.last())->Ok_0;
    assert(u == () && unit_result(cs.last()) == Ok::<(), E>(()));
    assert(cs.last() == StateCall::<V, E>::Replace(list, x, y, Ok(())));
}


/// A timed say block evaluates its seconds, then its message, and shows the
/// message's value (not the seconds) for the seconds read as a float.
pub proof fn law_say_for_secs_shows_its_message<V: ScratchValue, E>(
    p: Program<V>,
    f: Seq<ProcedureArgumentsFrame<V>>,
    m: usize,
    id: usize,
    item: StackItem<usize>,
    next: Option<usize>,
    message: Expression<V>,
    secs: Expression<V>,
    s: Seq<StackItem<usize>>,
    s1: Seq<StackItem<usize>>,
    f1: Seq<ProcedureArgumentsFrame<V>>,
    cs: Seq<StateCall<V, E>>,
)
    requires
        stmt_outcome(p, f, m, id, item, next, StmtKind::LooksSayForSecs { message, secs }, s, s1, f1, cs, Ok::<(), RunError<E>>(())),
    ensures
        f1 == f,
        s1 == with_on_top(s, next),
        exists|ca: Seq<StateCall<V, E>>, cb: Seq<StateCall<V, E>>, x: V, y: V, fl: V::Float|
            #![trigger expr_outcome(p, f, m, secs, p.spec_blocks().len(), ca, Ok::<V, RunError<E>>(x)), expr_outcome(p, f, m, message, p.spec_blocks().len(), cb, Ok::<V, RunError<E>>(y)), call_ensures(V::as_float, (&x,), fl)]
            cs == (ca + cb).push(StateCall::Output(OutputKind::SayFor(fl), y)) && expr_outcome(p, f, m, secs, p.spec_blocks().len(), ca, Ok::<V, RunError<E>>(x)) && expr_outcome(p, f, m, message, p.spec_blocks().len(), cb, Ok::<V, RunError<E>>(y)) && call_ensures(V::as_float, (&x,), fl),
{
    let fits = |x: V, y: V, c: StateCall<V, E>| c matches StateCall::Output(k, v) && v == y && timed_output(false, x, k);
    lemma_two_values_then_parts(p, f, m, secs, message, s, next, s1, cs, fits);
    let (ca, cb, x, y) = choose|ca: Seq<StateCall<V, E>>, cb: Seq<StateCall<V, E>>, x: V, y: V|
        #![trigger expr_outcome(p, f, m, secs, p.spec_blocks().len(), ca, Ok::<V, RunError<E>>(x)), expr_outcome(p, f, m, message, p.spec_blocks().len(), cb, Ok::<V, RunError<E>>(y))]
        cs == (ca + cb).push(cs.last()) && expr_outcome(p, f, m, secs, p.spec_blocks().len(), ca, Ok::<V, RunError<E>>(x)) && expr_outcome(p, f, m, message, p.spec_blocks().len(), cb, Ok::<V, RunError<E>>(y)) && fits(x, y, cs.last());
    let fl = choose|fl: V::Float| #[trigger] call_ensures(V::as_float, (&x,), fl) && cs.last()->Output_0 == OutputKind::SayFor(fl);
    assert(cs.last() == StateCall::<V, E>::Output(OutputKind::SayFor(fl), y));
}


/// A timed think block evaluates its seconds, then its message, and shows the
/// message's value (not the seconds) for the seconds read as a float.
pub proof fn law_think_for_secs_shows_its_message<V: ScratchValue, E>(
    p: Program<V>,
    f: Seq<ProcedureArgumentsFrame<V>>,
    m: usize,
    id: usize,
    item: StackItem<usize>,
    next: Option<usize>,
    message: Expression<V>,
    secs: Expression<V>,
    s: Seq<StackItem<usize>>,
    s1: Seq<StackItem<usize>>,
    f1: Seq<ProcedureArgumentsFrame<V>>,
    cs: Seq<StateCall<V, E>>,
)
    requires
        stmt_outcome(p, f, m, id, item, next, StmtKind::LooksThinkForSecs { message, secs }, s, s1, f1, cs, Ok::<(), RunError<E>>(())),
    ensures
        f1 == f,
        s1 == with_on_top(s, next),
        exists|ca: Seq<StateCall<V, E>>, cb: Seq<StateCall<V, E>>, x: V, y: V, fl: V::Float|
            #![trigger expr_outcome(p, f, m, secs, p.spec_blocks().len(), ca, Ok::<V, RunError<E>>(x)), expr_outcome(p, f, m, message, p.spec_blocks().len(), cb, Ok::<V, RunError<E>>(y)), call_ensures(V::as_float, (&x,), fl)]
            cs == (ca + cb).push(StateCall::Output(OutputKind::ThinkFor(fl), y)) && expr_outcome(p, f, m, secs, p.spec_blocks().len(), ca, Ok::<V, RunError<E>>(x)) && expr_outcome(p, f, m, message, p.spec_blocks().len(), cb, Ok::<V, RunError<E>>(y)) && call_ensures(V::as_float, (&x,), fl),
{
    let fits = |x: V, y: V, c: StateCall<V, E>| c matches StateCall::Output(k, v) && v == y && timed_output(true, x, k);
    lemma_two_values_then_parts(p, f, m, secs, message, s, next, s1, cs, fits);
    let (ca, cb, x, y) = choose|ca: Seq<StateCall<V, E>>, cb: Seq<StateCall<V, E>>, x: V, y: V|
        #![trigger expr_outcome(p, f, m, secs, p.spec_blocks().len(), ca, Ok::<V, RunError<E>>(x)), expr_outcome(p, f, m, message, p.spec_blocks().len(), cb, Ok::<V, RunError<E>>(y))]
        cs == (ca + cb).push(cs.last()) && expr_outcome(p, f, m, secs, p.spec_blocks().len(), ca, Ok::<V, RunError<E>>(x)) && expr_outcome(p, f, m, message, p.spec_blocks().len(), cb, Ok::<V, RunError<E>>(y)) && fits(x, y, cs.last());
    let fl = choose|fl: V::Float| #[trigger] call_ensures(V::as_float, (&x,), fl) && cs.last()->Output_0 == OutputKind::ThinkFor(fl);
    assert(cs.last() == StateCall::<V, E>::Output(OutputKind::ThinkFor(fl), y));
}


/// A wait block waits for the value of its input read as a number, and the next block
/// runs next.
pub proof fn law_wait_waits_for_the_value<V: ScratchValue, E>(
    p: Program<V>,
    f: Seq<ProcedureArgumentsFrame<V>>,
    m: usize,
    id: usize,
    item: StackItem<usize>,
    next: Option<usize>,
    duration: Expression<V>,
    s: Seq<StackItem<usize>>,
    s1: Seq<StackItem<usize>>,
    f1: Seq<ProcedureArgumentsFrame<V>>,
    cs: Seq<StateCall<V, E>>,
)
    requires
        stmt_outcome(p, f, m, id, item, next, StmtKind::ControlWait { duration }, s, s1, f1, cs, Ok::<(), RunError<E>>(())),
    ensures
        f1 == f,
        s1 == with_on_top(s, next),
        exists|ca: Seq<StateCall<V, E>>, x: V, n: V::Number|
            #![trigger expr_outcome(p, f, m, duration, p.spec_blocks().len(), ca, Ok::<V, RunError<E>>(x)), call_ensures(V::as_number, (&x,), n)]
            cs == ca.push(StateCall::Wait(n, Ok(()))) && expr_outcome(p, f, m, duration, p.spec_blocks().len(), ca, Ok::<V, RunError<E>>(x)) && call_ensures(V::as_number, (&x,), n),
{
    let fits = |x: V, c: StateCall<V, E>| c matches StateCall::Wait(n, _) && call_ensures(V::as_number, (&x,), n);
    lemma_value_then_parts(p, f, m, duration, s, next, s1, cs, fits);
    let (ca, x) = choose|ca: Seq<StateCall<V, E>>, x: V|
        #![trigger expr_outcome(p, f, m, duration, p.spec_blocks().len(), ca, Ok::<V, RunError<E>>(x))]
        cs == ca.push(cs.last()) && expr_outcome(p, f, m, duration, p.spec_blocks().len(), ca, Ok::<V, RunError<E>>(x)) && fits(x, cs.last());
    let n = cs.last()->Wait_0;
    let u: () = unit_result(cs.last())->Ok_0;
    assert(u == () && unit_result(cs.last()) == Ok::<(), E>(()));
    assert(cs.last() == StateCall::<V, E>::Wait(n, Ok(())));
}
/// An if block whose step succeeds evaluated its condition on the step's calls; when
/// the condition was true its body runs next, and the block's next block after it;
/// when false, only the next block.
pub proof fn law_if_block<V: ScratchValue, E>(
    p: Program<V>,
    f: Seq<ProcedureArgumentsFrame<V>>,
    m: usize,
    id: usize,
    item: StackItem<usize>,
    next: Option<usize>,
    condition: Option<usize>,
    substack: Option<usize>,
    s: Seq<StackItem<usize>>,
    s1: Seq<StackItem<usize>>,
    f1: Seq<ProcedureArgumentsFrame<V>>,
    cs: Seq<StateCall<V, E>>,
)
    requires
        stmt_outcome(p, f, m, id, item, next, StmtKind::ControlIf { condition, substack }, s, s1, f1, cs, Ok::<(), RunError<E>>(())),
    ensures
        f1 == f,
        exists|b: bool|
            #![trigger cond_ref_outcome(p, f, m, condition, p.spec_blocks().len(), cs, Ok::<bool, RunError<E>>(b))]
            cond_ref_outcome(p, f, m, condition, p.spec_blocks().len(), cs, Ok::<bool, RunError<E>>(b)) && s1 == if b {
                with_on_top(with_on_top(s, next), substack)
            } else {
                with_on_top(s, next)
            },
{
    let ok = Ok::<(), RunError<E>>(());
    lemma_cond_then_parts(p, f, m, condition, s, s1, cs, ok, (ok, push_next(push_next(s, next), substack)), (ok, push_next(s, next)));
}

/// An if-else block whose step succeeds evaluated its condition on the step's calls;
/// the first body runs next when it was true, the second when it was false, and the
/// block's next block after either.
pub proof fn law_if_else_block<V: ScratchValue, E>(
    p: Program<V>,
    f: Seq<ProcedureArgumentsFrame<V>>,
    m: usize,
    id: usize,
    item: StackItem<usize>,
    next: Option<usize>,
    condition: Option<usize>,
    substack: Option<usize>,
    substack2: Option<usize>,
    s: Seq<StackItem<usize>>,
    s1: Seq<StackItem<usize>>,
    f1: Seq<ProcedureArgumentsFrame<V>>,
    cs: Seq<StateCall<V, E>>,
)
    requires
        stmt_outcome(p, f, m, id, item, next, StmtKind::ControlIfElse { condition, substack, substack2 }, s, s1, f1, cs, Ok::<(), RunError<E>>(())),
    ensures
        f1 == f,
        exists|b: bool|
            #![trigger cond_ref_outcome(p, f, m, condition, p.spec_blocks().len(), cs, Ok::<bool, RunError<E>>(b))]
            cond_ref_outcome(p, f, m, condition, p.spec_blocks().len(), cs, Ok::<bool, RunError<E>>(b)) && s1 == with_on_top(with_on_top(s, next), if b { substack } else { substack2 }),
{
    let ok = Ok::<(), RunError<E>>(());
    lemma_cond_then_parts(p, f, m, condition, push_next(s, next), s1, cs, ok, (ok, push_next(push_next(s, next), substack)), (ok, push_next(push_next(s, next), substack2)));
}

/// A repeat-until block whose step succeeds evaluated its condition on the step's
/// calls: when it was true the next block runs next; when false the block has a body,
/// which runs next, with the block itself below it to test again.
pub proof fn law_repeat_until_block<V: ScratchValue, E>(
    p: Program<V>,
    f: Seq<ProcedureArgumentsFrame<V>>,
    m: usize,
    id: usize,
    item: StackItem<usize>,
    next: Option<usize>,
    condition: Option<usize>,
    substack: Option<usize>,
    s: Seq<StackItem<usize>>,
    s1: Seq<StackItem<usize>>,
    f1: Seq<ProcedureArgumentsFrame<V>>,
    cs: Seq<StateCall<V, E>>,
)
    requires
        stmt_outcome(p, f, m, id, item, next, StmtKind::ControlRepeatUntil { condition, substack }, s, s1, f1, cs, Ok::<(), RunError<E>>(())),
    ensures
        f1 == f,
        exists|b: bool|
            #![trigger cond_ref_outcome(p, f, m, condition, p.spec_blocks().len(), cs, Ok::<bool, RunError<E>>(b))]
            cond_ref_outcome(p, f, m, condition, p.spec_blocks().len(), cs, Ok::<bool, RunError<E>>(b)) && if b {
                s1 == with_on_top(s, next)
            } else {
                substack is Some && s1 == s.push(item).push(StackItem::Normal(substack->0))
            },
{
    let ok = Ok::<(), RunError<E>>(());
    lemma_cond_then_parts(p, f, m, condition, s, s1, cs, ok, (ok, push_next(s, next)), match substack {
        Some(bb) => (ok, s.push(item).push(StackItem::Normal(bb))),
        None => (Err(RunError::User(crate::error::UserError::ConditionLoopWithoutBodyNeverStops)), s),
    });
}

/// A repeat block reached for the first time evaluates its count input (its calls are
/// the step's) and reads it as an integer `n`: with `n` at most zero the next block
/// runs next; otherwise its body runs next, with a counting item for the `n - 1`
/// rounds left below it.
pub proof fn law_repeat_first_round<V: ScratchValue, E>(
    p: Program<V>,
    f: Seq<ProcedureArgumentsFrame<V>>,
    m: usize,
    id: usize,
    item: StackItem<usize>,
    next: Option<usize>,
    times: Expression<V>,
    substack: Option<usize>,
    s: Seq<StackItem<usize>>,
    s1: Seq<StackItem<usize>>,
    f1: Seq<ProcedureArgumentsFrame<V>>,
    cs: Seq<StateCall<V, E>>,
)
    requires
        item is Normal,
        stmt_outcome(p, f, m, id, item, next, StmtKind::ControlRepeat { times, substack }, s, s1, f1, cs, Ok::<(), RunError<E>>(())),
    ensures
        f1 == f,
        exists|x: V, n: i64|
            #![trigger expr_outcome(p, f, m, times, p.spec_blocks().len(), cs, Ok::<V, RunError<E>>(x)), call_ensures(V::int_or_border, (&x,), n)]
            expr_outcome(p, f, m, times, p.spec_blocks().len(), cs, Ok::<V, RunError<E>>(x)) && call_ensures(V::int_or_border, (&x,), n)
                && (n <= 0 ==> s1 == with_on_top(s, next))
                && (0 < n <= usize::MAX ==> s1 == with_on_top(s.push(StackItem::CountLoop(id, (n - 1) as usize)), substack)),
{
    let len = p.spec_blocks().len();
    let oa = choose|oa: Result<V, RunError<E>>|
        #![trigger evaluated(times, len, (cs, oa))]
        evaluated(times, len, (cs, oa)) && expr_outcome(p, f, m, times, len, cs, oa) && match oa {
            Err(_) => same_err(oa, Ok::<(), RunError<E>>(())) && s1 == s,
            Ok(x) => Ok::<(), RunError<E>>(()) == Ok::<(), RunError<E>>(()) && exists|n: i64|
                #![trigger call_ensures(V::int_or_border, (&x,), n)]
                call_ensures(V::int_or_border, (&x,), n) && s1 == repeat_push(s, id, next, substack, repeat_count(n)),
        };
    let x = oa->Ok_0;
    let n = choose|n: i64| #[trigger] call_ensures(V::int_or_border, (&x,), n) && s1 == repeat_push(s, id, next, substack, repeat_count(n));
    assert(expr_outcome(p, f, m, times, len, cs, Ok::<V, RunError<E>>(x)));
}

/// A repeat block reached through its counting item with `k` rounds left makes no call:
/// with none left the next block runs next, otherwise its body runs next with a
/// counting item for `k - 1` rounds below it.
pub proof fn law_repeat_later_round<V: ScratchValue, E>(
    p: Program<V>,
    f: Seq<ProcedureArgumentsFrame<V>>,
    m: usize,
    id: usize,
    item: StackItem<usize>,
    next: Option<usize>,
    times: Expression<V>,
    substack: Option<usize>,
    s: Seq<StackItem<usize>>,
    s1: Seq<StackItem<usize>>,
    f1: Seq<ProcedureArgumentsFrame<V>>,
    cs: Seq<StateCall<V, E>>,
    out: Result<(), RunError<E>>,
    owner: usize,
    k: usize,
)
    requires
        item == StackItem::CountLoop(owner, k),
        stmt_outcome(p, f, m, id, item, next, StmtKind::ControlRepeat { times, substack }, s, s1, f1, cs, out),
    ensures
        f1 == f,
        cs.len() == 0,
        out is Ok,
        k == 0 ==> s1 == with_on_top(s, next),
        k > 0 ==> s1 == with_on_top(s.push(StackItem::CountLoop(id, (k - 1) as usize)), substack),
{
}

/// A forever block makes no call: with a body, the body runs next with the block itself
/// below it; without one, the run ends with the endless-loop error.
pub proof fn law_forever_block<V: ScratchValue, E>(
    p: Program<V>,
    f: Seq<ProcedureArgumentsFrame<V>>,
    m: usize,
    id: usize,
    item: StackItem<usize>,
    next: Option<usize>,
    substack: Option<usize>,
    s: Seq<StackItem<usize>>,
    s1: Seq<StackItem<usize>>,
    f1: Seq<ProcedureArgumentsFrame<V>>,
    cs: Seq<StateCall<V, E>>,
    out: Result<(), RunError<E>>,
)
    requires
        stmt_outcome(p, f, m, id, item, next, StmtKind::ControlForever { substack }, s, s1, f1, cs, out),
    ensures
        f1 == f,
        cs.len() == 0,
        substack matches Some(b) ==> out is Ok && s1 == s.push(item).push(StackItem::Normal(b)),
        substack is None ==> out == Err::<(), RunError<E>>(RunError::User(crate::error::UserError::InfiniteLoopWithoutBodyNeverStops)),
{
}

/// A stop block makes no call and ends the run with the stop outcome.
pub proof fn law_stop_block<V: ScratchValue, E>(
    p: Program<V>,
    f: Seq<ProcedureArgumentsFrame<V>>,
    m: usize,
    id: usize,
    item: StackItem<usize>,
    next: Option<usize>,
    s: Seq<StackItem<usize>>,
    s1: Seq<StackItem<usize>>,
    f1: Seq<ProcedureArgumentsFrame<V>>,
    cs: Seq<StateCall<V, E>>,
    out: Result<(), RunError<E>>,
)
    requires
        stmt_outcome(p, f, m, id, item, next, StmtKind::ControlStop, s, s1, f1, cs, out),
    ensures
        cs.len() == 0,
        out == Err::<(), RunError<E>>(RunError::TerminatedByControlStop),
        s1 == s,
        f1 == f,
{
}

/// A delete-all block whose step succeeds made one call, emptying its list, and the
/// next block runs next.
pub proof fn law_delete_all_empties_the_list<V: ScratchValue, E>(
    p: Program<V>,
    f: Seq<ProcedureArgumentsFrame<V>>,
    m: usize,
    id: usize,
    item: StackItem<usize>,
    next: Option<usize>,
    list: List,
    s: Seq<StackItem<usize>>,
    s1: Seq<StackItem<usize>>,
    f1: Seq<ProcedureArgumentsFrame<V>>,
    cs: Seq<StateCall<V, E>>,
)
    requires
        stmt_outcome(p, f, m, id, item, next, StmtKind::DataDeleteAllOfList { list }, s, s1, f1, cs, Ok::<(), RunError<E>>(())),
    ensures
        f1 == f,
        s1 == with_on_top(s, next),
        cs.len() == 1 && cs[0] is DeleteAll && cs[0]->DeleteAll_0 == list && cs[0]->DeleteAll_1 is Ok,
{
}

/// A statement that neither loops, branches nor calls a procedure goes on with its next
/// block when its step succeeds: the next block, if any, is pushed, and nothing else
/// changes on the stack or in the frames.
pub proof fn law_plain_statements_go_on_with_next<V: ScratchValue, E>(
    p: Program<V>,
    f: Seq<ProcedureArgumentsFrame<V>>,
    m: usize,
    id: usize,
    item: StackItem<usize>,
    next: Option<usize>,
    st: StmtKind<V>,
    s: Seq<StackItem<usize>>,
    s1: Seq<StackItem<usize>>,
    f1: Seq<ProcedureArgumentsFrame<V>>,
    cs: Seq<StateCall<V, E>>,
)
    requires
        st is NoEffect || st is ControlWait || st is ControlWaitUntil || st is DataAddToList || st is DataDeleteOfList
            || st is DataInsertAtList || st is DataDeleteAllOfList || st is DataSetVariableTo || st is DataReplaceItemOfList
            || st is DataChangeVariableBy || st is LooksSay || st is LooksThink || st is LooksThinkForSecs
            || st is LooksSayForSecs || st is SensingAskAndWait,
        stmt_outcome(p, f, m, id, item, next, st, s, s1, f1, cs, Ok::<(), RunError<E>>(())),
    ensures
        f1 == f,
        s1 == with_on_top(s, next),
{
    match st {
        StmtKind::ControlWait { duration } => law_wait_waits_for_the_value(p, f, m, id, item, next, duration, s, s1, f1, cs),
        StmtKind::ControlWaitUntil { condition } => law_wait_until_goes_on_when_true(p, f, m, id, item, next, condition, s, s1, f1, cs),
        StmtKind::DataAddToList { list, item: e } => law_add_to_list_appends_the_value(p, f, m, id, item, next, list, e, s, s1, f1, cs),
        StmtKind::DataDeleteOfList { list, index } => law_delete_of_list_deletes_at_the_value(p, f, m, id, item, next, list, index, s, s1, f1, cs),
        StmtKind::DataInsertAtList { list, index, item: e } => law_insert_at_list_inserts_the_item(p, f, m, id, item, next, list, index, e, s, s1, f1, cs),
        StmtKind::DataDeleteAllOfList { list } => law_delete_all_empties_the_list(p, f, m, id, item, next, list, s, s1, f1, cs),
        StmtKind::DataSetVariableTo { variable, value } => law_set_variable_writes_the_value(p, f, m, id, item, next, variable, value, s, s1, f1, cs),
        StmtKind::DataReplaceItemOfList { list, index, item: e } => law_replace_item_replaces_with_the_item(p, f, m, id, item, next, list, index, e, s, s1, f1, cs),
        StmtKind::DataChangeVariableBy { variable, value } => law_change_variable_adds_the_value(p, f, m, id, item, next, variable, value, s, s1, f1, cs),
        StmtKind::LooksSay { message } => law_say_shows_its_message(p, f, m, id, item, next, message, s, s1, f1, cs),
        StmtKind::LooksThink { message } => law_think_shows_its_message(p, f, m, id, item, next, message, s, s1, f1, cs),
        StmtKind::LooksThinkForSecs { message, secs } => law_think_for_secs_shows_its_message(p, f, m, id, item, next, message, secs, s, s1, f1, cs),
        StmtKind::LooksSayForSecs { message, secs } => law_say_for_secs_shows_its_message(p, f, m, id, item, next, message, secs, s, s1, f1, cs),
        StmtKind::SensingAskAndWait { question } => law_ask_asks_its_question(p, f, m, id, item, next, question, s, s1, f1, cs),
        _ => {},
    }
}

/// A length-of-list block makes one call, asking the state for its list's length, and
/// gives that length as a number.
pub proof fn law_length_of_list_block<V: ScratchValue, E>(
    p: Program<V>,
    f: Seq<ProcedureArgumentsFrame<V>>,
    m: usize,
    list: List,
    r: nat,
    cs: Seq<StateCall<V, E>>,
    v: V,
)
    requires
        expr_kind_outcome(p, f, m, ExprKind::DataLengthOfList { list }, r, cs, Ok::<V, RunError<E>>(v)),
    ensures
        cs.len() == 1,
        cs[0] matches StateCall::LengthOfList(l, Ok(n)) && l == list && call_ensures(V::from_int, (n,), v),
{
}

/// An answer block makes one call, asking the state for the last answer, and gives that
/// text.
pub proof fn law_answer_block<V: ScratchValue, E>(
    p: Program<V>,
    f: Seq<ProcedureArgumentsFrame<V>>,
    m: usize,
    r: nat,
    cs: Seq<StateCall<V, E>>,
    v: V,
)
    requires
        expr_kind_outcome(p, f, m, ExprKind::SensingAnswer, r, cs, Ok::<V, RunError<E>>(v)),
    ensures
        cs.len() == 1,
        cs[0] matches StateCall::Answer(Ok(t)) && call_ensures(V::from_text, (t,), v),
{
}

/// An item-number block evaluates its item input, then asks the state for the position
/// of that value in its list, and gives that position as a number.
pub proof fn law_item_number_of_list_block<V: ScratchValue, E>(
    p: Program<V>,
    f: Seq<ProcedureArgumentsFrame<V>>,
    m: usize,
    list: List,
    a: Expression<V>,
    r: nat,
    cs: Seq<StateCall<V, E>>,
    v: V,
)
    requires
        expr_kind_outcome(p, f, m, ExprKind::DataItemNumOfList { list, item: a }, r, cs, Ok::<V, RunError<E>>(v)),
    ensures
        exists|ca: Seq<StateCall<V, E>>, x: V, n: i64|
            #![trigger expr_outcome(p, f, m, a, r, ca, Ok::<V, RunError<E>>(x)), call_ensures(V::from_int, (n,), v)]
            expr_outcome(p, f, m, a, r, ca, Ok::<V, RunError<E>>(x)) && cs == ca.push(StateCall::ItemNumOfList(list, x, Ok(n)))
                && call_ensures(V::from_int, (n,), v),
{
    lemma_one_value_parts(p, f, m, a, r, cs, v, UnaryStep::ItemNumOfList(list));
    let (ca, x) = choose|ca: Seq<StateCall<V, E>>, x: V|
        ca.len() <= cs.len() && cs == ca + cs.skip(ca.len() as int) && expr_outcome(p, f, m, a, r, ca, Ok::<V, RunError<E>>(x))
            && unary_step_outcome(UnaryStep::ItemNumOfList(list), x, cs.skip(ca.len() as int), Ok::<V, RunError<E>>(v));
    let c = cs.skip(ca.len() as int)[0];
    assert(cs =~= ca.push(c));
    let n = c->ItemNumOfList_2->Ok_0;
    assert(call_ensures(V::from_int, (n,), v));
}

/// A procedure call started from a normal stack item that succeeds found the first
/// procedure with the called identifier; its definition block runs next, with a
/// reminder to drop the new frame below it and the call's next block below that; the
/// new frame is pushed on the others and names the called procedure.
pub proof fn law_call_runs_the_procedure<V: ScratchValue, E>(
    p: Program<V>,
    f: Seq<ProcedureArgumentsFrame<V>>,
    m: usize,
    id: usize,
    item: StackItem<usize>,
    next: Option<usize>,
    procedure_id: String,
    arguments: Vec<(String, Option<Expression<V>>)>,
    s: Seq<StackItem<usize>>,
    s1: Seq<StackItem<usize>>,
    f1: Seq<ProcedureArgumentsFrame<V>>,
    cs: Seq<StateCall<V, E>>,
)
    requires
        item is Normal,
        stmt_outcome(p, f, m, id, item, next, StmtKind::ProceduresCall { procedure_id, arguments }, s, s1, f1, cs, Ok::<(), RunError<E>>(())),
    ensures
        exists|k: int|
            #![trigger p.spec_procedures()[k]]
            0 <= k < p.spec_procedures().len() && p.spec_procedures()[k].procedure_id@ == procedure_id@
                && (forall|j: int| 0 <= j < k ==> p.spec_procedures()[j].procedure_id@ != procedure_id@)
                && s1 == with_on_top(s, next).push(StackItem::PopArgumentFrame(id)).push(
                StackItem::Normal(p.spec_procedures()[k].definition_block),
            ) && f1.len() == f.len() + 1 && f1.drop_last() == f && f1.last().spec_procedure_id() == procedure_id@,
{
    lemma_first_procedure_index_bounds(p.spec_procedures(), procedure_id@);
}

/// The reminder of a call, when it comes back, drops the innermost argument frame and
/// makes no call.
pub proof fn law_call_reminder_drops_the_frame<V: ScratchValue, E>(
    p: Program<V>,
    f: Seq<ProcedureArgumentsFrame<V>>,
    m: usize,
    id: usize,
    item: StackItem<usize>,
    next: Option<usize>,
    procedure_id: String,
    arguments: Vec<(String, Option<Expression<V>>)>,
    s: Seq<StackItem<usize>>,
    s1: Seq<StackItem<usize>>,
    f1: Seq<ProcedureArgumentsFrame<V>>,
    cs: Seq<StateCall<V, E>>,
)
    requires
        item is PopArgumentFrame,
        f.len() > 0,
        stmt_outcome(p, f, m, id, item, next, StmtKind::ProceduresCall { procedure_id, arguments }, s, s1, f1, cs, Ok::<(), RunError<E>>(())),
    ensures
        cs.len() == 0,
        s1 == s,
        f1 == f.drop_last(),
{
}

} // verus!
