//! What evaluating an input of a block gives, as relations between an input, the
//! calls it makes on the state (in order, with what each returned) and its outcome.
//! Values from the state are the results of those calls; values computed by the
//! operations of [`ScratchValue`] are related to their arguments by `call_ensures`.
use vstd::prelude::*;

use crate::calls::{lift, StateCall};
use crate::error::{InvalidFileError, LimitError, RunError, UnsupportedError};
use crate::frames::{frames_lookup, ProcedureArgumentsFrame};
use crate::program::{BlockKind, CondKind, ExprKind, Expression, List, Program};
use crate::value::{MathOp, ScratchValue};

verus! {

/// A trigger term, and nothing more: it holds of every argument. The relations below
/// are recursive, so a call of one of them cannot serve as the trigger of an `exists`
/// inside their own definitions; this term stands beside such a call and names the
/// same input, calls and outcome. What the outcome is, the relation beside it says:
/// each relation fixes the calls of a sub-input as a part of its own calls, and the
/// sub-input's outcome by its own relation on exactly those calls.
#[verifier::opaque]
pub open spec fn evaluated<A, T>(input: A, bound: nat, out: T) -> bool {
    true
}

/// The error for an input that refers to block `r` where no fitting block is.
pub open spec fn missing_ref<E>(r: usize) -> RunError<E> {
    RunError::File(InvalidFileError::NoBlockFoundForReference(r))
}

/// The outcome is not an internal error.
pub open spec fn not_internal<T, E>(out: Result<T, RunError<E>>) -> bool {
    !(out matches Err(RunError::Internal(_)))
}

/// Evaluating input `e`, whose block references lie below `bound`, makes the state
/// calls `cs` and has outcome `out`. Evaluation never ends in an internal error.
pub open spec fn expr_outcome<V: ScratchValue, E>(
    p: Program<V>,
    f: Seq<ProcedureArgumentsFrame<V>>,
    m: usize,
    e: Expression<V>,
    bound: nat,
    cs: Seq<StateCall<V, E>>,
    out: Result<V, RunError<E>>,
) -> bool
    decreases bound, 2nat,
{
    not_internal(out) && match e {
        Expression::Var(x) => cs.len() == 1 && (cs[0] matches StateCall::ReadVariable(y, r) && y == x && out
            == lift(r)),
        Expression::Lis(l) => cs.len() == 1 && (cs[0] matches StateCall::ListText(k, r) && k == l && out == lift(
            r,
        )),
        Expression::Lit(l) => cs.len() == 0 && (out matches Ok(v) && cloned(l, v)),
        Expression::Blo(r) => {
            if r >= p.spec_blocks().len() {
                cs.len() == 0 && out == Err::<V, RunError<E>>(missing_ref(r))
            } else if r < bound {
                block_value_outcome(p, f, m, r, cs, out)
            } else {
                false
            }
        },
    }
}

/// Evaluating a boolean input below `bound`; an empty input reads as false.
pub open spec fn cond_ref_outcome<V: ScratchValue, E>(
    p: Program<V>,
    f: Seq<ProcedureArgumentsFrame<V>>,
    m: usize,
    o: Option<usize>,
    bound: nat,
    cs: Seq<StateCall<V, E>>,
    out: Result<bool, RunError<E>>,
) -> bool
    decreases bound, 2nat,
{
    not_internal(out) && match o {
        None => cs.len() == 0 && out == Ok::<bool, RunError<E>>(false),
        Some(r) => {
            if r >= p.spec_blocks().len() {
                cs.len() == 0 && out == Err::<bool, RunError<E>>(missing_ref(r))
            } else if r < bound {
                match p.spec_blocks()[r as int].kind {
                    BlockKind::Cond(c) => cond_kind_outcome(p, f, m, c, r as nat, cs, out),
                    _ => cs.len() == 0 && out == Err::<bool, RunError<E>>(missing_ref(r)),
                }
            } else {
                false
            }
        },
    }
}

/// Evaluating block `r` for its value.
pub open spec fn block_value_outcome<V: ScratchValue, E>(
    p: Program<V>,
    f: Seq<ProcedureArgumentsFrame<V>>,
    m: usize,
    r: usize,
    cs: Seq<StateCall<V, E>>,
    out: Result<V, RunError<E>>,
) -> bool
    decreases r + 1, 1nat,
{
    if r >= p.spec_blocks().len() {
        false
    } else {
        match p.spec_blocks()[r as int].kind {
            BlockKind::Cond(c) => exists|oc: Result<bool, RunError<E>>|
                #![trigger evaluated(c, r as nat, (cs, oc))]
                evaluated(c, r as nat, (cs, oc)) && cond_kind_outcome(p, f, m, c, r as nat, cs, oc) && match oc {
                    Ok(b) => out matches Ok(v) && call_ensures(V::from_bool, (b,), v),
                    Err(_) => same_err(oc, out),
                },
            BlockKind::Expr(k) => expr_kind_outcome(p, f, m, k, r as nat, cs, out),
            _ => cs.len() == 0 && out == Err::<V, RunError<E>>(missing_ref(r)),
        }
    }
}

/// The last step of a block with one input, once the input has a value.
#[derive(PartialEq, Eq, Clone, Copy)]
pub enum UnaryStep {
    /// Asking the state for the item of a list at an index.
    ItemOfList(List),
    /// Asking the state for the position of an item in a list.
    ItemNumOfList(List),
    Mathop(MathOp),
    Round,
    Length,
}

/// The last step of a block with two value inputs that gives a value.
#[derive(PartialEq, Eq, Clone, Copy)]
pub enum BinaryStep {
    Add,
    Multiply,
    Subtract,
    Divide,
    Mod,
    Random,
    Join,
    LetterOf,
}

/// The last step of a block with two value inputs that gives a truth value.
#[derive(PartialEq, Eq, Clone, Copy)]
pub enum CompareStep {
    Gt,
    Lt,
    Equals,
    Contains,
}

/// The last step of a one-input block on input value `x`, making the calls `cs`.
pub open spec fn unary_step_outcome<V: ScratchValue, E>(
    op: UnaryStep,
    x: V,
    cs: Seq<StateCall<V, E>>,
    out: Result<V, RunError<E>>,
) -> bool {
    match op {
        UnaryStep::ItemOfList(l) => cs.len() == 1 && (cs[0] matches StateCall::ItemOfList(k, i, r) && k == l
            && i == x && out == lift(r)),
        UnaryStep::ItemNumOfList(l) => cs.len() == 1 && (cs[0] matches StateCall::ItemNumOfList(k, i, r) && k
            == l && i == x && match r {
            Ok(n) => out matches Ok(v) && call_ensures(V::from_int, (n,), v),
            Err(e) => out == Err::<V, RunError<E>>(RunError::State(e)),
        }),
        UnaryStep::Mathop(o) => cs.len() == 0 && (out matches Ok(v) && call_ensures(V::math_op, (&x, o), v)),
        UnaryStep::Round => cs.len() == 0 && (out matches Ok(v) && call_ensures(V::round, (&x,), v)),
        UnaryStep::Length => cs.len() == 0 && (out matches Ok(v) && exists|len: usize|
            call_ensures(V::textual_length, (&x,), len) && call_ensures(V::from_int, (len as i64,), v)),
    }
}

/// The last step of a two-input block on input values `x` and `y`, making the calls `cs`.
pub open spec fn binary_step_outcome<V: ScratchValue, E>(
    op: BinaryStep,
    m: usize,
    x: V,
    y: V,
    cs: Seq<StateCall<V, E>>,
    out: Result<V, RunError<E>>,
) -> bool {
    match op {
        BinaryStep::Random => cs.len() == 1 && (cs[0] matches StateCall::Random(a, b, r) && call_ensures(
            V::as_number,
            (&x,),
            a,
        ) && call_ensures(V::as_number, (&y,), b) && match r {
            Ok(n) => out matches Ok(v) && call_ensures(V::from_number, (n,), v),
            Err(e) => out == Err::<V, RunError<E>>(RunError::State(e)),
        }),
        _ => cs.len() == 0 && match op {
            BinaryStep::Add => out matches Ok(v) && call_ensures(V::add_numbers, (&x, &y), v),
            BinaryStep::Multiply => out matches Ok(v) && call_ensures(V::mul_numbers, (&x, &y), v),
            BinaryStep::Subtract => out matches Ok(v) && call_ensures(V::sub_numbers, (&x, &y), v),
            BinaryStep::Divide => out matches Ok(v) && call_ensures(V::div_numbers, (&x, &y), v),
            BinaryStep::Mod => out matches Ok(v) && call_ensures(V::modulo, (&x, &y), v),
            BinaryStep::Join => {
                ||| out matches Ok(v) && call_ensures(V::concat, (&x, &y, m), Some(v))
                ||| call_ensures(V::concat, (&x, &y, m), None::<V>) && out == Err::<V, RunError<E>>(
                    RunError::Limit(LimitError::StringExceededLengthLimit(m)),
                )
            },
            BinaryStep::LetterOf => out matches Ok(v) && call_ensures(V::nth_letter, (&y, &x), v),
            BinaryStep::Random => false,
        },
    }
}

/// The last step of a comparison on input values `x` and `y`; it calls nothing.
pub open spec fn compare_step_outcome<V: ScratchValue, E>(
    op: CompareStep,
    x: V,
    y: V,
    out: Result<bool, RunError<E>>,
) -> bool {
    match op {
        CompareStep::Gt => out matches Ok(b) && call_ensures(V::greater_than, (&x, &y), b),
        CompareStep::Lt => out matches Ok(b) && call_ensures(V::less_than, (&x, &y), b),
        CompareStep::Equals => out matches Ok(b) && call_ensures(V::equals, (&x, &y), b),
        CompareStep::Contains => out matches Ok(b) && call_ensures(V::contains_text, (&x, &y), b),
    }
}

/// Evaluating input `a` (its calls come first) and then taking step `op`.
pub open spec fn one_value<V: ScratchValue, E>(
    p: Program<V>,
    f: Seq<ProcedureArgumentsFrame<V>>,
    m: usize,
    a: Expression<V>,
    bound: nat,
    cs: Seq<StateCall<V, E>>,
    out: Result<V, RunError<E>>,
    op: UnaryStep,
) -> bool
    decreases bound, 3nat,
{
    exists|ca: Seq<StateCall<V, E>>, oa: Result<V, RunError<E>>|
        #![trigger evaluated(a, bound, (ca, oa))]
        evaluated(a, bound, (ca, oa)) && ca.len() <= cs.len() && cs.take(ca.len() as int) == ca
            && expr_outcome(p, f, m, a, bound, ca, oa) && match oa {
            Ok(x) => unary_step_outcome(op, x, cs.skip(ca.len() as int), out),
            Err(_) => cs == ca && same_err(oa, out),
        }
}

/// Evaluating input `a` and then asking the state whether list `l` holds its value.
pub open spec fn one_value_in_list<V: ScratchValue, E>(
    p: Program<V>,
    f: Seq<ProcedureArgumentsFrame<V>>,
    m: usize,
    l: List,
    a: Expression<V>,
    bound: nat,
    cs: Seq<StateCall<V, E>>,
    out: Result<bool, RunError<E>>,
) -> bool
    decreases bound, 3nat,
{
    exists|ca: Seq<StateCall<V, E>>, oa: Result<V, RunError<E>>|
        #![trigger evaluated(a, bound, (ca, oa))]
        evaluated(a, bound, (ca, oa)) && ca.len() <= cs.len() && cs.take(ca.len() as int) == ca
            && expr_outcome(p, f, m, a, bound, ca, oa) && match oa {
            Ok(x) => cs.len() == ca.len() + 1 && (cs[ca.len() as int] matches StateCall::ListContains(k, i, r)
                && k == l && i == x && out == lift(r)),
            Err(_) => cs == ca && same_err(oa, out),
        }
}

/// Evaluating inputs `a` then `b` (the calls of `a` come first; `b` is not evaluated
/// where `a` fails) and then taking step `op`.
pub open spec fn two_values<V: ScratchValue, E>(
    p: Program<V>,
    f: Seq<ProcedureArgumentsFrame<V>>,
    m: usize,
    a: Expression<V>,
    b: Expression<V>,
    bound: nat,
    cs: Seq<StateCall<V, E>>,
    out: Result<V, RunError<E>>,
    op: BinaryStep,
) -> bool
    decreases bound, 3nat,
{
    exists|ca: Seq<StateCall<V, E>>, oa: Result<V, RunError<E>>|
        #![trigger evaluated(a, bound, (ca, oa))]
        evaluated(a, bound, (ca, oa)) && ca.len() <= cs.len() && cs.take(ca.len() as int) == ca
            && expr_outcome(p, f, m, a, bound, ca, oa) && match oa {
            Err(_) => cs == ca && same_err(oa, out),
            Ok(x) => exists|cb: Seq<StateCall<V, E>>, ob: Result<V, RunError<E>>|
                #![trigger evaluated(b, bound, (cb, ob))]
                evaluated(b, bound, (cb, ob)) && (ca.len() + cb.len()) as int <= cs.len() && cs.subrange(
                    ca.len() as int,
                    (ca.len() + cb.len()) as int,
                ) == cb && expr_outcome(p, f, m, b, bound, cb, ob) && match ob {
                    Err(_) => cs.len() == (ca.len() + cb.len()) as int && same_err(ob, out),
                    Ok(y) => binary_step_outcome(op, m, x, y, cs.skip((ca.len() + cb.len()) as int), out),
                },
        }
}

/// Evaluating inputs `a` then `b` and comparing their values with `op`.
pub open spec fn two_values_compared<V: ScratchValue, E>(
    p: Program<V>,
    f: Seq<ProcedureArgumentsFrame<V>>,
    m: usize,
    a: Expression<V>,
    b: Expression<V>,
    bound: nat,
    cs: Seq<StateCall<V, E>>,
    out: Result<bool, RunError<E>>,
    op: CompareStep,
) -> bool
    decreases bound, 3nat,
{
    exists|ca: Seq<StateCall<V, E>>, oa: Result<V, RunError<E>>|
        #![trigger evaluated(a, bound, (ca, oa))]
        evaluated(a, bound, (ca, oa)) && ca.len() <= cs.len() && cs.take(ca.len() as int) == ca
            && expr_outcome(p, f, m, a, bound, ca, oa) && match oa {
            Err(_) => cs == ca && same_err(oa, out),
            Ok(x) => exists|ob: Result<V, RunError<E>>|
                #![trigger evaluated(b, bound, (cs.skip(ca.len() as int), ob))]
                evaluated(b, bound, (cs.skip(ca.len() as int), ob)) && expr_outcome(
                    p,
                    f,
                    m,
                    b,
                    bound,
                    cs.skip(ca.len() as int),
                    ob,
                ) && match ob {
                    Err(_) => same_err(ob, out),
                    Ok(y) => compare_step_outcome(op, x, y, out),
                },
        }
}

/// Evaluating boolean inputs `a` then `b` (both are evaluated where `a` succeeds) and
/// taking their disjunction (`is_or`) or conjunction.
pub open spec fn two_conds<V: ScratchValue, E>(
    p: Program<V>,
    f: Seq<ProcedureArgumentsFrame<V>>,
    m: usize,
    a: Option<usize>,
    b: Option<usize>,
    bound: nat,
    cs: Seq<StateCall<V, E>>,
    out: Result<bool, RunError<E>>,
    is_or: bool,
) -> bool
    decreases bound, 3nat,
{
    exists|ca: Seq<StateCall<V, E>>, oa: Result<bool, RunError<E>>|
        #![trigger evaluated(a, bound, (ca, oa))]
        evaluated(a, bound, (ca, oa)) && ca.len() <= cs.len() && cs.take(ca.len() as int) == ca
            && cond_ref_outcome(p, f, m, a, bound, ca, oa) && match oa {
            Err(_) => cs == ca && same_err(oa, out),
            Ok(x) => exists|ob: Result<bool, RunError<E>>|
                #![trigger evaluated(b, bound, (cs.skip(ca.len() as int), ob))]
                evaluated(b, bound, (cs.skip(ca.len() as int), ob)) && cond_ref_outcome(
                    p,
                    f,
                    m,
                    b,
                    bound,
                    cs.skip(ca.len() as int),
                    ob,
                ) && match ob {
                    Err(_) => same_err(ob, out),
                    Ok(y) => out == Ok::<bool, RunError<E>>(if is_or { x || y } else { x && y }),
                },
        }
}

/// Both outcomes are errors, and the same error.
pub open spec fn same_err<A, B, E>(x: Result<A, RunError<E>>, y: Result<B, RunError<E>>) -> bool {
    x matches Err(e1) && y matches Err(e2) && e1 == e2
}

/// Evaluating an expression block of kind `k` whose inputs lie below `r`.
pub open spec fn expr_kind_outcome<V: ScratchValue, E>(
    p: Program<V>,
    f: Seq<ProcedureArgumentsFrame<V>>,
    m: usize,
    k: ExprKind<V>,
    r: nat,
    cs: Seq<StateCall<V, E>>,
    out: Result<V, RunError<E>>,
) -> bool
    decreases r + 1, 0nat,
{
    match k {
        ExprKind::UnsupportedLooks => cs.len() == 0 && out == Err::<V, RunError<E>>(
            RunError::Unsupported(UnsupportedError::UnsupportedLooksBlock),
        ),
        ExprKind::UnsupportedMotion => cs.len() == 0 && out == Err::<V, RunError<E>>(
            RunError::Unsupported(UnsupportedError::UnsupportedMotionBlock),
        ),
        ExprKind::UnsupportedSensing => cs.len() == 0 && out == Err::<V, RunError<E>>(
            RunError::Unsupported(UnsupportedError::UnsupportedSensingBlock),
        ),
        ExprKind::ArgumentReporterStringNumber { value } => cs.len() == 0 && match frames_lookup(f, value@) {
            Some((_, Some(v0))) => out matches Ok(v) && cloned(v0, v),
            _ => out matches Ok(v) && call_ensures(V::empty_text, (), v),
        },
        ExprKind::DataItemOfList { list, index } => one_value(p, f, m, index, r, cs, out, UnaryStep::ItemOfList(list)),
        ExprKind::DataLengthOfList { list } => cs.len() == 1 && (cs[0] matches StateCall::LengthOfList(l, rr) && l
            == list && match rr {
            Ok(n) => out matches Ok(v) && call_ensures(V::from_int, (n,), v),
            Err(e) => out == Err::<V, RunError<E>>(RunError::State(e)),
        }),
        ExprKind::DataItemNumOfList { list, item } => one_value(p, f, m, item, r, cs, out, UnaryStep::ItemNumOfList(list)),
        ExprKind::OperatorAdd { num1, num2 } => two_values(p, f, m, num1, num2, r, cs, out, BinaryStep::Add),
        ExprKind::OperatorMultiply { num1, num2 } => two_values(p, f, m, num1, num2, r, cs, out, BinaryStep::Multiply),
        ExprKind::OperatorSubtract { num1, num2 } => two_values(p, f, m, num1, num2, r, cs, out, BinaryStep::Subtract),
        ExprKind::OperatorDivide { num1, num2 } => two_values(p, f, m, num1, num2, r, cs, out, BinaryStep::Divide),
        ExprKind::OperatorMod { num1, num2 } => two_values(p, f, m, num1, num2, r, cs, out, BinaryStep::Mod),
        ExprKind::OperatorMathop { operator, num } => one_value(p, f, m, num, r, cs, out, UnaryStep::Mathop(operator)),
        ExprKind::OperatorRound { num } => one_value(p, f, m, num, r, cs, out, UnaryStep::Round),
        ExprKind::OperatorRandom { from, to } => two_values(p, f, m, from, to, r, cs, out, BinaryStep::Random),
        ExprKind::OperatorJoin { string1, string2 } => two_values(p, f, m, string1, string2, r, cs, out, BinaryStep::Join),
        ExprKind::OperatorLength { string } => one_value(p, f, m, string, r, cs, out, UnaryStep::Length),
        ExprKind::OperatorLetterOf { letter, string } => two_values(p, f, m, letter, string, r, cs, out, BinaryStep::LetterOf),
        ExprKind::SensingAnswer => cs.len() == 1 && (cs[0] matches StateCall::Answer(rr) && match rr {
            Ok(t) => out matches Ok(v) && call_ensures(V::from_text, (t,), v),
            Err(e) => out == Err::<V, RunError<E>>(RunError::State(e)),
        }),
    }
}

/// Evaluating a comparison block of kind `c` whose inputs lie below `r`.
pub open spec fn cond_kind_outcome<V: ScratchValue, E>(
    p: Program<V>,
    f: Seq<ProcedureArgumentsFrame<V>>,
    m: usize,
    c: CondKind<V>,
    r: nat,
    cs: Seq<StateCall<V, E>>,
    out: Result<bool, RunError<E>>,
) -> bool
    decreases r + 1, 0nat,
{
    match c {
        CondKind::OperatorOr { operand1, operand2 } => two_conds(p, f, m, operand1, operand2, r, cs, out, true),
        CondKind::OperatorAnd { operand1, operand2 } => two_conds(p, f, m, operand1, operand2, r, cs, out, false),
        CondKind::OperatorNot { operand } => exists|oa: Result<bool, RunError<E>>|
            #![trigger evaluated(operand, r, (cs, oa))]
            evaluated(operand, r, (cs, oa)) && cond_ref_outcome(p, f, m, operand, r, cs, oa) && match oa {
                Err(_) => same_err(oa, out),
                Ok(x) => out == Ok::<bool, RunError<E>>(!x),
            },
        CondKind::OperatorGt { operand1, operand2 } => two_values_compared(p, f, m, operand1, operand2, r, cs, out, CompareStep::Gt),
        CondKind::OperatorLt { operand1, operand2 } => two_values_compared(p, f, m, operand1, operand2, r, cs, out, CompareStep::Lt),
        CondKind::OperatorEquals { operand1, operand2 } => two_values_compared(p, f, m, operand1, operand2, r, cs, out, CompareStep::Equals),
        CondKind::OperatorContains { string1, string2 } => two_values_compared(p, f, m, string1, string2, r, cs, out, CompareStep::Contains),
        CondKind::DataListContainsItem { list, item } => one_value_in_list(p, f, m, list, item, r, cs, out),
        CondKind::UnsupportedSensing => cs.len() == 0 && out == Err::<bool, RunError<E>>(
            RunError::Unsupported(UnsupportedError::UnsupportedSensingBlock),
        ),
        CondKind::ArgumentReporterBoolean { value } => cs.len() == 0 && match frames_lookup(f, value@) {
            Some((_, Some(v0))) => out matches Ok(b) && call_ensures(V::as_bool, (&v0,), b),
            _ => out == Ok::<bool, RunError<E>>(false),
        },
    }
}

} // verus!
