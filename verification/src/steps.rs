//! What one step of the interpreter does: which statement it runs, which calls it
//! makes on the state (in order, with what each returned), how the statement stack and
//! the argument frames change, and which outcome it reports.
use vstd::prelude::*;

use crate::error::{InternalError, InvalidFileError, LimitError, RunError, UnsupportedError, UserError};
use crate::frames::{bind_spec, first_procedure_index, ProcedureArgumentsFrame};
use crate::limits::Limits;
use crate::program::{BlockKind, Expression, Program, StmtKind};
use crate::calls::{unit_result, StateCall};
use crate::semantics::{cond_ref_outcome, evaluated, expr_outcome, same_err};
use crate::state::OutputKind;
use crate::stack::StackItem;
use crate::value::ScratchValue;

verus! {

/// `s` with the block `next`, if any, pushed on top.
pub open spec fn push_next(s: Seq<StackItem<usize>>, next: Option<usize>) -> Seq<StackItem<usize>> {
    match next {
        Some(n) => s.push(StackItem::Normal(n)),
        None => s,
    }
}

/// How many times a repeat block runs its body for a count read as `n`.
pub open spec fn repeat_count(n: i64) -> usize {
    if n < 0 {
        0
    } else {
        n as usize
    }
}

/// The stack after a repeat block `id` with `remaining` rounds left.
pub open spec fn repeat_push(
    s: Seq<StackItem<usize>>,
    id: usize,
    next: Option<usize>,
    substack: Option<usize>,
    remaining: usize,
) -> Seq<StackItem<usize>> {
    if remaining == 0 {
        push_next(s, next)
    } else {
        push_next(s.push(StackItem::CountLoop(id, (remaining - 1) as usize)), substack)
    }
}

/// The outcome of a state call `r` that ends a statement: on success the next block
/// follows; the state's error ends the statement.
pub open spec fn unit_then<E>(
    r: Result<(), E>,
    s: Seq<StackItem<usize>>,
    next: Option<usize>,
    s1: Seq<StackItem<usize>>,
    out: Result<(), RunError<E>>,
) -> bool {
    match r {
        Ok(_) => out == Ok::<(), RunError<E>>(()) && s1 == push_next(s, next),
        Err(e) => out == Err::<(), RunError<E>>(RunError::State(e)) && s1 == s,
    }
}

/// Evaluating input `e` of a statement, then one state call that `fits` the value
/// (and that gives nothing back), then the next block.
pub open spec fn value_then<V: ScratchValue, E>(
    p: Program<V>,
    f: Seq<ProcedureArgumentsFrame<V>>,
    m: usize,
    e: Expression<V>,
    s: Seq<StackItem<usize>>,
    next: Option<usize>,
    s1: Seq<StackItem<usize>>,
    cs: Seq<StateCall<V, E>>,
    out: Result<(), RunError<E>>,
    fits: spec_fn(V, StateCall<V, E>) -> bool,
) -> bool {
    exists|ca: Seq<StateCall<V, E>>, oa: Result<V, RunError<E>>|
        #![trigger evaluated(e, p.spec_blocks().len(), (ca, oa))]
        evaluated(e, p.spec_blocks().len(), (ca, oa)) && ca.len() <= cs.len() && cs.take(ca.len() as int) == ca
            && expr_outcome(p, f, m, e, p.spec_blocks().len(), ca, oa) && match oa {
            Err(_) => cs == ca && same_err(oa, out) && s1 == s,
            Ok(x) => cs.len() == ca.len() + 1 && fits(x, cs[ca.len() as int]) && unit_then(
                unit_result(cs[ca.len() as int]),
                s,
                next,
                s1,
                out,
            ),
        }
}

/// Evaluating inputs `a` then `b` of a statement, then one state call that `fits`
/// both values, then the next block.
pub open spec fn two_values_then<V: ScratchValue, E>(
    p: Program<V>,
    f: Seq<ProcedureArgumentsFrame<V>>,
    m: usize,
    a: Expression<V>,
    b: Expression<V>,
    s: Seq<StackItem<usize>>,
    next: Option<usize>,
    s1: Seq<StackItem<usize>>,
    cs: Seq<StateCall<V, E>>,
    out: Result<(), RunError<E>>,
    fits: spec_fn(V, V, StateCall<V, E>) -> bool,
) -> bool {
    exists|ca: Seq<StateCall<V, E>>, oa: Result<V, RunError<E>>|
        #![trigger evaluated(a, p.spec_blocks().len(), (ca, oa))]
        evaluated(a, p.spec_blocks().len(), (ca, oa)) && ca.len() <= cs.len() && cs.take(ca.len() as int) == ca
            && expr_outcome(p, f, m, a, p.spec_blocks().len(), ca, oa) && match oa {
            Err(_) => cs == ca && same_err(oa, out) && s1 == s,
            Ok(x) => exists|cb: Seq<StateCall<V, E>>, ob: Result<V, RunError<E>>|
                #![trigger evaluated(b, p.spec_blocks().len(), (cb, ob))]
                evaluated(b, p.spec_blocks().len(), (cb, ob)) && (ca.len() + cb.len()) as int <= cs.len() && cs.subrange(
                    ca.len() as int,
                    (ca.len() + cb.len()) as int,
                ) == cb && expr_outcome(p, f, m, b, p.spec_blocks().len(), cb, ob) && match ob {
                    Err(_) => cs.len() == (ca.len() + cb.len()) as int && same_err(ob, out) && s1 == s,
                    Ok(y) => cs.len() == (ca.len() + cb.len()) as int + 1 && fits(x, y, cs[(ca.len() + cb.len()) as int])
                        && unit_then(unit_result(cs[(ca.len() + cb.len()) as int]), s, next, s1, out),
                },
        }
}

/// Evaluating the condition `c` of a statement and continuing on its value; the
/// statement makes no other call.
pub open spec fn cond_then<V: ScratchValue, E>(
    p: Program<V>,
    f: Seq<ProcedureArgumentsFrame<V>>,
    m: usize,
    c: Option<usize>,
    s: Seq<StackItem<usize>>,
    s1: Seq<StackItem<usize>>,
    cs: Seq<StateCall<V, E>>,
    out: Result<(), RunError<E>>,
    on_true: (Result<(), RunError<E>>, Seq<StackItem<usize>>),
    on_false: (Result<(), RunError<E>>, Seq<StackItem<usize>>),
) -> bool {
    exists|oc: Result<bool, RunError<E>>|
        #![trigger evaluated(c, p.spec_blocks().len(), (cs, oc))]
        evaluated(c, p.spec_blocks().len(), (cs, oc)) && cond_ref_outcome(p, f, m, c, p.spec_blocks().len(), cs, oc)
            && match oc {
            Err(_) => same_err(oc, out) && s1 == s,
            Ok(true) => out == on_true.0 && s1 == on_true.1,
            Ok(false) => out == on_false.0 && s1 == on_false.1,
        }
}

/// A result holding a vector, with the vector taken as a sequence.
pub open spec fn vec_result_view<T, E>(r: Result<Vec<T>, E>) -> Result<Seq<T>, E> {
    match r {
        Ok(v) => Ok(v@),
        Err(e) => Err(e),
    }
}

/// Argument `i` of a call was evaluated with the calls `seg`: an empty input calls
/// nothing and gives `None`, an expression gives its value.
pub open spec fn arg_evaluated<V: ScratchValue, E>(
    p: Program<V>,
    f: Seq<ProcedureArgumentsFrame<V>>,
    m: usize,
    arg: (String, Option<Expression<V>>),
    seg: Seq<StateCall<V, E>>,
    val: (String, Option<V>),
) -> bool {
    &&& val.0 == arg.0
    &&& match arg.1 {
        None => val.1 is None && seg.len() == 0,
        Some(e) => val.1 matches Some(v) && expr_outcome(p, f, m, e, p.spec_blocks().len(), seg, Ok::<V, RunError<E>>(v)),
    }
}

/// The first `segs.len()` arguments of a call were evaluated, argument `i` making the
/// calls `segs[i]` and giving `vals[i]`.
pub open spec fn args_evaluated<V: ScratchValue, E>(
    p: Program<V>,
    f: Seq<ProcedureArgumentsFrame<V>>,
    m: usize,
    args: Seq<(String, Option<Expression<V>>)>,
    segs: Seq<Seq<StateCall<V, E>>>,
    vals: Seq<(String, Option<V>)>,
) -> bool {
    &&& vals.len() == segs.len()
    &&& forall|i: int| 0 <= i < segs.len() ==> #[trigger] arg_evaluated(p, f, m, args[i], segs[i], vals[i])
}

/// The outcomes of evaluating the inputs of a call, in order, up to the first error:
/// `segs[i]` are the calls that argument `i` made.
pub open spec fn args_outcome<V: ScratchValue, E>(
    p: Program<V>,
    f: Seq<ProcedureArgumentsFrame<V>>,
    m: usize,
    args: Seq<(String, Option<Expression<V>>)>,
    segs: Seq<Seq<StateCall<V, E>>>,
    out: Result<Seq<(String, Option<V>)>, RunError<E>>,
) -> bool {
    match out {
        Ok(vals) => segs.len() == args.len() && args_evaluated(p, f, m, args, segs, vals),
        Err(err) => {
            &&& 1 <= segs.len() <= args.len()
            &&& exists|vals: Seq<(String, Option<V>)>| #[trigger] args_evaluated(p, f, m, args, segs.drop_last(), vals)
            &&& args[segs.len() - 1].1 matches Some(e) && expr_outcome(
                p,
                f,
                m,
                e,
                p.spec_blocks().len(),
                segs.last(),
                Err::<V, RunError<E>>(err),
            )
        },
    }
}

/// A call of `procedure_id` by block `id` with the given arguments, started from a
/// normal stack item: the arguments are evaluated (their calls are `cs`), the procedure
/// is looked up, the arguments are bound to its parameters, and its definition block
/// runs next with a reminder below it to drop the new argument frame.
pub open spec fn call_outcome<V: ScratchValue, E>(
    p: Program<V>,
    f: Seq<ProcedureArgumentsFrame<V>>,
    m: usize,
    id: usize,
    next: Option<usize>,
    procedure_id: String,
    args: Seq<(String, Option<Expression<V>>)>,
    s: Seq<StackItem<usize>>,
    s1: Seq<StackItem<usize>>,
    f1: Seq<ProcedureArgumentsFrame<V>>,
    cs: Seq<StateCall<V, E>>,
    out: Result<(), RunError<E>>,
) -> bool {
    exists|segs: Seq<Seq<StateCall<V, E>>>, ao: Result<Seq<(String, Option<V>)>, RunError<E>>|
        #![trigger args_outcome(p, f, m, args, segs, ao)]
        args_outcome(p, f, m, args, segs, ao) && cs == segs.flatten() && match first_procedure_index(
            p.spec_procedures(),
            procedure_id@,
        ) {
            None => out == Err::<(), RunError<E>>(
                RunError::File(InvalidFileError::CantFindProcedureForCall),
            ) && s1 == s && f1 == f,
            Some(k) => match ao {
                Err(e) => out == Err::<(), RunError<E>>(e) && s1 == s && f1 == f,
                Ok(vals) => match bind_spec(p.spec_procedures()[k].arguments@, vals) {
                    Err(e) => out == Err::<(), RunError<E>>(RunError::File(e)) && s1 == s && f1 == f,
                    Ok(entries) => {
                        &&& out is Ok
                        &&& s1 == push_next(s, next).push(StackItem::PopArgumentFrame(id)).push(
                            StackItem::Normal(p.spec_procedures()[k].definition_block),
                        )
                        &&& f1.len() == f.len() + 1
                        &&& f1.drop_last() == f
                        &&& f1.last().spec_procedure_id() == p.spec_procedures()[k].procedure_id@
                        &&& f1.last().spec_entries() == entries
                    },
                },
            },
        }
}

/// The kind of output of a timed say or think block whose seconds read as `secs`.
pub open spec fn timed_output<V: ScratchValue>(think: bool, secs: V, k: OutputKind<V::Float>) -> bool {
    exists|fl: V::Float| #[trigger] call_ensures(V::as_float, (&secs,), fl) && k == if think {
        OutputKind::ThinkFor(fl)
    } else {
        OutputKind::SayFor(fl)
    }
}

/// What statement block `id` of kind `st`, reached through stack item `item`, does
/// once the state knows it runs: the calls `cs` it makes on the state, and what it does
/// to the stack `s` (with `item` already removed) and the frames `f`.
pub open spec fn stmt_outcome<V: ScratchValue, E>(
    p: Program<V>,
    f: Seq<ProcedureArgumentsFrame<V>>,
    m: usize,
    id: usize,
    item: StackItem<usize>,
    next: Option<usize>,
    st: StmtKind<V>,
    s: Seq<StackItem<usize>>,
    s1: Seq<StackItem<usize>>,
    f1: Seq<ProcedureArgumentsFrame<V>>,
    cs: Seq<StateCall<V, E>>,
    out: Result<(), RunError<E>>,
) -> bool {
    let ok = Ok::<(), RunError<E>>(());
    let len = p.spec_blocks().len();
    match st {
        StmtKind::ProceduresCall { procedure_id, arguments } => match item {
            StackItem::Normal(_) => call_outcome(
                p,
                f,
                m,
                id,
                next,
                procedure_id,
                arguments@,
                s,
                s1,
                f1,
                cs,
                out,
            ),
            StackItem::PopArgumentFrame(_) => cs.len() == 0 && if f.len() == 0 {
                out == Err::<(), RunError<E>>(
                    RunError::Internal(InternalError::PopOnEmptyArgumentFramesStack),
                ) && s1 == s && f1 == f
            } else {
                out == ok && s1 == s && f1 == f.drop_last()
            },
            StackItem::CountLoop(_, _) => cs.len() == 0 && out == Err::<(), RunError<E>>(
                RunError::Internal(InternalError::FatalWrongStackFrameForContext),
            ) && s1 == s && f1 == f,
        },
        _ => f1 == f && match st {
            StmtKind::NoEffect => cs.len() == 0 && out == ok && s1 == push_next(s, next),
            StmtKind::CloneBlock => cs.len() == 0 && out == Err::<(), RunError<E>>(
                RunError::Unsupported(UnsupportedError::CloneBlocksNotSupported(id)),
            ) && s1 == s,
            StmtKind::ControlIf { condition, substack } => cond_then(
                p,
                f,
                m,
                condition,
                s,
                s1,
                cs,
                out,
                (ok, push_next(push_next(s, next), substack)),
                (ok, push_next(s, next)),
            ),
            StmtKind::ControlIfElse { condition, substack, substack2 } => cond_then(
                p,
                f,
                m,
                condition,
                push_next(s, next),
                s1,
                cs,
                out,
                (ok, push_next(push_next(s, next), substack)),
                (ok, push_next(push_next(s, next), substack2)),
            ),
            StmtKind::ControlRepeatUntil { condition, substack } => cond_then(
                p,
                f,
                m,
                condition,
                s,
                s1,
                cs,
                out,
                (ok, push_next(s, next)),
                match substack {
                    Some(b) => (ok, s.push(item).push(StackItem::Normal(b))),
                    None => (
                        Err(RunError::User(UserError::ConditionLoopWithoutBodyNeverStops)),
                        s,
                    ),
                },
            ),
            StmtKind::ControlWaitUntil { condition } => cond_then(
                p,
                f,
                m,
                condition,
                s,
                s1,
                cs,
                out,
                (ok, push_next(s, next)),
                (Err(RunError::User(UserError::WaitUntilFalseNeverTerminatesInSingleThreadded)), s),
            ),
            StmtKind::ControlWait { duration } => value_then(
                p,
                f,
                m,
                duration,
                s,
                next,
                s1,
                cs,
                out,
                |x: V, c: StateCall<V, E>| c matches StateCall::Wait(n, _) && call_ensures(V::as_number, (&x,), n),
            ),
            StmtKind::ControlForever { substack } => cs.len() == 0 && match substack {
                Some(b) => out == ok && s1 == s.push(item).push(StackItem::Normal(b)),
                None => out == Err::<(), RunError<E>>(
                    RunError::User(UserError::InfiniteLoopWithoutBodyNeverStops),
                ) && s1 == s,
            },
            StmtKind::ControlRepeat { times, substack } => match item {
                StackItem::Normal(_) => exists|oa: Result<V, RunError<E>>|
                    #![trigger evaluated(times, len, (cs, oa))]
                    evaluated(times, len, (cs, oa)) && expr_outcome(p, f, m, times, len, cs, oa) && match oa {
                        Err(_) => same_err(oa, out) && s1 == s,
                        Ok(x) => out == ok && exists|n: i64|
                            #![trigger call_ensures(V::int_or_border, (&x,), n)]
                            call_ensures(V::int_or_border, (&x,), n) && s1 == repeat_push(
                                s,
                                id,
                                next,
                                substack,
                                repeat_count(n),
                            ),
                    },
                StackItem::CountLoop(_, remaining) => cs.len() == 0 && out == ok && s1 == repeat_push(
                    s,
                    id,
                    next,
                    substack,
                    remaining,
                ),
                StackItem::PopArgumentFrame(_) => cs.len() == 0 && out == Err::<(), RunError<E>>(
                    RunError::Internal(InternalError::FatalWrongStackFrameForContext),
                ) && s1 == s,
            },
            StmtKind::ControlStop => cs.len() == 0 && out == Err::<(), RunError<E>>(RunError::TerminatedByControlStop)
                && s1 == s,
            StmtKind::DataAddToList { list, item: e } => value_then(
                p,
                f,
                m,
                e,
                s,
                next,
                s1,
                cs,
                out,
                |x: V, c: StateCall<V, E>| c matches StateCall::Append(l, i, _) && l == list && i == x,
            ),
            StmtKind::DataDeleteOfList { list, index } => value_then(
                p,
                f,
                m,
                index,
                s,
                next,
                s1,
                cs,
                out,
                |x: V, c: StateCall<V, E>| c matches StateCall::DeleteOf(l, i, _) && l == list && i == x,
            ),
            StmtKind::DataInsertAtList { list, index, item: e } => two_values_then(
                p,
                f,
                m,
                index,
                e,
                s,
                next,
                s1,
                cs,
                out,
                |x: V, y: V, c: StateCall<V, E>| c matches StateCall::Insert(l, i, v, _) && l == list && i == x && v
                    == y,
            ),
            StmtKind::DataDeleteAllOfList { list } => cs.len() == 1 && (cs[0] matches StateCall::DeleteAll(l, r)
                && l == list && unit_then(r, s, next, s1, out)),
            StmtKind::DataSetVariableTo { variable, value } => value_then(
                p,
                f,
                m,
                value,
                s,
                next,
                s1,
                cs,
                out,
                |x: V, c: StateCall<V, E>| c matches StateCall::SetVariable(w, v, _) && w == variable && v == x,
            ),
            StmtKind::DataReplaceItemOfList { list, index, item: e } => two_values_then(
                p,
                f,
                m,
                index,
                e,
                s,
                next,
                s1,
                cs,
                out,
                |x: V, y: V, c: StateCall<V, E>| c matches StateCall::Replace(l, i, v, _) && l == list && i == x && v
                    == y,
            ),
            StmtKind::DataChangeVariableBy { variable, value } => value_then(
                p,
                f,
                m,
                value,
                s,
                next,
                s1,
                cs,
                out,
                |x: V, c: StateCall<V, E>| c matches StateCall::ChangeVariable(w, v, _) && w == variable && v == x,
            ),
            StmtKind::EventBroadcast => cs.len() == 0 && out == Err::<(), RunError<E>>(
                RunError::Unsupported(UnsupportedError::EventSendingNotSupported),
            ) && s1 == s,
            StmtKind::LooksSay { message } => value_then(
                p,
                f,
                m,
                message,
                s,
                next,
                s1,
                cs,
                out,
                |x: V, c: StateCall<V, E>| c == StateCall::<V, E>::Output(OutputKind::Say, x),
            ),
            StmtKind::LooksThink { message } => value_then(
                p,
                f,
                m,
                message,
                s,
                next,
                s1,
                cs,
                out,
                |x: V, c: StateCall<V, E>| c == StateCall::<V, E>::Output(OutputKind::Think, x),
            ),
            StmtKind::LooksThinkForSecs { message, secs } => two_values_then(
                p,
                f,
                m,
                secs,
                message,
                s,
                next,
                s1,
                cs,
                out,
                |x: V, y: V, c: StateCall<V, E>| c matches StateCall::Output(k, v) && v == y && timed_output(true, x, k),
            ),
            StmtKind::LooksSayForSecs { message, secs } => two_values_then(
                p,
                f,
                m,
                secs,
                message,
                s,
                next,
                s1,
                cs,
                out,
                |x: V, y: V, c: StateCall<V, E>| c matches StateCall::Output(k, v) && v == y && timed_output(false, x, k),
            ),
            StmtKind::SensingAskAndWait { question } => value_then(
                p,
                f,
                m,
                question,
                s,
                next,
                s1,
                cs,
                out,
                |x: V, c: StateCall<V, E>| c matches StateCall::Ask(v, _) && v == x,
            ),
            StmtKind::ProceduresCall { .. } => false,
        },
    }
}

/// The outcome of checking the limits before a step, with `count` statements executed
/// so far and a stack of `height` items.
pub open spec fn limits_outcome(limits: Limits, count: usize, height: nat) -> Result<(), LimitError> {
    if limits@.1 matches Some(l) && count > l {
        Err(LimitError::ExceededAllowedStmtCount)
    } else if limits@.2 matches Some(l) && height > l {
        Err(LimitError::MaxStackSizeExceeded)
    } else {
        Ok(())
    }
}

/// A statement block first tells the state that it runs (the first call of `cs`);
/// where the state refuses, that error ends the statement and nothing else happens,
/// otherwise the statement does what [`stmt_outcome`] says with the remaining calls.
pub open spec fn stmt_with_context<V: ScratchValue, E>(
    p: Program<V>,
    f: Seq<ProcedureArgumentsFrame<V>>,
    m: usize,
    id: usize,
    item: StackItem<usize>,
    next: Option<usize>,
    st: StmtKind<V>,
    s: Seq<StackItem<usize>>,
    s1: Seq<StackItem<usize>>,
    f1: Seq<ProcedureArgumentsFrame<V>>,
    cs: Seq<StateCall<V, E>>,
    out: Result<(), RunError<E>>,
) -> bool {
    cs.len() >= 1 && (cs[0] matches StateCall::Context(b, rc) && b == id && match rc {
        Err(e) => cs.len() == 1 && out == Err::<(), RunError<E>>(RunError::State(e)) && s1 == s && f1 == f,
        Ok(_) => stmt_outcome(p, f, m, id, item, next, st, s, s1, f1, cs.drop_first(), out),
    })
}

/// The outcome of a notice call `r`.
pub open spec fn unit_lift<E>(r: Result<(), E>) -> Result<(), RunError<E>> {
    match r {
        Ok(_) => Ok(()),
        Err(e) => Err(RunError::State(e)),
    }
}

/// What running the block of stack item `item` does, with the rest of the stack `s`:
/// the calls `cs` it makes on the state, the stack and frames it leaves and its outcome.
/// A hat or procedure block tells the state that it ran. A statement first tells the
/// state that it runs; where the state refuses, that error ends the step and nothing
/// else happens.
pub open spec fn block_step_outcome<V: ScratchValue, E>(
    p: Program<V>,
    f: Seq<ProcedureArgumentsFrame<V>>,
    m: usize,
    item: StackItem<usize>,
    s: Seq<StackItem<usize>>,
    s1: Seq<StackItem<usize>>,
    f1: Seq<ProcedureArgumentsFrame<V>>,
    cs: Seq<StateCall<V, E>>,
    out: Result<(), RunError<E>>,
) -> bool {
    let id = item.spec_value();
    if id >= p.spec_blocks().len() {
        cs.len() == 0 && out == Err::<(), RunError<E>>(RunError::File(InvalidFileError::ReachedUnknownBlock(id)))
            && s1 == s && f1 == f
    } else {
        let block = p.spec_blocks()[id as int];
        match block.kind {
            BlockKind::Event => f1 == f && s1 == push_next(s, block.next) && cs.len() == 1 && (cs[0] matches StateCall::NoticeEvent(
                b,
                r,
            ) && b == id && out == unit_lift(r)),
            BlockKind::ProceduresPrototype => f1 == f && s1 == push_next(s, block.next) && cs.len() == 1 && (
            cs[0] matches StateCall::NoticeProto(b, r) && b == id && out == unit_lift(r)),
            BlockKind::ProceduresDefinition => f1 == f && s1 == push_next(s, block.next) && cs.len() == 1 && (
            cs[0] matches StateCall::NoticeDef(b, r) && b == id && out == unit_lift(r)),
            BlockKind::Expr(_) => cs.len() == 0 && out == Err::<(), RunError<E>>(
                RunError::File(InvalidFileError::FoundExpressionWhenStmtExpected(id)),
            ) && s1 == s && f1 == f,
            BlockKind::Cond(_) => cs.len() == 0 && out == Err::<(), RunError<E>>(
                RunError::File(InvalidFileError::FoundExpressionWhenStmtExpected(id)),
            ) && s1 == s && f1 == f,
            BlockKind::Stmt(st) => stmt_with_context(p, f, m, id, item, block.next, st, s, s1, f1, cs, out),
        }
    }
}

/// One step: check the limits, take the top item off the stack and run its block.
#[verifier::opaque]
pub open spec fn step_outcome<V: ScratchValue, E>(
    p: Program<V>,
    limits: Limits,
    m: usize,
    count: usize,
    s: Seq<StackItem<usize>>,
    f: Seq<ProcedureArgumentsFrame<V>>,
    s1: Seq<StackItem<usize>>,
    f1: Seq<ProcedureArgumentsFrame<V>>,
    cs: Seq<StateCall<V, E>>,
    out: Result<(), RunError<E>>,
) -> bool {
    match limits_outcome(limits, count, s.len()) {
        Err(le) => cs.len() == 0 && out == Err::<(), RunError<E>>(RunError::Limit(le)) && s1 == s && f1 == f,
        Ok(_) => if s.len() == 0 {
            cs.len() == 0 && out == Err::<(), RunError<E>>(RunError::Internal(InternalError::PopOnEmptyProgramStack))
                && s1 == s && f1 == f
        } else {
            block_step_outcome(p, f, m, s.last(), s.drop_last(), s1, f1, cs, out)
        },
    }
}

/// The stack and the argument frames of a run at one moment.
pub type Config<V> = (Seq<StackItem<usize>>, Seq<ProcedureArgumentsFrame<V>>);

/// A step that succeeds was taken within the limits.
pub proof fn lemma_ok_step_within_limits<V: ScratchValue, E>(
    p: Program<V>,
    limits: Limits,
    m: usize,
    count: usize,
    s: Seq<StackItem<usize>>,
    f: Seq<ProcedureArgumentsFrame<V>>,
    s1: Seq<StackItem<usize>>,
    f1: Seq<ProcedureArgumentsFrame<V>>,
    cs: Seq<StateCall<V, E>>,
)
    requires
        step_outcome(p, limits, m, count, s, f, s1, f1, cs, Ok::<(), RunError<E>>(())),
    ensures
        limits_outcome(limits, count, s.len()) is Ok,
{
    reveal(step_outcome);
}

/// The outcome of a run as an optional error.
pub open spec fn run_outcome<E>(res: Result<(), RunError<E>>) -> Option<RunError<E>> {
    match res {
        Ok(_) => None,
        Err(e) => Some(e),
    }
}

/// A possible course of a run from `initial`: `trace[i]` is the stack and the frames
/// before step `i` (taken after `i` executed statements), and `steps[i]` the calls that
/// step `i` made on the state; every step but the last succeeds on a non-empty stack;
/// the run either ends with an empty stack (`None`), or with the error of a failing
/// step, or, where the count of executed statements would overflow, with
/// [`LimitError::ExceededAllowedStmtCount`].
pub open spec fn run_trace<V: ScratchValue, E>(
    p: Program<V>,
    limits: Limits,
    m: usize,
    initial: usize,
    trace: Seq<Config<V>>,
    steps: Seq<Seq<StateCall<V, E>>>,
    outcome: Option<RunError<E>>,
) -> bool {
    &&& 1 <= trace.len() <= usize::MAX + 2
    &&& trace[0].0 == seq![StackItem::Normal(initial)]
    &&& trace[0].1 == Seq::<ProcedureArgumentsFrame<V>>::empty()
    &&& steps.len() >= trace.len() - 1
    &&& forall|i: int|
        #![trigger trace[i]]
        0 <= i < trace.len() - 1 ==> trace[i].0.len() > 0 && step_outcome(
            p,
            limits,
            m,
            i as usize,
            trace[i].0,
            trace[i].1,
            trace[i + 1].0,
            trace[i + 1].1,
            steps[i],
            Ok::<(), RunError<E>>(()),
        )
    &&& match outcome {
        None => trace.len() >= 2 && trace.last().0.len() == 0 && steps.len() == trace.len() - 1,
        Some(e) => {
            ||| trace.last().0.len() > 0 && trace.len() - 1 <= usize::MAX && steps.len() == trace.len() && exists|
                s1: Seq<StackItem<usize>>,
                f1: Seq<ProcedureArgumentsFrame<V>>,
            |
                #![trigger step_outcome(p, limits, m, (trace.len() - 1) as usize, trace.last().0, trace.last().1, s1, f1, steps.last(), Err::<(), RunError<E>>(e))]
                step_outcome(
                    p,
                    limits,
                    m,
                    (trace.len() - 1) as usize,
                    trace.last().0,
                    trace.last().1,
                    s1,
                    f1,
                    steps.last(),
                    Err::<(), RunError<E>>(e),
                )
            ||| trace.len() == usize::MAX + 2 && e == RunError::<E>::Limit(LimitError::ExceededAllowedStmtCount)
                && steps.len() == trace.len() - 1
        },
    }
}

} // verus!
