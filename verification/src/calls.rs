//! The calls the interpreter makes on the state, each with its arguments and what it
//! returned, and what it means that such a sequence of calls was made.
//!
//! A call of a `State` method takes the state by `&mut`. In Verus such a call is
//! described by `call_ensures` of the method on a mutable reference whose current
//! value is the state before the call and whose future value is the state after it.
//! [`call_made`] says that a reference and a recorded call fit `call_ensures`; the
//! contracts of the running interpreter add that the references form a chain from the
//! state before to the state after (each one's future value is the next one's
//! current value).
use vstd::prelude::*;

use crate::error::RunError;
use crate::frames::ProcedureArgumentsFrame;
use crate::program::{CondKind, ExprKind, Expression, List, Program, Variable};
use crate::semantics::{
    block_value_outcome, cond_kind_outcome, cond_ref_outcome, evaluated, expr_kind_outcome, expr_outcome,
};
use crate::state::{OutputKind, State};
use crate::value::ScratchValue;

verus! {

/// One call on the state: which method, with which arguments, and what it returned.
pub enum StateCall<V: ScratchValue, E> {
    /// `set_statement_as_context(block)`.
    Context(usize, Result<(), E>),
    /// `data_read_variable(variable)`.
    ReadVariable(Variable, Result<V, E>),
    /// `data_read_textual_list_repr(list)`.
    ListText(List, Result<V, E>),
    /// `data_item_of_list(list, index)`.
    ItemOfList(List, V, Result<V, E>),
    /// `data_item_num_of_list(list, item)`.
    ItemNumOfList(List, V, Result<i64, E>),
    /// `data_length_of_list(list)`.
    LengthOfList(List, Result<i64, E>),
    /// `last_answer()`.
    Answer(Result<String, E>),
    /// `request_random(from, to)`.
    Random(V::Number, V::Number, Result<V::Number, E>),
    /// `data_list_contains_item(list, item)`.
    ListContains(List, V, Result<bool, E>),
    /// `wait_for_secs(secs)`.
    Wait(V::Number, Result<(), E>),
    /// `data_append_to_list(list, item)`.
    Append(List, V, Result<(), E>),
    /// `data_delete_of_list(list, index)`.
    DeleteOf(List, V, Result<(), E>),
    /// `data_insert_at_list(list, index, item)`.
    Insert(List, V, V, Result<(), E>),
    /// `data_delete_all_of_list(list)`.
    DeleteAll(List, Result<(), E>),
    /// `data_replace_list_at(list, index, item)`.
    Replace(List, V, V, Result<(), E>),
    /// `data_set_variable(variable, value)`.
    SetVariable(Variable, V, Result<(), E>),
    /// `data_change_variable_by(variable, by)`.
    ChangeVariable(Variable, V, Result<(), E>),
    /// `write_output(kind, message)`, which returns nothing.
    Output(OutputKind<V::Float>, V),
    /// `ask_question(question)`.
    Ask(V, Result<(), E>),
    /// `notice_event_block_executed(block)`.
    NoticeEvent(usize, Result<(), E>),
    /// `notice_proc_proto_block_executed(block)`.
    NoticeProto(usize, Result<(), E>),
    /// `notice_proc_def_block_executed(block)`.
    NoticeDef(usize, Result<(), E>),
}

/// The call `c` is one that the method it names may make through reference `g`: its
/// arguments and result fit the method's `call_ensures`.
pub open spec fn call_made<V: ScratchValue, S: State<V>>(g: &mut S, c: StateCall<V, S::Error>) -> bool {
    match c {
        StateCall::Context(id, r) => call_ensures(S::set_statement_as_context, (g, id), r),
        StateCall::ReadVariable(x, r) => call_ensures(S::data_read_variable, (g, &x), r),
        StateCall::ListText(l, r) => call_ensures(S::data_read_textual_list_repr, (g, &l), r),
        StateCall::ItemOfList(l, i, r) => call_ensures(S::data_item_of_list, (g, &l, &i), r),
        StateCall::ItemNumOfList(l, i, r) => call_ensures(S::data_item_num_of_list, (g, &l, &i), r),
        StateCall::LengthOfList(l, r) => call_ensures(S::data_length_of_list, (g, &l), r),
        StateCall::Answer(r) => call_ensures(S::last_answer, (g,), r),
        StateCall::Random(a, b, r) => call_ensures(S::request_random, (g, a, b), r),
        StateCall::ListContains(l, i, r) => call_ensures(S::data_list_contains_item, (g, &l, &i), r),
        StateCall::Wait(n, r) => call_ensures(S::wait_for_secs, (g, n), r),
        StateCall::Append(l, i, r) => call_ensures(S::data_append_to_list, (g, &l, i), r),
        StateCall::DeleteOf(l, i, r) => call_ensures(S::data_delete_of_list, (g, &l, &i), r),
        StateCall::Insert(l, i, v, r) => call_ensures(S::data_insert_at_list, (g, &l, &i, v), r),
        StateCall::DeleteAll(l, r) => call_ensures(S::data_delete_all_of_list, (g, &l), r),
        StateCall::Replace(l, i, v, r) => call_ensures(S::data_replace_list_at, (g, &l, &i, v), r),
        StateCall::SetVariable(x, v, r) => call_ensures(S::data_set_variable, (g, &x, v), r),
        StateCall::ChangeVariable(x, v, r) => call_ensures(S::data_change_variable_by, (g, &x, v), r),
        StateCall::Output(k, v) => call_ensures(S::write_output, (g, k, v), ()),
        StateCall::Ask(v, r) => call_ensures(S::ask_question, (g, v), r),
        StateCall::NoticeEvent(id, r) => call_ensures(S::notice_event_block_executed, (g, id), r),
        StateCall::NoticeProto(id, r) => call_ensures(S::notice_proc_proto_block_executed, (g, id), r),
        StateCall::NoticeDef(id, r) => call_ensures(S::notice_proc_def_block_executed, (g, id), r),
    }
}

/// Each call of `cs` was made through the reference at the same position of `gs`.
pub open spec fn calls_made<V: ScratchValue, S: State<V>>(gs: Seq<&mut S>, cs: Seq<StateCall<V, S::Error>>) -> bool {
    &&& gs.len() == cs.len()
    &&& forall|k: int| 0 <= k < gs.len() ==> call_made(#[trigger] gs[k], cs[k])
}

/// What a state call that gives a value gives the interpreter: the value, or the
/// state's error.
pub open spec fn lift<T, E>(r: Result<T, E>) -> Result<T, RunError<E>> {
    match r {
        Ok(v) => Ok(v),
        Err(e) => Err(RunError::State(e)),
    }
}

/// The result of a state call that gives nothing (an output counts as success).
pub open spec fn unit_result<V: ScratchValue, E>(c: StateCall<V, E>) -> Result<(), E> {
    match c {
        StateCall::Context(_, r) => r,
        StateCall::Wait(_, r) => r,
        StateCall::Append(_, _, r) => r,
        StateCall::DeleteOf(_, _, r) => r,
        StateCall::Insert(_, _, _, r) => r,
        StateCall::DeleteAll(_, r) => r,
        StateCall::Replace(_, _, _, r) => r,
        StateCall::SetVariable(_, _, r) => r,
        StateCall::ChangeVariable(_, _, r) => r,
        StateCall::Ask(_, r) => r,
        StateCall::NoticeEvent(_, r) => r,
        StateCall::NoticeProto(_, r) => r,
        StateCall::NoticeDef(_, r) => r,
        _ => Ok(()),
    }
}

/// Evaluating input `e` made the calls `cs`, through the references `gs`, and had
/// outcome `out`.
pub open spec fn expr_done<V: ScratchValue, S: State<V>>(
    p: Program<V>,
    f: Seq<ProcedureArgumentsFrame<V>>,
    m: usize,
    e: Expression<V>,
    bound: nat,
    gs: Seq<&mut S>,
    cs: Seq<StateCall<V, S::Error>>,
    out: Result<V, RunError<S::Error>>,
) -> bool {
    &&& calls_made(gs, cs)
    &&& evaluated(e, bound, (cs, out))
    &&& expr_outcome(p, f, m, e, bound, cs, out)
}

/// Evaluating boolean input `o` made the calls `cs`, through `gs`, and had outcome `out`.
pub open spec fn cond_done<V: ScratchValue, S: State<V>>(
    p: Program<V>,
    f: Seq<ProcedureArgumentsFrame<V>>,
    m: usize,
    o: Option<usize>,
    bound: nat,
    gs: Seq<&mut S>,
    cs: Seq<StateCall<V, S::Error>>,
    out: Result<bool, RunError<S::Error>>,
) -> bool {
    &&& calls_made(gs, cs)
    &&& evaluated(o, bound, (cs, out))
    &&& cond_ref_outcome(p, f, m, o, bound, cs, out)
}

/// Evaluating block `r` for its value made the calls `cs`, through `gs`, and had
/// outcome `out`.
pub open spec fn block_done<V: ScratchValue, S: State<V>>(
    p: Program<V>,
    f: Seq<ProcedureArgumentsFrame<V>>,
    m: usize,
    r: usize,
    gs: Seq<&mut S>,
    cs: Seq<StateCall<V, S::Error>>,
    out: Result<V, RunError<S::Error>>,
) -> bool {
    &&& calls_made(gs, cs)
    &&& block_value_outcome(p, f, m, r, cs, out)
}

/// Evaluating an expression block of kind `k` at `r` made the calls `cs`, through
/// `gs`, and had outcome `out`.
pub open spec fn expr_kind_done<V: ScratchValue, S: State<V>>(
    p: Program<V>,
    f: Seq<ProcedureArgumentsFrame<V>>,
    m: usize,
    k: ExprKind<V>,
    r: nat,
    gs: Seq<&mut S>,
    cs: Seq<StateCall<V, S::Error>>,
    out: Result<V, RunError<S::Error>>,
) -> bool {
    &&& calls_made(gs, cs)
    &&& expr_kind_outcome(p, f, m, k, r, cs, out)
}

/// Evaluating a comparison block of kind `c` at `r` made the calls `cs`, through `gs`,
/// and had outcome `out`.
pub open spec fn cond_kind_done<V: ScratchValue, S: State<V>>(
    p: Program<V>,
    f: Seq<ProcedureArgumentsFrame<V>>,
    m: usize,
    c: CondKind<V>,
    r: nat,
    gs: Seq<&mut S>,
    cs: Seq<StateCall<V, S::Error>>,
    out: Result<bool, RunError<S::Error>>,
) -> bool {
    &&& calls_made(gs, cs)
    &&& evaluated(c, r, (cs, out))
    &&& cond_kind_outcome(p, f, m, c, r, cs, out)
}

/// Chains of references: `lemma_chain_concat` joins the chain from `t0` to `t1` and
/// the chain from `t1` to `t2`. A chain leads from one state to another where its
/// first reference starts at the first state, each ends where the next starts, and
/// the last ends at the second state (an empty chain leads from a state to itself).
pub proof fn lemma_chain_concat<S>(t0: S, gs1: Seq<&mut S>, t1: S, gs2: Seq<&mut S>, t2: S)
    requires
        if gs1.len() == 0 {
            t1 == t0
        } else {
            mut_ref_current(gs1[0]) == t0 && mut_ref_future(gs1.last()) == t1 && forall|k: int|
                0 <= k < gs1.len() - 1 ==> mut_ref_future(#[trigger] gs1[k]) == mut_ref_current(gs1[k + 1])
        },
        if gs2.len() == 0 {
            t2 == t1
        } else {
            mut_ref_current(gs2[0]) == t1 && mut_ref_future(gs2.last()) == t2 && forall|k: int|
                0 <= k < gs2.len() - 1 ==> mut_ref_future(#[trigger] gs2[k]) == mut_ref_current(gs2[k + 1])
        },
    ensures
        ({
            let gs = gs1 + gs2;
            if gs.len() == 0 {
                t2 == t0
            } else {
                mut_ref_current(gs[0]) == t0 && mut_ref_future(gs.last()) == t2 && forall|k: int|
                    0 <= k < gs.len() - 1 ==> mut_ref_future(#[trigger] gs[k]) == mut_ref_current(gs[k + 1])
            }
        }),
{
    let gs = gs1 + gs2;
    if gs1.len() > 0 && gs2.len() > 0 {
        assert forall|k: int| 0 <= k < gs.len() - 1 implies mut_ref_future(#[trigger] gs[k]) == mut_ref_current(
            gs[k + 1],
        ) by {
            if k < gs1.len() - 1 {
                assert(gs[k] == gs1[k] && gs[k + 1] == gs1[k + 1]);
            } else if k == gs1.len() - 1 {
                assert(gs[k] == gs1.last() && gs[k + 1] == gs2[0]);
            } else {
                assert(gs[k] == gs2[k - gs1.len()] && gs[k + 1] == gs2[k - gs1.len() + 1]);
            }
        }
    } else if gs1.len() == 0 {
        assert(gs =~= gs2);
    } else {
        assert(gs =~= gs1);
    }
}

/// Calls made through two runs of references, one after the other.
pub proof fn lemma_calls_made_concat<V: ScratchValue, S: State<V>>(
    gs1: Seq<&mut S>,
    cs1: Seq<StateCall<V, S::Error>>,
    gs2: Seq<&mut S>,
    cs2: Seq<StateCall<V, S::Error>>,
)
    requires
        calls_made(gs1, cs1),
        calls_made(gs2, cs2),
    ensures
        calls_made(gs1 + gs2, cs1 + cs2),
{
    let gs = gs1 + gs2;
    let cs = cs1 + cs2;
    assert forall|k: int| 0 <= k < gs.len() implies call_made(#[trigger] gs[k], cs[k]) by {
        if k < gs1.len() {
            assert(gs[k] == gs1[k] && cs[k] == cs1[k]);
        } else {
            assert(gs[k] == gs2[k - gs1.len()] && cs[k] == cs2[k - gs1.len()]);
        }
    }
}

/// A single call through one reference.
pub proof fn lemma_one_call<V: ScratchValue, S: State<V>>(g: &mut S, c: StateCall<V, S::Error>)
    requires
        call_made(g, c),
    ensures
        calls_made(seq![g], seq![c]),
        mut_ref_current(seq![g][0]) == mut_ref_current(g),
        seq![g].last() == g,
{
}

} // verus!
