//! Properties of runs and of the default state that hold across steps and calls.
use vstd::prelude::*;

use crate::default_state::{answer_for, next_answer_index, DefaultState, RandomSource, ScratchList};
use crate::calls::StateCall;
use crate::error::RunError;
use crate::frames::ProcedureArgumentsFrame;
use crate::limits::Limits;
use crate::program::{BlockKind, Program, StmtKind, Variable};
use crate::stack::StackItem;
use crate::error::LimitError;
use crate::steps::{
    lemma_ok_step_within_limits, limits_outcome, push_next, repeat_push, run_trace, step_outcome,
    stmt_outcome, Config,
};
use crate::value::ScratchValue;

verus! {

/// The number of reminders to drop an argument frame on the stack.
pub open spec fn frame_reminders(s: Seq<StackItem<usize>>) -> nat
    decreases s.len(),
{
    if s.len() == 0 {
        0
    } else {
        frame_reminders(s.drop_last()) + if s.last() is PopArgumentFrame {
            1nat
        } else {
            0nat
        }
    }
}

/// A stack item only carries loop or call bookkeeping for a block that needs it: a
/// counting item belongs to a repeat block, a reminder to drop a frame to a call block.
pub open spec fn item_fits<V>(p: Program<V>, x: StackItem<usize>) -> bool {
    match x {
        StackItem::Normal(_) => true,
        StackItem::CountLoop(b, _) => b < p.spec_blocks().len() && p.spec_blocks()[b as int].kind matches BlockKind::Stmt(StmtKind::ControlRepeat { .. }),
        StackItem::PopArgumentFrame(b) => b < p.spec_blocks().len() && p.spec_blocks()[b as int].kind matches BlockKind::Stmt(StmtKind::ProceduresCall { .. }),
    }
}

/// What every reachable state of a run satisfies: every stack item fits its block, and
/// there is exactly one argument frame per reminder on the stack.
pub open spec fn machine_inv<V>(
    p: Program<V>,
    s: Seq<StackItem<usize>>,
    f: Seq<ProcedureArgumentsFrame<V>>,
) -> bool {
    &&& forall|i: int| 0 <= i < s.len() ==> #[trigger] item_fits(p, s[i])
    &&& f.len() == frame_reminders(s)
}

proof fn lemma_push<V>(p: Program<V>, s: Seq<StackItem<usize>>, f: Seq<ProcedureArgumentsFrame<V>>, x: StackItem<usize>)
    requires
        forall|i: int| 0 <= i < s.len() ==> #[trigger] item_fits(p, s[i]),
        item_fits(p, x),
    ensures
        forall|i: int| 0 <= i < s.push(x).len() ==> #[trigger] item_fits(p, s.push(x)[i]),
        frame_reminders(s.push(x)) == frame_reminders(s) + if x is PopArgumentFrame { 1nat } else { 0nat },
{
    assert(s.push(x).drop_last() =~= s);
    assert forall|i: int| 0 <= i < s.push(x).len() implies #[trigger] item_fits(p, s.push(x)[i]) by {
        if i < s.len() {
            assert(s.push(x)[i] == s[i]);
        }
    }
}

proof fn lemma_push_next<V>(p: Program<V>, s: Seq<StackItem<usize>>, f: Seq<ProcedureArgumentsFrame<V>>, n: Option<usize>)
    requires
        forall|i: int| 0 <= i < s.len() ==> #[trigger] item_fits(p, s[i]),
    ensures
        forall|i: int| 0 <= i < push_next(s, n).len() ==> #[trigger] item_fits(p, push_next(s, n)[i]),
        frame_reminders(push_next(s, n)) == frame_reminders(s),
{
    if let Some(b) = n {
        lemma_push(p, s, f, StackItem::Normal(b));
    }
}

proof fn lemma_drop_last<V>(p: Program<V>, s: Seq<StackItem<usize>>)
    requires
        s.len() > 0,
        forall|i: int| 0 <= i < s.len() ==> #[trigger] item_fits(p, s[i]),
    ensures
        forall|i: int| 0 <= i < s.drop_last().len() ==> #[trigger] item_fits(p, s.drop_last()[i]),
        item_fits(p, s.last()),
        frame_reminders(s) == frame_reminders(s.drop_last()) + if s.last() is PopArgumentFrame {
            1nat
        } else {
            0nat
        },
{
    assert forall|i: int| 0 <= i < s.drop_last().len() implies #[trigger] item_fits(p, s.drop_last()[i]) by {
        assert(s.drop_last()[i] == s[i]);
    }
    assert(item_fits(p, s[s.len() - 1]));
}

proof fn lemma_repeat_push<V>(
    p: Program<V>,
    s: Seq<StackItem<usize>>,
    f: Seq<ProcedureArgumentsFrame<V>>,
    id: usize,
    next: Option<usize>,
    substack: Option<usize>,
    remaining: usize,
)
    requires
        forall|i: int| 0 <= i < s.len() ==> #[trigger] item_fits(p, s[i]),
        id < p.spec_blocks().len(),
        p.spec_blocks()[id as int].kind matches BlockKind::Stmt(StmtKind::ControlRepeat { .. }),
    ensures
        forall|i: int| 0 <= i < repeat_push(s, id, next, substack, remaining).len() ==> #[trigger] item_fits(
            p,
            repeat_push(s, id, next, substack, remaining)[i],
        ),
        frame_reminders(repeat_push(s, id, next, substack, remaining)) == frame_reminders(s),
{
    if remaining == 0 {
        lemma_push_next(p, s, f, next);
    } else {
        let x = StackItem::CountLoop(id, (remaining - 1) as usize);
        lemma_push(p, s, f, x);
        lemma_push_next(p, s.push(x), f, substack);
    }
}

/// The answer position after `n` questions, starting with none asked.
pub open spec fn index_after_questions(n: nat) -> Option<usize>
    decreases n,
{
    if n == 0 {
        None
    } else {
        next_answer_index(index_after_questions((n - 1) as nat))
    }
}

/// Questions are answered in order: after the `n`-th question (counting from 1) the
/// program reads the `n`-th prepared answer, or the last one where fewer were
/// prepared, or an empty text where none were; and the `n`-th question is accepted
/// exactly when at least `n` answers were prepared.
pub proof fn lemma_answers_in_order(answers: Seq<Seq<char>>, n: nat)
    requires
        1 <= n <= usize::MAX,
    ensures
        index_after_questions(n) == Some((n - 1) as usize),
        answer_for(index_after_questions(n), answers) == if n <= answers.len() {
            answers[n - 1]
        } else if answers.len() > 0 {
            answers.last()
        } else {
            Seq::<char>::empty()
        },
        (index_after_questions(n).unwrap() < answers.len()) <==> (n <= answers.len()),
    decreases n,
{
    if n > 1 {
        lemma_answers_in_order(answers, (n - 1) as nat);
        assert(index_after_questions((n - 1) as nat) == Some((n - 2) as usize));
        assert((n - 2) as usize != usize::MAX);
        assert(index_after_questions(n) == next_answer_index(Some((n - 2) as usize)));
    } else {
        assert(index_after_questions(0) is None);
        assert(index_after_questions(1) == next_answer_index(None));
    }
}

/// A variable of a [`DefaultState`] reads back what was last written to it: once a
/// write of `v` to `x` succeeded, reading `x` gives a clone of `v`, and every other
/// variable is as it was.
pub proof fn lemma_variable_read_after_write<'a, V: ScratchValue, L: ScratchList<V>, R: RandomSource<V::Number>>(
    before: DefaultState<'a, V, L, R>,
    after: DefaultState<'a, V, L, R>,
    x: Variable,
    v: V,
    y: usize,
)
    requires
        before.spec_variables().contains_key(x.0),
        after.spec_variables() == before.spec_variables().insert(x.0, v),
    ensures
        after.spec_variables().contains_key(x.0),
        after.spec_variables()[x.0] == v,
        y != x.0 ==> after.spec_variables().contains_key(y) == before.spec_variables().contains_key(y),
        y != x.0 && before.spec_variables().contains_key(y) ==> after.spec_variables()[y]
            == before.spec_variables()[y],
{
}

/// Taking the top item off a stack just after pushing `x` gives `x` back and leaves the
/// stack as it was.
pub proof fn lemma_pop_after_push<T>(s: Seq<StackItem<T>>, x: StackItem<T>)
    ensures
        s.push(x).len() > 0,
        s.push(x).last() == x,
        s.push(x).drop_last() == s,
{
    assert(s.push(x).drop_last() =~= s);
}

/// A run starts in a state that satisfies the invariant.
pub proof fn lemma_initial_inv<V>(p: Program<V>, initial_block: usize)
    ensures
        machine_inv(p, seq![StackItem::Normal(initial_block)], Seq::<ProcedureArgumentsFrame<V>>::empty()),
{
    let s = seq![StackItem::Normal(initial_block)];
    assert(s.drop_last() =~= Seq::<StackItem<usize>>::empty());
    assert(frame_reminders(Seq::<StackItem<usize>>::empty()) == 0);
    assert(frame_reminders(s) == 0);
    assert forall|i: int| 0 <= i < s.len() implies #[trigger] item_fits(p, s[i]) by {
        assert(s[i] == StackItem::<usize>::Normal(initial_block));
    }
}

/// In a state that satisfies the invariant and has something left to run, a step never
/// ends in an internal error.
pub proof fn lemma_step_no_internal_error<V: ScratchValue, E>(
    p: Program<V>,
    limits: Limits,
    m: usize,
    count: usize,
    s: Seq<StackItem<usize>>,
    f: Seq<ProcedureArgumentsFrame<V>>,
    s1: Seq<StackItem<usize>>,
    f1: Seq<ProcedureArgumentsFrame<V>>,
    cs: Seq<StateCall<V, E>>,
    out: Result<(), RunError<E>>,
)
    requires
        machine_inv(p, s, f),
        s.len() > 0,
        step_outcome(p, limits, m, count, s, f, s1, f1, cs, out),
    ensures
        !(out matches Err(RunError::Internal(_))),
{
    reveal(step_outcome);
    lemma_drop_last(p, s);
}

/// Every step that succeeds keeps the invariant.
pub proof fn lemma_step_preserves_inv<V: ScratchValue, E>(
    p: Program<V>,
    limits: Limits,
    m: usize,
    count: usize,
    s: Seq<StackItem<usize>>,
    f: Seq<ProcedureArgumentsFrame<V>>,
    s1: Seq<StackItem<usize>>,
    f1: Seq<ProcedureArgumentsFrame<V>>,
    cs: Seq<StateCall<V, E>>,
    out: Result<(), RunError<E>>,
)
    requires
        machine_inv(p, s, f),
        step_outcome(p, limits, m, count, s, f, s1, f1, cs, out),
        out is Ok,
    ensures
        machine_inv(p, s1, f1),
{
    reveal(step_outcome);
    let item = s.last();
    let r = s.drop_last();
    lemma_drop_last(p, s);
    let id = item.spec_value();
    assert(id < p.spec_blocks().len());
    let block = p.spec_blocks()[id as int];
    match block.kind {
        BlockKind::Stmt(st) => {
            assert(stmt_outcome(p, f, m, id, item, block.next, st, r, s1, f1, cs.drop_first(), out));
            match st {
                StmtKind::ProceduresCall { .. } => {
                    match item {
                        StackItem::Normal(_) => {
                            lemma_push_next(p, r, f, block.next);
                            let s2 = push_next(r, block.next);
                            lemma_push(p, s2, f, StackItem::PopArgumentFrame(id));
                            let s3 = s2.push(StackItem::PopArgumentFrame(id));
                            let def = s1.last().spec_value();
                            assert(s1 == s3.push(StackItem::<usize>::Normal(def)));
                            lemma_push(p, s3, f, StackItem::Normal(def));
                        },
                        _ => {},
                    }
                },
                StmtKind::ControlIf { condition, substack } => {
                    lemma_push_next(p, r, f, block.next);
                    lemma_push_next(p, push_next(r, block.next), f, substack);
                },
                StmtKind::ControlIfElse { condition, substack, substack2 } => {
                    lemma_push_next(p, r, f, block.next);
                    lemma_push_next(p, push_next(r, block.next), f, substack);
                    lemma_push_next(p, push_next(r, block.next), f, substack2);
                },
                StmtKind::ControlRepeatUntil { condition, substack } => {
                    lemma_push_next(p, r, f, block.next);
                    if let Some(b) = substack {
                        lemma_push(p, r, f, item);
                        lemma_push(p, r.push(item), f, StackItem::Normal(b));
                    }
                },
                StmtKind::ControlForever { substack } => {
                    if let Some(b) = substack {
                        lemma_push(p, r, f, item);
                        lemma_push(p, r.push(item), f, StackItem::Normal(b));
                    }
                },
                StmtKind::ControlRepeat { times, substack } => {
                    assert forall|rem: usize| true implies {
                        &&& forall|i: int| 0 <= i < repeat_push(r, id, block.next, substack, rem).len() ==> #[trigger] item_fits(
                            p,
                            repeat_push(r, id, block.next, substack, rem)[i],
                        )
                        &&& frame_reminders(repeat_push(r, id, block.next, substack, rem)) == frame_reminders(r)
                    } by {
                        lemma_repeat_push(p, r, f, id, block.next, substack, rem);
                    }
                },
                _ => {
                    lemma_push_next(p, r, f, block.next);
                },
            }
        },
        _ => {
            lemma_push_next(p, r, f, block.next);
        },
    }
}

proof fn lemma_trace_inv<V: ScratchValue, E>(
    p: Program<V>,
    limits: Limits,
    m: usize,
    initial: usize,
    trace: Seq<Config<V>>,
    steps: Seq<Seq<StateCall<V, E>>>,
    outcome: Option<RunError<E>>,
    k: int,
)
    requires
        run_trace(p, limits, m, initial, trace, steps, outcome),
        0 <= k < trace.len(),
    ensures
        machine_inv(p, trace[k].0, trace[k].1),
    decreases k,
{
    if k == 0 {
        lemma_initial_inv(p, initial);
    } else {
        lemma_trace_inv(p, limits, m, initial, trace, steps, outcome, k - 1);
        let i = k - 1;
        assert(trace[i].0.len() > 0);
        lemma_step_preserves_inv(
            p,
            limits,
            m,
            i as usize,
            trace[i].0,
            trace[i].1,
            trace[i + 1].0,
            trace[i + 1].1,
            steps[i],
            Ok::<(), RunError<E>>(()),
        );
    }
}

/// A run never ends in an internal error: every course a run can take that ends in an
/// error ends in one of the other kinds.
pub proof fn lemma_run_never_internal<V: ScratchValue, E>(
    p: Program<V>,
    limits: Limits,
    m: usize,
    initial: usize,
    trace: Seq<Config<V>>,
    steps: Seq<Seq<StateCall<V, E>>>,
    e: RunError<E>,
)
    requires
        run_trace(p, limits, m, initial, trace, steps, Some(e)),
    ensures
        !(e matches RunError::Internal(_)),
{
    if trace.len() != usize::MAX + 2 || e != RunError::<E>::Limit(LimitError::ExceededAllowedStmtCount) {
        let last = trace.len() - 1;
        lemma_trace_inv(p, limits, m, initial, trace, steps, Some(e), last);
        let (s1, f1) = choose|s1: Seq<StackItem<usize>>, f1: Seq<ProcedureArgumentsFrame<V>>|
            #![trigger step_outcome(p, limits, m, (trace.len() - 1) as usize, trace.last().0, trace.last().1, s1, f1, steps.last(), Err::<(), RunError<E>>(e))]
            step_outcome(p, limits, m, (trace.len() - 1) as usize, trace.last().0, trace.last().1, s1, f1, steps.last(), Err::<(), RunError<E>>(e));
        lemma_step_no_internal_error(
            p,
            limits,
            m,
            (trace.len() - 1) as usize,
            trace.last().0,
            trace.last().1,
            s1,
            f1,
            steps.last(),
            Err::<(), RunError<E>>(e),
        );
    }
}

/// A bound on executed statements bounds every run: with at most `n` statements
/// allowed, a run takes at most `n + 1` successful steps.
pub proof fn lemma_run_bounded_by_statement_limit<V: ScratchValue, E>(
    p: Program<V>,
    limits: Limits,
    m: usize,
    initial: usize,
    trace: Seq<Config<V>>,
    steps: Seq<Seq<StateCall<V, E>>>,
    outcome: Option<RunError<E>>,
    n: usize,
)
    requires
        run_trace(p, limits, m, initial, trace, steps, outcome),
        limits@.1 == Some(n),
    ensures
        trace.len() <= n + 2,
{
    if trace.len() > n + 2 {
        let i = n + 1;
        assert(trace[i].0.len() > 0);
        lemma_ok_step_within_limits::<V, E>(
            p,
            limits,
            m,
            i as usize,
            trace[i].0,
            trace[i].1,
            trace[i + 1].0,
            trace[i + 1].1,
            steps[i],
        );
    }
}

/// A bound on the stack height holds before every successful step of a run.
pub proof fn lemma_run_bounded_by_stack_limit<V: ScratchValue, E>(
    p: Program<V>,
    limits: Limits,
    m: usize,
    initial: usize,
    trace: Seq<Config<V>>,
    steps: Seq<Seq<StateCall<V, E>>>,
    outcome: Option<RunError<E>>,
    h: usize,
)
    requires
        run_trace(p, limits, m, initial, trace, steps, outcome),
        limits@.2 == Some(h),
    ensures
        forall|i: int| 0 <= i < trace.len() - 1 ==> #[trigger] trace[i].0.len() <= h,
{
    assert forall|i: int| 0 <= i < trace.len() - 1 implies #[trigger] trace[i].0.len() <= h by {
        lemma_ok_step_within_limits::<V, E>(
            p,
            limits,
            m,
            i as usize,
            trace[i].0,
            trace[i].1,
            trace[i + 1].0,
            trace[i + 1].1,
            steps[i],
        );
    }
}

} // verus!
