use scratch_test_interpreter::default_state::{Action, DefaultState, DefaultStateError, RandomSource, ScratchList};
use scratch_test_interpreter::error::{InvalidFileError, LimitError, RunError, UnsupportedError, UserError};
use scratch_test_interpreter::program::{
    Block, BlockKind, CondKind, ExprKind, Expression, List, Procedure, ProcedureArgumentDef, Program, StmtKind,
    Variable,
};
use scratch_test_interpreter::value::{MathOp, ScratchValue};
use scratch_test_interpreter::{Interpreter, Limits, OutputKind, State};

#[derive(Debug, Clone, PartialEq)]
enum Val {
    Num(f64),
    Text(String),
    Bool(bool),
}

impl Val {
    fn text(&self) -> String {
        match self {
            Val::Num(n) => {
                if n.fract() == 0.0 {
                    format!("{}", *n as i64)
                } else {
                    format!("{}", n)
                }
            }
            Val::Text(t) => t.clone(),
            Val::Bool(b) => format!("{}", b),
        }
    }
}

impl ScratchValue for Val {
    type Number = f64;
    type Float = f64;

    fn from_bool(b: bool) -> Self {
        Val::Bool(b)
    }
    fn from_int(i: i64) -> Self {
        Val::Num(i as f64)
    }
    fn from_number(n: f64) -> Self {
        Val::Num(n)
    }
    fn from_text(text: String) -> Self {
        Val::Text(text)
    }
    fn empty_text() -> Self {
        Val::Text(String::new())
    }
    fn as_bool(&self) -> bool {
        match self {
            Val::Bool(b) => *b,
            Val::Num(n) => *n != 0.0,
            Val::Text(t) => !(t.is_empty() || t == "0" || t.eq_ignore_ascii_case("false")),
        }
    }
    fn as_number(&self) -> f64 {
        match self {
            Val::Num(n) => *n,
            Val::Bool(b) => {
                if *b {
                    1.0
                } else {
                    0.0
                }
            }
            Val::Text(t) => t.trim().parse().unwrap_or(0.0),
        }
    }
    fn as_float(&self) -> f64 {
        self.as_number()
    }
    fn int_or_border(&self) -> i64 {
        let n = self.as_number();
        if n.is_nan() {
            0
        } else {
            n.round() as i64
        }
    }
    fn greater_than(&self, other: &Self) -> bool {
        self.as_number() > other.as_number()
    }
    fn less_than(&self, other: &Self) -> bool {
        self.as_number() < other.as_number()
    }
    fn equals(&self, other: &Self) -> bool {
        self.text().to_lowercase() == other.text().to_lowercase()
    }
    fn contains_text(&self, other: &Self) -> bool {
        self.text().to_lowercase().contains(&other.text().to_lowercase())
    }
    fn add_numbers(&self, other: &Self) -> Self {
        Val::Num(self.as_number() + other.as_number())
    }
    fn mul_numbers(&self, other: &Self) -> Self {
        Val::Num(self.as_number() * other.as_number())
    }
    fn sub_numbers(&self, other: &Self) -> Self {
        Val::Num(self.as_number() - other.as_number())
    }
    fn div_numbers(&self, other: &Self) -> Self {
        Val::Num(self.as_number() / other.as_number())
    }
    fn modulo(&self, other: &Self) -> Self {
        Val::Num(self.as_number().rem_euclid(other.as_number()))
    }
    fn math_op(&self, op: MathOp) -> Self {
        let n = self.as_number();
        Val::Num(match op {
            MathOp::Abs => n.abs(),
            MathOp::Floor => n.floor(),
            MathOp::Ceiling => n.ceil(),
            MathOp::Sqrt => n.sqrt(),
            MathOp::TenRaisedTo => 10f64.powf(n),
            _ => n,
        })
    }
    fn round(&self) -> Self {
        Val::Num(self.as_number().round())
    }
    fn concat(&self, other: &Self, max_length: usize) -> Option<Self> {
        let s = format!("{}{}", self.text(), other.text());
        if s.chars().count() > max_length {
            None
        } else {
            Some(Val::Text(s))
        }
    }
    fn textual_length(&self) -> usize {
        self.text().chars().count()
    }
    fn nth_letter(&self, letter: &Self) -> Self {
        let i = letter.as_number() as usize;
        match self.text().chars().nth(i.wrapping_sub(1)) {
            Some(c) => Val::Text(c.to_string()),
            None => Val::Text(String::new()),
        }
    }
}

#[derive(Debug)]
struct TList(Vec<Val>, usize);

impl ScratchList<Val> for TList {
    fn insert_item_at(&mut self, one_based_index: &Val, item: Val) -> Result<(), ()> {
        if self.0.len() >= self.1 {
            return Err(());
        }
        let i = one_based_index.as_number() as usize;
        if i >= 1 && i <= self.0.len() + 1 {
            self.0.insert(i - 1, item);
        }
        Ok(())
    }
    fn replace_nth_item(&mut self, one_based_index: &Val, item: Val) {
        let i = one_based_index.as_number() as usize;
        if i >= 1 && i <= self.0.len() {
            self.0[i - 1] = item;
        }
    }
    fn append_item(&mut self, item: Val) -> Result<(), ()> {
        if self.0.len() >= self.1 {
            return Err(());
        }
        self.0.push(item);
        Ok(())
    }
    fn contains_item(&self, item: &Val) -> bool {
        self.0.iter().any(|x| x.equals(item))
    }
    fn delete_nth(&mut self, one_based_index: &Val) {
        let i = one_based_index.as_number() as usize;
        if i >= 1 && i <= self.0.len() {
            self.0.remove(i - 1);
        }
    }
    fn delete_all(&mut self) {
        self.0.clear();
    }
    fn textual_representation(&self) -> Val {
        Val::Text(self.0.iter().map(|x| x.text()).collect::<Vec<_>>().join(" "))
    }
    fn first_index_of_item_in_list(&self, item: &Val) -> i64 {
        match self.0.iter().position(|x| x.equals(item)) {
            Some(p) => p as i64 + 1,
            None => 0,
        }
    }
    fn nth_item(&self, one_based_index: &Val) -> Val {
        let i = one_based_index.as_number() as usize;
        if i >= 1 && i <= self.0.len() {
            self.0[i - 1].clone()
        } else {
            Val::Text(String::new())
        }
    }
    fn length(&self) -> i64 {
        self.0.len() as i64
    }
}

#[derive(Debug)]
struct Lowest;

impl RandomSource<f64> for Lowest {
    fn random_between(&mut self, from: &f64, to: &f64) -> f64 {
        from.min(*to)
    }
}

type St<'a> = DefaultState<'a, Val, TList, Lowest>;

fn num(n: f64) -> Expression<Val> {
    Expression::Lit(Val::Num(n))
}

fn txt(s: &str) -> Expression<Val> {
    Expression::Lit(Val::Text(s.to_string()))
}

fn stmt(kind: StmtKind<Val>, next: Option<usize>) -> Block<Val> {
    Block { next, kind: BlockKind::Stmt(kind) }
}

fn expr(kind: ExprKind<Val>) -> Block<Val> {
    Block { next: None, kind: BlockKind::Expr(kind) }
}

fn cond(kind: CondKind<Val>) -> Block<Val> {
    Block { next: None, kind: BlockKind::Cond(kind) }
}

fn hat(next: Option<usize>) -> Block<Val> {
    Block { next, kind: BlockKind::Event }
}

fn say(message: Expression<Val>, next: Option<usize>) -> Block<Val> {
    stmt(StmtKind::LooksSay { message }, next)
}

fn outputs(state: &St) -> Vec<String> {
    state
        .actions()
        .iter()
        .filter_map(|a| match a {
            Action::Output { message, .. } => Some(message.text()),
            _ => None,
        })
        .collect()
}

fn program(blocks: Vec<Block<Val>>, procedures: Vec<Procedure>) -> Program<Val> {
    match Program::new(blocks, procedures) {
        Ok(p) => p,
        Err(i) => panic!("block {} refers forward", i),
    }
}

#[test]
fn say_hello_records_output() {
    let p = program(vec![hat(Some(1)), say(txt("Hello"), None)], vec![]);
    let report = Interpreter::new_restrictive().run(&p, St::new(), 0);
    assert!(report.error_code().is_none());
    let actions = report.state().actions();
    assert_eq!(actions.len(), 1);
    match &actions[0] {
        Action::Output { kind, message } => {
            assert_eq!(*kind, OutputKind::Say);
            assert_eq!(*message, Val::Text("Hello".to_string()));
        }
        _ => panic!("expected an output"),
    }
}

#[test]
fn repeat_runs_body_given_times() {
    let p = program(
        vec![
            hat(Some(1)),
            stmt(StmtKind::ControlRepeat { times: num(3.0), substack: Some(2) }, Some(3)),
            say(txt("x"), None),
            say(txt("done"), None),
        ],
        vec![],
    );
    let report = Interpreter::new_restrictive().run(&p, St::new(), 0);
    assert!(report.error_code().is_none());
    assert_eq!(outputs(report.state()), vec!["x", "x", "x", "done"]);
}

#[test]
fn repeat_with_negative_count_skips_body() {
    let p = program(
        vec![
            stmt(StmtKind::ControlRepeat { times: num(-2.0), substack: Some(1) }, Some(2)),
            say(txt("x"), None),
            say(txt("done"), None),
        ],
        vec![],
    );
    let report = Interpreter::new_restrictive().run(&p, St::new(), 0);
    assert!(report.error_code().is_none());
    assert_eq!(outputs(report.state()), vec!["done"]);
}

#[test]
fn if_else_takes_branch_by_condition() {
    let p = program(
        vec![
            cond(CondKind::OperatorGt { operand1: num(5.0), operand2: num(3.0) }),
            stmt(StmtKind::ControlIfElse { condition: Some(0), substack: Some(2), substack2: Some(3) }, Some(4)),
            say(txt("bigger"), None),
            say(txt("smaller"), None),
            stmt(StmtKind::ControlIf { condition: None, substack: Some(3) }, Some(5)),
            say(txt("end"), None),
        ],
        vec![],
    );
    let report = Interpreter::new_restrictive().run(&p, St::new(), 1);
    assert!(report.error_code().is_none());
    assert_eq!(outputs(report.state()), vec!["bigger", "end"]);
}

#[test]
fn boolean_operators_combine() {
    let p = program(
        vec![
            cond(CondKind::OperatorContains { string1: txt("Hello World"), string2: txt("world") }),
            cond(CondKind::OperatorNot { operand: None }),
            cond(CondKind::OperatorAnd { operand1: Some(0), operand2: Some(1) }),
            cond(CondKind::OperatorOr { operand1: None, operand2: Some(2) }),
            cond(CondKind::OperatorEquals { operand1: txt("a"), operand2: txt("b") }),
            stmt(StmtKind::ControlIf { condition: Some(3), substack: Some(7) }, Some(6)),
            stmt(StmtKind::ControlIf { condition: Some(4), substack: Some(8) }, None),
            say(txt("yes"), None),
            say(txt("equal"), None),
        ],
        vec![],
    );
    let report = Interpreter::new_restrictive().run(&p, St::new(), 5);
    assert!(report.error_code().is_none());
    assert_eq!(outputs(report.state()), vec!["yes"]);
}

#[test]
fn variables_are_set_and_changed() {
    let p = program(
        vec![
            stmt(StmtKind::DataSetVariableTo { variable: Variable(0), value: num(5.0) }, Some(1)),
            stmt(StmtKind::DataChangeVariableBy { variable: Variable(0), value: num(2.0) }, Some(2)),
            say(Expression::Var(Variable(0)), None),
        ],
        vec![],
    );
    let mut st = St::new();
    st.variables_mut().insert(0, Val::Num(0.0));
    let report = Interpreter::new_restrictive().run(&p, st, 0);
    assert!(report.error_code().is_none());
    assert_eq!(outputs(report.state()), vec!["7"]);
    assert_eq!(report.state().variables().get(&0), Some(&Val::Num(7.0)));
}

#[test]
fn unknown_variable_is_a_state_error() {
    let p = program(
        vec![stmt(StmtKind::DataSetVariableTo { variable: Variable(3), value: num(5.0) }, None)],
        vec![],
    );
    let report = Interpreter::new_restrictive().run(&p, St::new(), 0);
    assert_eq!(
        *report.error_code(),
        Some(RunError::State(DefaultStateError::VariableNotFound(Variable(3))))
    );
}

fn greet_procedure() -> Procedure {
    Procedure {
        procedure_id: "greet %s".to_string(),
        arguments: vec![ProcedureArgumentDef { argument_id: "a1".to_string(), name: "who".to_string() }],
        definition_block: 3,
    }
}

#[test]
fn procedure_call_binds_arguments_by_name() {
    let p = program(
        vec![
            hat(Some(1)),
            stmt(
                StmtKind::ProceduresCall {
                    procedure_id: "greet %s".to_string(),
                    arguments: vec![("a1".to_string(), Some(txt("Bob")))],
                },
                Some(2),
            ),
            say(txt("after"), None),
            Block { next: Some(4), kind: BlockKind::ProceduresDefinition },
            say(Expression::Blo(5), None),
            expr(ExprKind::ArgumentReporterStringNumber { value: "who".to_string() }),
        ],
        vec![greet_procedure()],
    );
    let report = Interpreter::new_restrictive().run(&p, St::new(), 0);
    assert!(report.error_code().is_none());
    assert_eq!(outputs(report.state()), vec!["Bob", "after"]);
}

#[test]
fn argument_reporter_outside_call_is_empty_text() {
    let p = program(
        vec![
            expr(ExprKind::ArgumentReporterStringNumber { value: "who".to_string() }),
            cond(CondKind::ArgumentReporterBoolean { value: "flag".to_string() }),
            say(Expression::Blo(0), Some(3)),
            say(Expression::Blo(1), None),
        ],
        vec![],
    );
    let report = Interpreter::new_restrictive().run(&p, St::new(), 2);
    assert!(report.error_code().is_none());
    assert_eq!(outputs(report.state()), vec!["", "false"]);
}

#[test]
fn call_of_unknown_procedure_fails() {
    let p = program(
        vec![stmt(StmtKind::ProceduresCall { procedure_id: "nope".to_string(), arguments: vec![] }, None)],
        vec![greet_procedure()],
    );
    let report = Interpreter::new_restrictive().run(&p, St::new(), 0);
    assert_eq!(*report.error_code(), Some(RunError::File(InvalidFileError::CantFindProcedureForCall)));
}

#[test]
fn call_with_missing_argument_fails() {
    let p = program(
        vec![
            stmt(StmtKind::ProceduresCall { procedure_id: "greet %s".to_string(), arguments: vec![] }, None),
            say(txt("x"), None),
            say(txt("x"), None),
            Block { next: None, kind: BlockKind::ProceduresDefinition },
        ],
        vec![greet_procedure()],
    );
    let report = Interpreter::new_restrictive().run(&p, St::new(), 0);
    assert_eq!(*report.error_code(), Some(RunError::File(InvalidFileError::MissingArgForProcedureParameter)));
}

#[test]
fn call_with_extra_argument_fails() {
    let p = program(
        vec![
            stmt(
                StmtKind::ProceduresCall {
                    procedure_id: "greet %s".to_string(),
                    arguments: vec![("a1".to_string(), None), ("a2".to_string(), Some(num(1.0)))],
                },
                None,
            ),
            say(txt("x"), None),
            say(txt("x"), None),
            Block { next: None, kind: BlockKind::ProceduresDefinition },
        ],
        vec![greet_procedure()],
    );
    let report = Interpreter::new_restrictive().run(&p, St::new(), 0);
    assert_eq!(*report.error_code(), Some(RunError::File(InvalidFileError::ExtraArgWithoutProcedureParameter)));
}

#[test]
fn stop_block_terminates_run() {
    let p = program(vec![stmt(StmtKind::ControlStop, Some(1)), say(txt("never"), None)], vec![]);
    let report = Interpreter::new_restrictive().run(&p, St::new(), 0);
    assert_eq!(*report.error_code(), Some(RunError::TerminatedByControlStop));
    assert!(report.state().actions().is_empty());
}

#[test]
fn forever_loop_hits_statement_limit() {
    let p = program(
        vec![stmt(StmtKind::ControlForever { substack: Some(1) }, None), stmt(StmtKind::NoEffect, None)],
        vec![],
    );
    let report = Interpreter::new_restrictive().run(&p, St::new(), 0);
    assert_eq!(*report.error_code(), Some(RunError::Limit(LimitError::ExceededAllowedStmtCount)));
}

#[test]
fn statement_limit_counts_executed_statements() {
    let blocks = vec![
        stmt(StmtKind::NoEffect, Some(1)),
        stmt(StmtKind::NoEffect, Some(2)),
        stmt(StmtKind::NoEffect, None),
    ];
    let p = program(blocks, vec![]);
    let tight = Interpreter::new_restrictive().with_limits(Limits::new().with_max_executed_stmts(Some(1)));
    let report = tight.run(&p, St::new(), 0);
    assert_eq!(*report.error_code(), Some(RunError::Limit(LimitError::ExceededAllowedStmtCount)));
    let enough = Interpreter::new_restrictive().with_limits(Limits::new().with_max_executed_stmts(Some(2)));
    let report = enough.run(&p, St::new(), 0);
    assert!(report.error_code().is_none());
}

#[test]
fn endless_recursion_hits_stack_limit() {
    let p = program(
        vec![
            stmt(StmtKind::ProceduresCall { procedure_id: "rec".to_string(), arguments: vec![] }, None),
            Block { next: Some(0), kind: BlockKind::ProceduresDefinition },
        ],
        vec![Procedure { procedure_id: "rec".to_string(), arguments: vec![], definition_block: 1 }],
    );
    let report = Interpreter::new_restrictive().run(&p, St::new(), 0);
    assert_eq!(*report.error_code(), Some(RunError::Limit(LimitError::MaxStackSizeExceeded)));
}

#[test]
fn expression_block_as_statement_fails() {
    let p = program(vec![hat(Some(1)), expr(ExprKind::SensingAnswer)], vec![]);
    let report = Interpreter::new_restrictive().run(&p, St::new(), 0);
    assert_eq!(
        *report.error_code(),
        Some(RunError::File(InvalidFileError::FoundExpressionWhenStmtExpected(1)))
    );
}

#[test]
fn unknown_next_block_fails() {
    let p = program(vec![hat(Some(99))], vec![]);
    let report = Interpreter::new_restrictive().run(&p, St::new(), 0);
    assert_eq!(*report.error_code(), Some(RunError::File(InvalidFileError::ReachedUnknownBlock(99))));
}

#[test]
fn input_referring_to_statement_fails() {
    let p = program(vec![say(Expression::Blo(0), None)], vec![]);
    let report = Interpreter::new_restrictive().run(&p, St::new(), 0);
    assert_eq!(*report.error_code(), Some(RunError::File(InvalidFileError::NoBlockFoundForReference(0))));
}

#[test]
fn unsupported_blocks_fail() {
    let p = program(vec![stmt(StmtKind::CloneBlock, None)], vec![]);
    let report = Interpreter::new_restrictive().run(&p, St::new(), 0);
    assert_eq!(
        *report.error_code(),
        Some(RunError::Unsupported(UnsupportedError::CloneBlocksNotSupported(0)))
    );
    let p = program(vec![stmt(StmtKind::EventBroadcast, None)], vec![]);
    let report = Interpreter::new_restrictive().run(&p, St::new(), 0);
    assert_eq!(*report.error_code(), Some(RunError::Unsupported(UnsupportedError::EventSendingNotSupported)));
    let p = program(vec![expr(ExprKind::UnsupportedLooks), say(Expression::Blo(0), None)], vec![]);
    let report = Interpreter::new_restrictive().run(&p, St::new(), 1);
    assert_eq!(*report.error_code(), Some(RunError::Unsupported(UnsupportedError::UnsupportedLooksBlock)));
    let p = program(
        vec![cond(CondKind::UnsupportedSensing), stmt(StmtKind::ControlWaitUntil { condition: Some(0) }, None)],
        vec![],
    );
    let report = Interpreter::new_restrictive().run(&p, St::new(), 1);
    assert_eq!(*report.error_code(), Some(RunError::Unsupported(UnsupportedError::UnsupportedSensingBlock)));
}

#[test]
fn loops_that_never_end_are_reported() {
    let p = program(vec![stmt(StmtKind::ControlWaitUntil { condition: None }, None)], vec![]);
    let report = Interpreter::new_restrictive().run(&p, St::new(), 0);
    assert_eq!(
        *report.error_code(),
        Some(RunError::User(UserError::WaitUntilFalseNeverTerminatesInSingleThreadded))
    );
    let p = program(vec![stmt(StmtKind::ControlForever { substack: None }, None)], vec![]);
    let report = Interpreter::new_restrictive().run(&p, St::new(), 0);
    assert_eq!(*report.error_code(), Some(RunError::User(UserError::InfiniteLoopWithoutBodyNeverStops)));
    let p = program(vec![stmt(StmtKind::ControlRepeatUntil { condition: None, substack: None }, None)], vec![]);
    let report = Interpreter::new_restrictive().run(&p, St::new(), 0);
    assert_eq!(*report.error_code(), Some(RunError::User(UserError::ConditionLoopWithoutBodyNeverStops)));
}

#[test]
fn repeat_until_runs_until_condition_holds() {
    let p = program(
        vec![
            cond(CondKind::OperatorGt { operand1: Expression::Var(Variable(0)), operand2: num(2.0) }),
            stmt(StmtKind::ControlRepeatUntil { condition: Some(0), substack: Some(2) }, Some(3)),
            stmt(StmtKind::DataChangeVariableBy { variable: Variable(0), value: num(1.0) }, None),
            say(Expression::Var(Variable(0)), None),
        ],
        vec![],
    );
    let mut st = St::new();
    st.variables_mut().insert(0, Val::Num(0.0));
    let report = Interpreter::new_restrictive().run(&p, st, 1);
    assert!(report.error_code().is_none());
    assert_eq!(outputs(report.state()), vec!["3"]);
}

#[test]
fn questions_are_answered_in_order() {
    let p = program(
        vec![
            stmt(StmtKind::SensingAskAndWait { question: txt("name?") }, Some(2)),
            expr(ExprKind::SensingAnswer),
            say(Expression::Blo(1), Some(3)),
            stmt(StmtKind::SensingAskAndWait { question: txt("again?") }, None),
        ],
        vec![],
    );
    let mut st = St::new();
    st.set_answers(vec!["Ada"]);
    let report = Interpreter::new_restrictive().run(&p, st, 0);
    assert_eq!(*report.error_code(), Some(RunError::State(DefaultStateError::NoMoreAnswers)));
    let actions = report.state().actions();
    assert_eq!(actions.len(), 3);
    assert!(matches!(&actions[0], Action::AskQuestion { message } if *message == Val::Text("name?".to_string())));
    assert!(matches!(&actions[1], Action::Output { message, .. } if *message == Val::Text("Ada".to_string())));
    assert!(matches!(&actions[2], Action::AskQuestion { .. }));
}

#[test]
fn join_beyond_string_limit_fails() {
    let long = "a".repeat(6000);
    let p = program(
        vec![
            expr(ExprKind::OperatorJoin { string1: txt(&long), string2: txt(&long) }),
            say(Expression::Blo(0), None),
        ],
        vec![],
    );
    let report = Interpreter::new_restrictive().run(&p, St::new(), 1);
    assert_eq!(*report.error_code(), Some(RunError::Limit(LimitError::StringExceededLengthLimit(10240))));
}

#[test]
fn arithmetic_and_text_operators() {
    let p = program(
        vec![
            expr(ExprKind::OperatorAdd { num1: num(2.0), num2: num(3.0) }),
            expr(ExprKind::OperatorMultiply { num1: Expression::Blo(0), num2: num(4.0) }),
            expr(ExprKind::OperatorSubtract { num1: Expression::Blo(1), num2: num(1.0) }),
            expr(ExprKind::OperatorDivide { num1: num(7.0), num2: num(2.0) }),
            expr(ExprKind::OperatorMod { num1: num(7.0), num2: num(3.0) }),
            expr(ExprKind::OperatorMathop { operator: MathOp::Abs, num: num(-4.0) }),
            expr(ExprKind::OperatorRound { num: num(2.6) }),
            expr(ExprKind::OperatorJoin { string1: txt("ab"), string2: txt("cd") }),
            expr(ExprKind::OperatorLength { string: Expression::Blo(7) }),
            expr(ExprKind::OperatorLetterOf { letter: num(2.0), string: Expression::Blo(7) }),
            say(Expression::Blo(2), Some(11)),
            say(Expression::Blo(3), Some(12)),
            say(Expression::Blo(4), Some(13)),
            say(Expression::Blo(5), Some(14)),
            say(Expression::Blo(6), Some(15)),
            say(Expression::Blo(8), Some(16)),
            say(Expression::Blo(9), None),
        ],
        vec![],
    );
    let report = Interpreter::new_restrictive().run(&p, St::new(), 10);
    assert!(report.error_code().is_none());
    assert_eq!(outputs(report.state()), vec!["19", "3.5", "1", "4", "3", "4", "b"]);
}

#[test]
fn random_numbers_need_a_source() {
    let p = program(
        vec![expr(ExprKind::OperatorRandom { from: num(1.0), to: num(6.0) }), say(Expression::Blo(0), None)],
        vec![],
    );
    let report = Interpreter::new_restrictive().run(&p, St::new(), 1);
    assert_eq!(*report.error_code(), Some(RunError::State(DefaultStateError::RandomsDisabled)));
    let mut st = St::new();
    st.set_randoms(Some(Lowest));
    let report = Interpreter::new_restrictive().run(&p, st, 1);
    assert!(report.error_code().is_none());
    let actions = report.state().actions();
    assert!(matches!(&actions[0], Action::RequestRandom { from, to, received } if *from == 1.0 && *to == 6.0 && *received == 1.0));
    assert_eq!(outputs(report.state()), vec!["1"]);
}

#[test]
fn list_blocks_use_the_state_lists() {
    let p = program(
        vec![
            stmt(StmtKind::DataAddToList { list: List(0), item: txt("apple") }, Some(1)),
            stmt(StmtKind::DataAddToList { list: List(0), item: txt("pear") }, Some(2)),
            stmt(StmtKind::DataInsertAtList { list: List(0), index: num(1.0), item: txt("fig") }, Some(3)),
            stmt(StmtKind::DataReplaceItemOfList { list: List(0), index: num(3.0), item: txt("plum") }, Some(4)),
            stmt(StmtKind::DataDeleteOfList { list: List(0), index: num(2.0) }, Some(9)),
            expr(ExprKind::DataLengthOfList { list: List(0) }),
            expr(ExprKind::DataItemOfList { list: List(0), index: num(2.0) }),
            expr(ExprKind::DataItemNumOfList { list: List(0), item: txt("fig") }),
            cond(CondKind::DataListContainsItem { list: List(0), item: txt("plum") }),
            say(Expression::Blo(5), Some(10)),
            say(Expression::Blo(6), Some(11)),
            say(Expression::Blo(7), Some(12)),
            say(Expression::Blo(8), Some(13)),
            say(Expression::Lis(List(0)), Some(14)),
            stmt(StmtKind::DataDeleteAllOfList { list: List(0) }, Some(15)),
            say(Expression::Blo(5), None),
        ],
        vec![],
    );
    let mut st = St::new();
    st.lists_mut().insert(0, TList(vec![], 10));
    let report = Interpreter::new_restrictive().run(&p, st, 0);
    assert_eq!(*report.error_code(), None);
    assert_eq!(outputs(report.state()), vec!["2", "plum", "1", "true", "fig plum", "0"]);
}

#[test]
fn full_list_and_missing_list_are_state_errors() {
    let p = program(vec![stmt(StmtKind::DataAddToList { list: List(0), item: txt("a") }, None)], vec![]);
    let mut st = St::new();
    st.lists_mut().insert(0, TList(vec![], 0));
    let report = Interpreter::new_restrictive().run(&p, st, 0);
    assert_eq!(*report.error_code(), Some(RunError::State(DefaultStateError::ListFull { id: List(0) })));
    let report = Interpreter::new_restrictive().run(&p, St::new(), 0);
    assert_eq!(*report.error_code(), Some(RunError::State(DefaultStateError::ListNotFound(List(0)))));
}

#[test]
fn timed_outputs_and_waits_are_recorded() {
    let p = program(
        vec![
            stmt(StmtKind::LooksThinkForSecs { message: txt("hmm"), secs: num(2.0) }, Some(1)),
            stmt(StmtKind::ControlWait { duration: num(1.5) }, Some(2)),
            stmt(StmtKind::LooksSayForSecs { message: txt("hi"), secs: num(1.0) }, Some(3)),
            stmt(StmtKind::LooksThink { message: txt("idea") }, None),
        ],
        vec![],
    );
    let report = Interpreter::new_restrictive().run(&p, St::new(), 0);
    assert!(report.error_code().is_none());
    let actions = report.state().actions();
    assert!(matches!(&actions[0], Action::Output { kind: OutputKind::ThinkFor(s), .. } if *s == 2.0));
    assert!(matches!(&actions[1], Action::WaitFor { secs } if *secs == 1.5));
    assert!(matches!(&actions[2], Action::Output { kind: OutputKind::SayFor(s), .. } if *s == 1.0));
    assert!(matches!(&actions[3], Action::Output { kind: OutputKind::Think, .. }));
}

#[test]
fn program_refuses_forward_references_of_inputs() {
    let blocks = vec![
        expr(ExprKind::OperatorAdd { num1: Expression::Blo(1), num2: num(1.0) }),
        expr(ExprKind::OperatorAdd { num1: num(1.0), num2: num(1.0) }),
    ];
    assert_eq!(Program::new(blocks, vec![]).err(), Some(0));
    let blocks = vec![
        expr(ExprKind::OperatorAdd { num1: num(1.0), num2: num(1.0) }),
        expr(ExprKind::OperatorAdd { num1: Expression::Blo(0), num2: Expression::Blo(7) }),
        cond(CondKind::OperatorNot { operand: Some(1) }),
    ];
    assert!(Program::new(blocks, vec![]).is_ok());
    let blocks = vec![cond(CondKind::OperatorNot { operand: Some(0) })];
    assert_eq!(Program::new(blocks, vec![]).err(), Some(0));
}

#[test]
fn program_refuses_a_call_that_names_an_argument_twice() {
    let call = |arguments: Vec<(String, Option<Expression<Val>>)>| {
        stmt(StmtKind::ProceduresCall { procedure_id: "p".to_string(), arguments }, None)
    };
    let twice = vec![("a".to_string(), Some(num(1.0))), ("a".to_string(), None)];
    assert_eq!(Program::new(vec![hat(None), call(twice)], vec![]).err(), Some(1));
    let distinct = vec![("a".to_string(), Some(num(1.0))), ("b".to_string(), None)];
    assert!(Program::new(vec![call(distinct)], vec![]).is_ok());
}

#[test]
fn default_state_answers_and_variables() {
    let mut st = St::new();
    st.set_answers(vec!["one", "two"]);
    assert_eq!(st.last_answer(), Ok(String::new()));
    assert_eq!(st.ask_question(Val::Text("q".to_string())), Ok(()));
    assert_eq!(st.last_answer(), Ok("one".to_string()));
    assert_eq!(st.ask_question(Val::Text("q".to_string())), Ok(()));
    assert_eq!(st.last_answer(), Ok("two".to_string()));
    assert_eq!(st.ask_question(Val::Text("q".to_string())), Err(DefaultStateError::NoMoreAnswers));
    assert_eq!(st.last_answer(), Ok("two".to_string()));
    assert_eq!(*st.answer_index(), Some(2));
    assert_eq!(st.data_read_variable(&Variable(1)), Err(DefaultStateError::VariableNotFound(Variable(1))));
    st.variables_mut().insert(1, Val::Num(1.0));
    assert_eq!(st.data_set_variable(&Variable(1), Val::Text("x".to_string())), Ok(()));
    assert_eq!(st.data_read_variable(&Variable(1)), Ok(Val::Text("x".to_string())));
    assert_eq!(st.data_change_variable_by(&Variable(1), Val::Num(2.0)), Ok(()));
    assert_eq!(st.data_read_variable(&Variable(1)), Ok(Val::Num(2.0)));
    assert_eq!(st.wait_for_secs(0.5), Ok(()));
    assert_eq!(st.request_random(1.0, 2.0), Err(DefaultStateError::RandomsDisabled));
    assert_eq!(st.data_length_of_list(&List(4)), Err(DefaultStateError::ListNotFound(List(4))));
}

#[test]
fn branch_follows_what_the_state_answers() {
    // The same list test decides two if-else blocks; between them the list gains "kiwi",
    // so the state answers differently and the other branch is taken. The repeat count
    // is the list's length, read from the state.
    let p = program(
        vec![
            cond(CondKind::DataListContainsItem { list: List(0), item: txt("kiwi") }),
            expr(ExprKind::DataLengthOfList { list: List(0) }),
            stmt(StmtKind::ControlIfElse { condition: Some(0), substack: Some(3), substack2: Some(4) }, Some(5)),
            say(txt("has kiwi"), None),
            say(txt("no kiwi"), None),
            stmt(StmtKind::DataAddToList { list: List(0), item: txt("kiwi") }, Some(6)),
            stmt(StmtKind::ControlIfElse { condition: Some(0), substack: Some(3), substack2: Some(4) }, Some(7)),
            stmt(StmtKind::ControlRepeat { times: Expression::Blo(1), substack: Some(8) }, None),
            say(txt("again"), None),
        ],
        vec![],
    );
    let mut st = St::new();
    st.lists_mut().insert(0, TList(vec![], 10));
    let report = Interpreter::new_restrictive().run(&p, st, 2);
    assert_eq!(*report.error_code(), None);
    assert_eq!(outputs(report.state()), vec!["no kiwi", "has kiwi", "again"]);
}
