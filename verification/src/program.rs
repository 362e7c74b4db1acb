use vstd::prelude::*;

use crate::value::MathOp;

verus! {

/// A variable of the program, by its number.
#[derive(Debug, PartialEq, Eq, Clone, Copy, Hash)]
pub struct Variable(pub usize);

/// A list of the program, by its number.
#[derive(Debug, PartialEq, Eq, Clone, Copy, Hash)]
pub struct List(pub usize);

/// An input of a block: a variable, a list, a literal, or another block
/// (by its index in the program).
#[derive(Debug, PartialEq, Clone)]
pub enum Expression<V> {
    Var(Variable),
    Lis(List),
    Lit(V),
    Blo(usize),
}

/// Blocks that compute a truth value. Boolean inputs refer to other blocks by index;
/// a missing input (`None`) reads as false.
#[derive(Debug, PartialEq, Clone)]
#[allow(inconsistent_fields)]
pub enum CondKind<V> {
    OperatorOr { operand1: Option<usize>, operand2: Option<usize> },
    OperatorAnd { operand1: Option<usize>, operand2: Option<usize> },
    OperatorNot { operand: Option<usize> },
    OperatorGt { operand1: Expression<V>, operand2: Expression<V> },
    OperatorLt { operand1: Expression<V>, operand2: Expression<V> },
    OperatorEquals { operand1: Expression<V>, operand2: Expression<V> },
    OperatorContains { string1: Expression<V>, string2: Expression<V> },
    DataListContainsItem { list: List, item: Expression<V> },
    /// Any sensing block that yields a truth value (mouse, keys, touching ...).
    UnsupportedSensing,
    /// The boolean argument of the enclosing procedure with this name.
    ArgumentReporterBoolean { value: String },
}

/// Blocks that compute a value.
#[derive(Debug, PartialEq, Clone)]
#[allow(inconsistent_fields)]
pub enum ExprKind<V> {
    /// Size, costume or backdrop number / name.
    UnsupportedLooks,
    /// Direction, x or y position, if-on-edge-bounce.
    UnsupportedMotion,
    /// Timer, mouse position, date, loudness, user name, attributes of sprites, volume.
    UnsupportedSensing,
    /// The argument of the enclosing procedure with this name.
    ArgumentReporterStringNumber { value: String },
    DataItemOfList { list: List, index: Expression<V> },
    DataLengthOfList { list: List },
    DataItemNumOfList { list: List, item: Expression<V> },
    OperatorAdd { num1: Expression<V>, num2: Expression<V> },
    OperatorMultiply { num1: Expression<V>, num2: Expression<V> },
    OperatorSubtract { num1: Expression<V>, num2: Expression<V> },
    OperatorDivide { num1: Expression<V>, num2: Expression<V> },
    OperatorMod { num1: Expression<V>, num2: Expression<V> },
    OperatorMathop { operator: MathOp, num: Expression<V> },
    OperatorRound { num: Expression<V> },
    OperatorRandom { from: Expression<V>, to: Expression<V> },
    OperatorJoin { string1: Expression<V>, string2: Expression<V> },
    OperatorLength { string: Expression<V> },
    OperatorLetterOf { letter: Expression<V>, string: Expression<V> },
    SensingAnswer,
}

/// Statement blocks. Sub-stacks refer to the first block of the nested script.
#[derive(Debug, PartialEq, Clone)]
#[allow(inconsistent_fields)]
pub enum StmtKind<V> {
    /// Pen, looks, motion, sound, text-to-speech and display blocks, which have no
    /// effect here.
    NoEffect,
    /// Create clone, start as clone, delete this clone.
    CloneBlock,
    ControlIf { condition: Option<usize>, substack: Option<usize> },
    ControlIfElse { condition: Option<usize>, substack: Option<usize>, substack2: Option<usize> },
    ControlRepeatUntil { condition: Option<usize>, substack: Option<usize> },
    ControlWaitUntil { condition: Option<usize> },
    ControlWait { duration: Expression<V> },
    ControlForever { substack: Option<usize> },
    ControlRepeat { times: Expression<V>, substack: Option<usize> },
    ControlStop,
    DataAddToList { list: List, item: Expression<V> },
    DataDeleteOfList { list: List, index: Expression<V> },
    DataInsertAtList { list: List, index: Expression<V>, item: Expression<V> },
    DataDeleteAllOfList { list: List },
    DataSetVariableTo { variable: Variable, value: Expression<V> },
    DataReplaceItemOfList { list: List, index: Expression<V>, item: Expression<V> },
    DataChangeVariableBy { variable: Variable, value: Expression<V> },
    /// Broadcast, broadcast and wait.
    EventBroadcast,
    LooksSay { message: Expression<V> },
    LooksThink { message: Expression<V> },
    LooksThinkForSecs { message: Expression<V>, secs: Expression<V> },
    LooksSayForSecs { message: Expression<V>, secs: Expression<V> },
    SensingAskAndWait { question: Expression<V> },
    /// A call: the procedure's identifier and the argument expressions by argument identifier.
    ProceduresCall { procedure_id: String, arguments: Vec<(String, Option<Expression<V>>)> },
}

#[derive(Debug, PartialEq, Clone)]
pub enum BlockKind<V> {
    /// A hat block such as "when green flag clicked".
    Event,
    ProceduresPrototype,
    ProceduresDefinition,
    Expr(ExprKind<V>),
    Cond(CondKind<V>),
    Stmt(StmtKind<V>),
}

/// A block and the index of the block that follows it in its script.
#[derive(Debug, PartialEq, Clone)]
pub struct Block<V> {
    pub next: Option<usize>,
    pub kind: BlockKind<V>,
}

/// A parameter of a procedure.
#[derive(Debug, PartialEq, Eq)]
pub struct ProcedureArgumentDef {
    pub argument_id: String,
    pub name: String,
}

impl Clone for ProcedureArgumentDef {
    fn clone(&self) -> (res: Self)
        ensures
            res == *self,
    {
        ProcedureArgumentDef { argument_id: self.argument_id.clone(), name: self.name.clone() }
    }
}

/// A procedure: its identifier, parameters in order, and its definition block.
#[derive(Debug, PartialEq, Eq, Clone)]
pub struct Procedure {
    pub procedure_id: String,
    pub arguments: Vec<ProcedureArgumentDef>,
    pub definition_block: usize,
}

/// Whether an input of block `i` of a program of `n` blocks points to an earlier
/// block or to none at all.
pub open spec fn expr_ref_ok<V>(e: Expression<V>, i: int, n: int) -> bool {
    e matches Expression::Blo(r) ==> (r < i || r >= n)
}

pub open spec fn cond_ref_ok(o: Option<usize>, i: int, n: int) -> bool {
    o matches Some(r) ==> (r < i || r >= n)
}

/// The inputs of an expression or comparison block at index `i` point backwards
/// (or nowhere); statement and hat blocks are free.
pub open spec fn block_refs_ok<V>(k: BlockKind<V>, i: int, n: int) -> bool {
    match k {
        BlockKind::Cond(c) => match c {
            CondKind::OperatorOr { operand1, operand2 } => cond_ref_ok(operand1, i, n) && cond_ref_ok(
                operand2,
                i,
                n,
            ),
            CondKind::OperatorAnd { operand1, operand2 } => cond_ref_ok(operand1, i, n)
                && cond_ref_ok(operand2, i, n),
            CondKind::OperatorNot { operand } => cond_ref_ok(operand, i, n),
            CondKind::OperatorGt { operand1, operand2 } => expr_ref_ok(operand1, i, n)
                && expr_ref_ok(operand2, i, n),
            CondKind::OperatorLt { operand1, operand2 } => expr_ref_ok(operand1, i, n)
                && expr_ref_ok(operand2, i, n),
            CondKind::OperatorEquals { operand1, operand2 } => expr_ref_ok(operand1, i, n)
                && expr_ref_ok(operand2, i, n),
            CondKind::OperatorContains { string1, string2 } => expr_ref_ok(string1, i, n)
                && expr_ref_ok(string2, i, n),
            CondKind::DataListContainsItem { item, .. } => expr_ref_ok(item, i, n),
            _ => true,
        },
        BlockKind::Expr(e) => match e {
            ExprKind::DataItemOfList { index, .. } => expr_ref_ok(index, i, n),
            ExprKind::DataItemNumOfList { item, .. } => expr_ref_ok(item, i, n),
            ExprKind::OperatorAdd { num1, num2 } => expr_ref_ok(num1, i, n) && expr_ref_ok(
                num2,
                i,
                n,
            ),
            ExprKind::OperatorMultiply { num1, num2 } => expr_ref_ok(num1, i, n) && expr_ref_ok(
                num2,
                i,
                n,
            ),
            ExprKind::OperatorSubtract { num1, num2 } => expr_ref_ok(num1, i, n) && expr_ref_ok(
                num2,
                i,
                n,
            ),
            ExprKind::OperatorDivide { num1, num2 } => expr_ref_ok(num1, i, n) && expr_ref_ok(
                num2,
                i,
                n,
            ),
            ExprKind::OperatorMod { num1, num2 } => expr_ref_ok(num1, i, n) && expr_ref_ok(
                num2,
                i,
                n,
            ),
            ExprKind::OperatorMathop { num, .. } => expr_ref_ok(num, i, n),
            ExprKind::OperatorRound { num } => expr_ref_ok(num, i, n),
            ExprKind::OperatorRandom { from, to } => expr_ref_ok(from, i, n) && expr_ref_ok(
                to,
                i,
                n,
            ),
            ExprKind::OperatorJoin { string1, string2 } => expr_ref_ok(string1, i, n)
                && expr_ref_ok(string2, i, n),
            ExprKind::OperatorLength { string } => expr_ref_ok(string, i, n),
            ExprKind::OperatorLetterOf { letter, string } => expr_ref_ok(letter, i, n)
                && expr_ref_ok(string, i, n),
            _ => true,
        },
        BlockKind::Stmt(StmtKind::ProceduresCall { arguments, .. }) => distinct_argument_ids(arguments@),
        _ => true,
    }
}

/// No two arguments of a call share an argument identifier.
pub open spec fn distinct_argument_ids<V>(args: Seq<(String, Option<Expression<V>>)>) -> bool {
    forall|a: int, b: int| 0 <= a < b < args.len() ==> #[trigger] args[a].0@ != #[trigger] args[b].0@
}

fn distinct_argument_ids_check<V>(args: &Vec<(String, Option<Expression<V>>)>) -> (res: bool)
    ensures
        res == distinct_argument_ids(args@),
{
    let n = args.len();
    let mut b: usize = 0;
    while b < n
        invariant
            n == args@.len(),
            b <= n,
            forall|x: int, y: int| 0 <= x < y < b ==> #[trigger] args@[x].0@ != #[trigger] args@[y].0@,
        decreases n - b,
    {
        let mut a: usize = 0;
        while a < b
            invariant
                n == args@.len(),
                a <= b,
                b < n,
                forall|x: int, y: int| 0 <= x < y < b ==> #[trigger] args@[x].0@ != #[trigger] args@[y].0@,
                forall|x: int| 0 <= x < a ==> #[trigger] args@[x].0@ != args@[b as int].0@,
            decreases b - a,
        {
            if args[a].0 == args[b].0 {
                assert(!distinct_argument_ids(args@)) by {
                    assert(args@[a as int].0@ == args@[b as int].0@);
                }
                return false;
            }
            a = a + 1;
        }
        b = b + 1;
    }
    true
}

/// Every expression and comparison block of the sequence only refers to earlier
/// blocks, so that evaluating an input always terminates, and no call names an
/// argument twice.
pub open spec fn blocks_wf<V>(blocks: Seq<Block<V>>) -> bool {
    forall|i: int| 0 <= i < blocks.len() ==> #[trigger] block_refs_ok(blocks[i].kind, i, blocks.len() as int)
}

fn expr_ref_check<V>(e: &Expression<V>, i: usize, n: usize) -> (res: bool)
    ensures
        res == expr_ref_ok(*e, i as int, n as int),
{
    match e {
        Expression::Blo(r) => *r < i || *r >= n,
        _ => true,
    }
}

fn cond_ref_check(o: &Option<usize>, i: usize, n: usize) -> (res: bool)
    ensures
        res == cond_ref_ok(*o, i as int, n as int),
{
    match o {
        Some(r) => *r < i || *r >= n,
        None => true,
    }
}

fn block_refs_check<V>(k: &BlockKind<V>, i: usize, n: usize) -> (res: bool)
    ensures
        res == block_refs_ok(*k, i as int, n as int),
{
    match k {
        BlockKind::Cond(c) => match c {
            CondKind::OperatorOr { operand1, operand2 } => cond_ref_check(operand1, i, n)
                && cond_ref_check(operand2, i, n),
            CondKind::OperatorAnd { operand1, operand2 } => cond_ref_check(operand1, i, n)
                && cond_ref_check(operand2, i, n),
            CondKind::OperatorNot { operand } => cond_ref_check(operand, i, n),
            CondKind::OperatorGt { operand1, operand2 } => expr_ref_check(operand1, i, n)
                && expr_ref_check(operand2, i, n),
            CondKind::OperatorLt { operand1, operand2 } => expr_ref_check(operand1, i, n)
                && expr_ref_check(operand2, i, n),
            CondKind::OperatorEquals { operand1, operand2 } => expr_ref_check(operand1, i, n)
                && expr_ref_check(operand2, i, n),
            CondKind::OperatorContains { string1, string2 } => expr_ref_check(string1, i, n)
                && expr_ref_check(string2, i, n),
            CondKind::DataListContainsItem { item, .. } => expr_ref_check(item, i, n),
            _ => true,
        },
        BlockKind::Expr(e) => match e {
            ExprKind::DataItemOfList { index, .. } => expr_ref_check(index, i, n),
            ExprKind::DataItemNumOfList { item, .. } => expr_ref_check(item, i, n),
            ExprKind::OperatorAdd { num1, num2 } => expr_ref_check(num1, i, n) && expr_ref_check(
                num2,
                i,
                n,
            ),
            ExprKind::OperatorMultiply { num1, num2 } => expr_ref_check(num1, i, n)
                && expr_ref_check(num2, i, n),
            ExprKind::OperatorSubtract { num1, num2 } => expr_ref_check(num1, i, n)
                && expr_ref_check(num2, i, n),
            ExprKind::OperatorDivide { num1, num2 } => expr_ref_check(num1, i, n)
                && expr_ref_check(num2, i, n),
            ExprKind::OperatorMod { num1, num2 } => expr_ref_check(num1, i, n) && expr_ref_check(
                num2,
                i,
                n,
            ),
            ExprKind::OperatorMathop { num, .. } => expr_ref_check(num, i, n),
            ExprKind::OperatorRound { num } => expr_ref_check(num, i, n),
            ExprKind::OperatorRandom { from, to } => expr_ref_check(from, i, n) && expr_ref_check(
                to,
                i,
                n,
            ),
            ExprKind::OperatorJoin { string1, string2 } => expr_ref_check(string1, i, n)
                && expr_ref_check(string2, i, n),
            ExprKind::OperatorLength { string } => expr_ref_check(string, i, n),
            ExprKind::OperatorLetterOf { letter, string } => expr_ref_check(letter, i, n)
                && expr_ref_check(string, i, n),
            _ => true,
        },
        BlockKind::Stmt(StmtKind::ProceduresCall { arguments, .. }) => distinct_argument_ids_check(arguments),
        _ => true,
    }
}

/// A whole program: its blocks, addressed by index, and the procedures of all its
/// targets in target order.
#[derive(Debug)]
pub struct Program<V> {
    blocks: Vec<Block<V>>,
    procedures: Vec<Procedure>,
}

impl<V> Program<V> {
    #[verifier::type_invariant]
    closed spec fn inv(self) -> bool {
        blocks_wf(self.blocks@)
    }

    /// The blocks, by index.
    pub closed spec fn spec_blocks(self) -> Seq<Block<V>> {
        self.blocks@
    }

    /// The procedures, in the order they are searched.
    pub closed spec fn spec_procedures(self) -> Seq<Procedure> {
        self.procedures@
    }

    /// Builds a program. It is refused, with the index of the first offending block,
    /// where an expression or comparison block has an input that refers to itself or a
    /// later block of the program, or where a call gives the same argument twice.
    pub fn new(blocks: Vec<Block<V>>, procedures: Vec<Procedure>) -> (res: Result<Self, usize>)
        ensures
            blocks_wf(blocks@) <==> res is Ok,
            res matches Ok(p) ==> p.spec_blocks() == blocks@ && p.spec_procedures()
                == procedures@,
            res matches Err(i) ==> i < blocks@.len() && !block_refs_ok(
                blocks@[i as int].kind,
                i as int,
                blocks@.len() as int,
            ) && forall|j: int|
                0 <= j < i ==> #[trigger] block_refs_ok(
                    blocks@[j].kind,
                    j,
                    blocks@.len() as int,
                ),
    {
        let n = blocks.len();
        let mut i: usize = 0;
        while i < n
            invariant
                n == blocks@.len(),
                i <= n,
                forall|j: int| 0 <= j < i ==> #[trigger] block_refs_ok(blocks@[j].kind, j, n as int),
            decreases n - i,
        {
            if !block_refs_check(&blocks[i].kind, i, n) {
                return Err(i);
            }
            i = i + 1;
        }
        Ok(Program { blocks, procedures })
    }

    /// Every program satisfies the well-formedness condition.
    pub(crate) fn check_wf(&self)
        ensures
            blocks_wf(self.spec_blocks()),
    {
        proof {
            use_type_invariant(self);
        }
    }

    pub fn blocks(&self) -> (res: &Vec<Block<V>>)
        ensures
            res@ == self.spec_blocks(),
    {
        &self.blocks
    }

    pub fn procedures(&self) -> (res: &Vec<Procedure>)
        ensures
            res@ == self.spec_procedures(),
    {
        &self.procedures
    }

    /// The block at index `id`, if there is one.
    pub fn get_block(&self, id: usize) -> (res: Option<&Block<V>>)
        ensures
            id < self.spec_blocks().len() ==> res == Some(&self.spec_blocks()[id as int]),
            id >= self.spec_blocks().len() ==> res is None,
    {
        if id < self.blocks.len() {
            Some(&self.blocks[id])
        } else {
            None
        }
    }
}

} // verus!
