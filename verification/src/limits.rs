use vstd::prelude::*;

verus! {

/// Upper bounds a run of the interpreter is held to. `None` means unbounded.
#[derive(Debug, PartialEq, Eq, PartialOrd, Ord, Clone, Hash)]
pub struct Limits {
    pub(crate) max_string_length: Option<usize>,
    pub(crate) max_executed_stmts: Option<usize>,
    pub(crate) max_statement_stack_height: Option<usize>,
}

impl View for Limits {
    /// The bounds in the order: string length, executed statements, statement stack height.
    type V = (Option<usize>, Option<usize>, Option<usize>);

    closed spec fn view(&self) -> (Option<usize>, Option<usize>, Option<usize>) {
        (self.max_string_length, self.max_executed_stmts, self.max_statement_stack_height)
    }
}

impl Limits {
    /// Limits without any bound.
    pub fn new() -> (res: Self)
        ensures
            res@ == (None::<usize>, None::<usize>, None::<usize>),
    {
        Limits { max_string_length: None, max_executed_stmts: None, max_statement_stack_height: None }
    }

    /// The restrictive preset: a stack height of 100, strings of at most 1024
    /// characters and at most 10 * 1024 executed statements.
    pub fn restrictive() -> (res: Self)
        ensures
            res@ == (Some(1024usize), Some(10240usize), Some(100usize)),
    {
        Limits {
            max_statement_stack_height: Some(100),
            max_string_length: Some(1024),
            max_executed_stmts: Some(10 * 1024),
        }
    }

    pub fn max_string_length(&self) -> (res: &Option<usize>)
        ensures
            *res == self@.0,
    {
        &self.max_string_length
    }

    pub fn max_executed_stmts(&self) -> (res: &Option<usize>)
        ensures
            *res == self@.1,
    {
        &self.max_executed_stmts
    }

    pub fn max_statement_stack_height(&self) -> (res: &Option<usize>)
        ensures
            *res == self@.2,
    {
        &self.max_statement_stack_height
    }

    pub fn set_max_string_length(&mut self, len: Option<usize>) -> (res: &mut Self)
        ensures
            res@ == (len, old(self)@.1, old(self)@.2),
            final(self)@ == final(res)@,
    {
        self.max_string_length = len;
        self
    }

    pub fn set_max_statement_stack_height(&mut self, v: Option<usize>) -> (res: &mut Self)
        ensures
            res@ == (old(self)@.0, old(self)@.1, v),
            final(self)@ == final(res)@,
    {
        self.max_statement_stack_height = v;
        self
    }

    pub fn set_max_executed_stmts(&mut self, v: Option<usize>) -> (res: &mut Self)
        ensures
            res@ == (old(self)@.0, v, old(self)@.2),
            final(self)@ == final(res)@,
    {
        self.max_executed_stmts = v;
        self
    }

    pub fn with_max_string_length(self, len: Option<usize>) -> (res: Self)
        ensures
            res@ == (len, self@.1, self@.2),
    {
        let mut s = self;
        s.set_max_string_length(len);
        s
    }

    pub fn with_max_statement_stack_height(self, v: Option<usize>) -> (res: Self)
        ensures
            res@ == (self@.0, self@.1, v),
    {
        let mut s = self;
        s.set_max_statement_stack_height(v);
        s
    }

    pub fn with_max_executed_stmts(self, v: Option<usize>) -> (res: Self)
        ensures
            res@ == (self@.0, v, self@.2),
    {
        let mut s = self;
        s.set_max_executed_stmts(v);
        s
    }
}

impl Default for Limits {
    fn default() -> (res: Self)
        ensures
            res@ == (None::<usize>, None::<usize>, None::<usize>),
    {
        Limits::new()
    }
}

} // verus!
