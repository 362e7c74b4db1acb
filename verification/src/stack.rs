use vstd::prelude::*;

verus! {

/// One entry of the statement stack: a block to execute, possibly with the
/// bookkeeping of a running loop or a procedure call.
#[derive(Debug, PartialEq)]
pub enum StackItem<T> {
    Normal(T),
    CountLoop(T, usize),
    PopArgumentFrame(T),
}

impl<T> StackItem<T> {
    /// The block an item refers to, whatever its kind.
    pub open spec fn spec_value(self) -> T {
        match self {
            StackItem::Normal(t) => t,
            StackItem::CountLoop(t, _) => t,
            StackItem::PopArgumentFrame(t) => t,
        }
    }

    pub fn value(&self) -> (res: &T)
        ensures
            *res == self.spec_value(),
    {
        match self {
            StackItem::Normal(t) => t,
            StackItem::CountLoop(t, _) => t,
            StackItem::PopArgumentFrame(t) => t,
        }
    }

    pub fn into_value(self) -> (res: T)
        ensures
            res == self.spec_value(),
    {
        match self {
            StackItem::Normal(t) => t,
            StackItem::CountLoop(t, _) => t,
            StackItem::PopArgumentFrame(t) => t,
        }
    }
}

impl<T> From<T> for StackItem<T> {
    fn from(value: T) -> (res: Self)
        ensures
            res == StackItem::Normal(value),
    {
        StackItem::Normal(value)
    }
}

impl<T> vstd::std_specs::convert::FromSpecImpl<T> for StackItem<T> {
    open spec fn obeys_from_spec() -> bool {
        true
    }

    open spec fn from_spec(v: T) -> Self {
        StackItem::Normal(v)
    }
}

/// A last-in, first-out stack of statement items.
#[derive(Debug, PartialEq)]
pub struct Stack<T>(pub(crate) Vec<StackItem<T>>);

impl<T> View for Stack<T> {
    type V = Seq<StackItem<T>>;

    /// The items from the bottom (index 0) to the top (the last index).
    closed spec fn view(&self) -> Seq<StackItem<T>> {
        self.0@
    }
}

impl<T> From<Vec<StackItem<T>>> for Stack<T> {
    fn from(value: Vec<StackItem<T>>) -> (res: Self)
        ensures
            res@ == value@,
    {
        Stack(value)
    }
}

impl<T> vstd::std_specs::convert::FromSpecImpl<Vec<StackItem<T>>> for Stack<T> {
    closed spec fn obeys_from_spec() -> bool {
        true
    }

    closed spec fn from_spec(v: Vec<StackItem<T>>) -> Self {
        Stack(v)
    }
}

impl<T> Stack<T> {
    pub fn new() -> (res: Self)
        ensures
            res@ == Seq::<StackItem<T>>::empty(),
    {
        Stack(Vec::new())
    }

    pub fn top(&self) -> (res: Option<&StackItem<T>>)
        ensures
            self@.len() == 0 ==> res is None,
            self@.len() > 0 ==> res == Some(&self@.last()),
    {
        if self.0.len() == 0 {
            None
        } else {
            Some(&self.0[self.0.len() - 1])
        }
    }

    pub fn is_empty(&self) -> (res: bool)
        ensures
            res == (self@.len() == 0),
    {
        self.top().is_none()
    }

    pub fn len(&self) -> (res: usize)
        ensures
            res == self@.len(),
    {
        self.0.len()
    }

    pub fn pop(&mut self) -> (res: Option<StackItem<T>>)
        ensures
            old(self)@.len() == 0 ==> res is None && final(self)@ == old(self)@,
            old(self)@.len() > 0 ==> res == Some(old(self)@.last()) && final(self)@
                == old(self)@.drop_last(),
    {
        self.0.pop()
    }

    pub fn push_opt(&mut self, opt: Option<T>)
        ensures
            opt matches Some(v) ==> final(self)@ == old(self)@.push(StackItem::Normal(v)),
            opt is None ==> final(self)@ == old(self)@,
    {
        if let Some(val) = opt {
            self.0.push(StackItem::Normal(val));
        }
    }

    pub fn push(&mut self, item: StackItem<T>)
        ensures
            final(self)@ == old(self)@.push(item),
    {
        self.0.push(item);
    }
}

} // verus!
