use vstd::prelude::*;

verus! {

/// The unary mathematical operators of the `operator_mathop` block.
#[derive(Debug, PartialEq, Eq, Clone, Copy)]
pub enum MathOp {
    Ln,
    Cos,
    Sin,
    Exp,
    Abs,
    Tan,
    Log,
    Sqrt,
    Floor,
    Ceiling,
    ArcusSin,
    ArcusCos,
    ArcusTan,
    TenRaisedTo,
}

/// The values a Scratch program computes with.
///
/// The interpreter never looks inside a value: it builds them, combines them and
/// hands them to the [`crate::state::State`] only through these operations.
/// Nothing is promised about what an implementation returns; every contract of
/// the interpreter holds whatever the operations return, and relates the
/// interpreter's results to the operations through `call_ensures`.
pub trait ScratchValue: Sized + Clone {
    /// The number a value is read as.
    type Number: Clone;
    /// The floating-point reading of a value, used for durations of speech bubbles.
    type Float;

    fn from_bool(b: bool) -> Self;

    fn from_int(i: i64) -> Self;

    fn from_number(n: Self::Number) -> Self;

    fn from_text(text: String) -> Self;

    /// The empty text.
    fn empty_text() -> Self;

    fn as_bool(&self) -> bool;

    fn as_number(&self) -> Self::Number;

    fn as_float(&self) -> Self::Float;

    /// The number read as an integer, clamped to the integer range.
    fn int_or_border(&self) -> i64;

    fn greater_than(&self, other: &Self) -> bool;

    fn less_than(&self, other: &Self) -> bool;

    fn equals(&self, other: &Self) -> bool;

    fn contains_text(&self, other: &Self) -> bool;

    fn add_numbers(&self, other: &Self) -> Self;

    fn mul_numbers(&self, other: &Self) -> Self;

    fn sub_numbers(&self, other: &Self) -> Self;

    fn div_numbers(&self, other: &Self) -> Self;

    fn modulo(&self, other: &Self) -> Self;

    fn math_op(&self, op: MathOp) -> Self;

    fn round(&self) -> Self;

    /// The two texts joined, or `None` where the result would be longer than `max_length`.
    fn concat(&self, other: &Self, max_length: usize) -> Option<Self>;

    /// The number of characters of the textual form.
    fn textual_length(&self) -> usize;

    /// The letter of `self` at the position that `letter` reads as.
    fn nth_letter(&self, letter: &Self) -> Self;
}

} // verus!
