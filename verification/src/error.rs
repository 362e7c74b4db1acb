use vstd::prelude::*;

verus! {

/// The program refers to something it does not contain.
#[derive(Debug, PartialEq, Eq, Clone)]
pub enum InvalidFileError {
    /// A statement calls a procedure that no target defines.
    CantFindProcedureForCall,
    /// An expression or comparison block was reached where a statement was expected.
    FoundExpressionWhenStmtExpected(usize),
    /// A procedure call does not provide every argument the definition needs.
    MissingArgForProcedureParameter,
    /// A procedure call has arguments the definition does not expect.
    ExtraArgWithoutProcedureParameter,
    /// A reference from an expression does not point to an expression or comparison block.
    NoBlockFoundForReference(usize),
    /// The next statement to run does not exist.
    ReachedUnknownBlock(usize),
}

/// The program can never finish when run on its own.
#[derive(Debug, PartialEq, Eq, Clone)]
pub enum UserError {
    /// Without a body no data can change, so a condition-based loop never stops.
    ConditionLoopWithoutBodyNeverStops,
    /// A single-threaded wait-until whose condition is false never continues.
    WaitUntilFalseNeverTerminatesInSingleThreadded,
    /// An infinite loop without a body never halts.
    InfiniteLoopWithoutBodyNeverStops,
}

/// The program uses a block this interpreter does not support.
#[derive(Debug, PartialEq, Eq, Clone)]
pub enum UnsupportedError {
    /// Blocks related to cloning; holds the block.
    CloneBlocksNotSupported(usize),
    /// Sending of events.
    EventSendingNotSupported,
    /// A sensing block whose value is needed.
    UnsupportedSensingBlock,
    /// A looks block whose value is needed.
    UnsupportedLooksBlock,
    /// A motion block whose value is needed.
    UnsupportedMotionBlock,
}

/// States the interpreter never reaches while it runs as intended.
#[derive(Debug, PartialEq, Eq, Clone)]
pub enum InternalError {
    /// A saved item asks to remove an argument frame, but none is stored.
    PopOnEmptyArgumentFramesStack,
    /// A stack item of the wrong kind for the block it refers to.
    FatalWrongStackFrameForContext,
    /// The statement stack holds no further item.
    PopOnEmptyProgramStack,
}

/// A bound of [`crate::limits::Limits`] was exceeded.
#[derive(Debug, PartialEq, Eq, Clone)]
pub enum LimitError {
    /// A string operation produced a text longer than the given bound.
    StringExceededLengthLimit(usize),
    /// More statements were executed than allowed.
    ExceededAllowedStmtCount,
    /// The statement stack grew higher than allowed.
    MaxStackSizeExceeded,
}

/// Why a run ended before its statement stack was empty.
#[derive(Debug, PartialEq, Eq, Clone)]
pub enum RunError<SErr> {
    /// The state refused an operation.
    State(SErr),
    /// A stop block was executed.
    TerminatedByControlStop,
    Limit(LimitError),
    Internal(InternalError),
    File(InvalidFileError),
    User(UserError),
    Unsupported(UnsupportedError),
}

impl<SErr> From<LimitError> for RunError<SErr> {
    fn from(e: LimitError) -> (res: Self)
        ensures
            res == RunError::<SErr>::Limit(e),
    {
        RunError::Limit(e)
    }
}

impl<SErr> vstd::std_specs::convert::FromSpecImpl<LimitError> for RunError<SErr> {
    open spec fn obeys_from_spec() -> bool {
        true
    }

    open spec fn from_spec(v: LimitError) -> Self {
        RunError::Limit(v)
    }
}

impl<SErr> From<InternalError> for RunError<SErr> {
    fn from(e: InternalError) -> (res: Self)
        ensures
            res == RunError::<SErr>::Internal(e),
    {
        RunError::Internal(e)
    }
}

impl<SErr> vstd::std_specs::convert::FromSpecImpl<InternalError> for RunError<SErr> {
    open spec fn obeys_from_spec() -> bool {
        true
    }

    open spec fn from_spec(v: InternalError) -> Self {
        RunError::Internal(v)
    }
}

impl<SErr> From<InvalidFileError> for RunError<SErr> {
    fn from(e: InvalidFileError) -> (res: Self)
        ensures
            res == RunError::<SErr>::File(e),
    {
        RunError::File(e)
    }
}

impl<SErr> vstd::std_specs::convert::FromSpecImpl<InvalidFileError> for RunError<SErr> {
    open spec fn obeys_from_spec() -> bool {
        true
    }

    open spec fn from_spec(v: InvalidFileError) -> Self {
        RunError::File(v)
    }
}

impl<SErr> From<UserError> for RunError<SErr> {
    fn from(e: UserError) -> (res: Self)
        ensures
            res == RunError::<SErr>::User(e),
    {
        RunError::User(e)
    }
}

impl<SErr> vstd::std_specs::convert::FromSpecImpl<UserError> for RunError<SErr> {
    open spec fn obeys_from_spec() -> bool {
        true
    }

    open spec fn from_spec(v: UserError) -> Self {
        RunError::User(v)
    }
}

impl<SErr> From<UnsupportedError> for RunError<SErr> {
    fn from(e: UnsupportedError) -> (res: Self)
        ensures
            res == RunError::<SErr>::Unsupported(e),
    {
        RunError::Unsupported(e)
    }
}

impl<SErr> vstd::std_specs::convert::FromSpecImpl<UnsupportedError> for RunError<SErr> {
    open spec fn obeys_from_spec() -> bool {
        true
    }

    open spec fn from_spec(v: UnsupportedError) -> Self {
        RunError::Unsupported(v)
    }
}

} // verus!
