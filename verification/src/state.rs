use vstd::prelude::*;

use crate::program::{List, Variable};
use crate::value::ScratchValue;

verus! {

/// How a text is shown: in a thought or speech bubble, optionally for a duration.
#[derive(Debug, PartialEq, PartialOrd, Clone, Copy)]
pub enum OutputKind<F> {
    Think,
    ThinkFor(F),
    Say,
    SayFor(F),
}

/// Everything a program reads from or changes in the world around it.
///
/// Users of the interpreter implement this trait. No method carries a contract that
/// binds an implementation: the interpreter's contracts hold for every value and
/// every error that an implementation returns. The methods with a default body say
/// what that body does (`default_ensures`), which holds where an implementation
/// keeps it.
pub trait State<V: ScratchValue>: Sized {
    type Error;

    /// Called before each statement with the statement's block.
    fn set_statement_as_context(&mut self, _id: usize) -> (res: Result<(), Self::Error>)
        default_ensures
            res == Ok::<(), Self::Error>(()),
            *final(self) == *old(self),
    {
        Ok(())
    }

    fn ask_question(&mut self, question: V) -> Result<(), Self::Error>;

    fn last_answer(&mut self) -> Result<String, Self::Error>;

    /// A random number between the two bounds.
    fn request_random(&mut self, from: V::Number, to: V::Number) -> Result<V::Number, Self::Error>;

    fn data_set_variable(&mut self, var_id: &Variable, value: V) -> Result<(), Self::Error>;

    /// Adds `by` to the variable, as numbers: reads the variable, adds `by` to what was
    /// read, and writes the sum back; an error of the read is returned and nothing is
    /// written.
    fn data_change_variable_by(&mut self, var_id: &Variable, by: V) -> (res: Result<(), Self::Error>)
        default_ensures
            exists|m1: &mut Self, read: Result<V, Self::Error>|
                #![trigger call_ensures(Self::data_read_variable, (m1, var_id), read)]
                {
                    &&& mut_ref_current(m1) == *old(self)
                    &&& call_ensures(Self::data_read_variable, (m1, var_id), read)
                    &&& match read {
                        Err(e) => res == Err::<(), Self::Error>(e) && *final(self) == mut_ref_future(m1),
                        Ok(x) => exists|sum: V, m2: &mut Self|
                            #![trigger call_ensures(Self::data_set_variable, (m2, var_id, sum), res)]
                            {
                                &&& call_ensures(V::add_numbers, (&x, &by), sum)
                                &&& mut_ref_current(m2) == mut_ref_future(m1)
                                &&& call_ensures(Self::data_set_variable, (m2, var_id, sum), res)
                                &&& *final(self) == mut_ref_future(m2)
                            },
                    }
                },
    {
        match self.data_read_variable(var_id) {
            Ok(old) => {
                let new = old.add_numbers(&by);
                self.data_set_variable(var_id, new)
            },
            Err(e) => Err(e),
        }
    }

    fn data_read_variable(&mut self, var_id: &Variable) -> Result<V, Self::Error>;

    fn write_output(&mut self, output_kind: OutputKind<V::Float>, message: V);

    fn wait_for_secs(&mut self, _secs: V::Number) -> (res: Result<(), Self::Error>)
        default_ensures
            res == Ok::<(), Self::Error>(()),
            *final(self) == *old(self),
    {
        Ok(())
    }

    fn data_list_contains_item(&mut self, list_id: &List, item: &V) -> Result<bool, Self::Error>;

    fn data_read_textual_list_repr(&mut self, list_id: &List) -> Result<V, Self::Error>;

    fn data_append_to_list(&mut self, list_id: &List, item: V) -> Result<(), Self::Error>;

    fn data_item_of_list(&mut self, list_id: &List, one_based_index: &V) -> Result<V, Self::Error>;

    fn data_item_num_of_list(&mut self, list_id: &List, item: &V) -> Result<i64, Self::Error>;

    fn data_length_of_list(&mut self, list_id: &List) -> Result<i64, Self::Error>;

    fn data_delete_of_list(&mut self, list_id: &List, one_based_index: &V) -> Result<
        (),
        Self::Error,
    >;

    fn data_delete_all_of_list(&mut self, list_id: &List) -> Result<(), Self::Error>;

    fn data_insert_at_list(&mut self, list_id: &List, one_based_index: &V, item: V) -> Result<
        (),
        Self::Error,
    >;

    fn data_replace_list_at(&mut self, list_id: &List, one_based_index: &V, item: V) -> Result<
        (),
        Self::Error,
    >;

    /// Called when an event block (such as "when green flag clicked") is executed.
    fn notice_event_block_executed(&mut self, _block: usize) -> (res: Result<(), Self::Error>)
        default_ensures
            res == Ok::<(), Self::Error>(()),
            *final(self) == *old(self),
    {
        Ok(())
    }

    /// Called when a procedure definition block is executed.
    fn notice_proc_def_block_executed(&mut self, _block: usize) -> (res: Result<(), Self::Error>)
        default_ensures
            res == Ok::<(), Self::Error>(()),
            *final(self) == *old(self),
    {
        Ok(())
    }

    /// Called when a procedure prototype block is executed.
    fn notice_proc_proto_block_executed(&mut self, _block: usize) -> (res: Result<(), Self::Error>)
        default_ensures
            res == Ok::<(), Self::Error>(()),
            *final(self) == *old(self),
    {
        Ok(())
    }
}

} // verus!
