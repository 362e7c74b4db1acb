//! A ready-made [`State`]: variables and lists held in maps, questions answered from a
//! prepared list of answers, and everything the program shows, asks or requests
//! recorded in order.
use std::collections::HashMap;

use vstd::prelude::*;

use crate::program::{List, Variable};
use crate::state::{OutputKind, State};
use crate::value::ScratchValue;

verus! {

broadcast use vstd::std_specs::hash::group_hash_axioms;

/// The list values a [`DefaultState`] stores. The one-based index of an item is given as
/// a value, read the way the program's values are read.
pub trait ScratchList<V>: Sized {
    /// Inserts `item` before the given position; fails where the list is full.
    fn insert_item_at(&mut self, one_based_index: &V, item: V) -> Result<(), ()>;

    fn replace_nth_item(&mut self, one_based_index: &V, item: V);

    /// Appends `item`; fails where the list is full.
    fn append_item(&mut self, item: V) -> Result<(), ()>;

    fn contains_item(&self, item: &V) -> bool;

    fn delete_nth(&mut self, one_based_index: &V);

    fn delete_all(&mut self);

    /// The list shown as one value.
    fn textual_representation(&self) -> V;

    /// The one-based position of the first occurrence of `item`, or 0.
    fn first_index_of_item_in_list(&self, item: &V) -> i64;

    fn nth_item(&self, one_based_index: &V) -> V;

    fn length(&self) -> i64;
}

/// Where a [`DefaultState`] takes random numbers from.
pub trait RandomSource<N> {
    /// A number between `from` and `to`.
    fn random_between(&mut self, from: &N, to: &N) -> N;
}

/// Something the program did that a [`DefaultState`] records.
pub enum Action<V: ScratchValue> {
    Output { kind: OutputKind<V::Float>, message: V },
    AskQuestion { message: V },
    RequestRandom { from: V::Number, to: V::Number, received: V::Number },
    WaitFor { secs: V::Number },
}

/// Why a [`DefaultState`] refused an operation.
#[derive(Debug, PartialEq, Eq, Clone)]
pub enum DefaultStateError {
    /// The variable does not exist in the state.
    VariableNotFound(Variable),
    /// The list does not exist in the state.
    ListNotFound(List),
    /// The list is full; no item can be inserted.
    ListFull { id: List },
    /// The program is not allowed to request random numbers.
    RandomsDisabled,
    /// The program asked a question with no prepared answer left.
    NoMoreAnswers,
}

/// The position of the answer to the next question, once one more question was asked
/// (it stays at the largest position once it got there).
pub open spec fn next_answer_index(index: Option<usize>) -> Option<usize> {
    match index {
        Some(x) => if x == usize::MAX {
            Some(x)
        } else {
            Some((x + 1) as usize)
        },
        None => Some(0),
    }
}

/// The answer the program reads while `index` is the position of the last question:
/// the prepared answer at that position, else the last prepared answer, else empty.
pub open spec fn answer_for(index: Option<usize>, answers: Seq<Seq<char>>) -> Seq<char> {
    match index {
        None => Seq::empty(),
        Some(i) => if i < answers.len() {
            answers[i as int]
        } else if answers.len() > 0 {
            answers.last()
        } else {
            Seq::empty()
        },
    }
}

/// A state that keeps variables and lists in maps, by their numbers.
pub struct DefaultState<'a, V: ScratchValue, L, R> {
    variables: HashMap<usize, V>,
    lists: HashMap<usize, L>,
    actions: Vec<Action<V>>,
    answer_index: Option<usize>,
    answer_inputs: Vec<&'a str>,
    randoms: Option<R>,
}

impl<'a, V: ScratchValue, L: ScratchList<V>, R: RandomSource<V::Number>> DefaultState<'a, V, L, R> {
    pub closed spec fn spec_variables(&self) -> Map<usize, V> {
        self.variables@
    }

    pub closed spec fn spec_lists(&self) -> Map<usize, L> {
        self.lists@
    }

    pub closed spec fn spec_actions(&self) -> Seq<Action<V>> {
        self.actions@
    }

    pub closed spec fn spec_answer_index(&self) -> Option<usize> {
        self.answer_index
    }

    /// The prepared answers, as texts.
    pub closed spec fn spec_answers(&self) -> Seq<Seq<char>> {
        self.answer_inputs@.map_values(|a: &str| a@)
    }

    pub closed spec fn spec_randoms(&self) -> Option<R> {
        self.randoms
    }

    /// A state without variables, lists, answers or random numbers.
    pub fn new() -> (res: Self)
        ensures
            res.spec_variables() == Map::<usize, V>::empty(),
            res.spec_lists() == Map::<usize, L>::empty(),
            res.spec_actions().len() == 0,
            res.spec_answer_index() is None,
            res.spec_answers().len() == 0,
            res.spec_randoms() is None,
    {
        DefaultState {
            variables: HashMap::new(),
            lists: HashMap::new(),
            actions: Vec::new(),
            answer_index: None,
            answer_inputs: Vec::new(),
            randoms: None,
        }
    }

    /// Allows random numbers from `rng`, or forbids them with `None`.
    pub fn set_randoms(&mut self, rng: Option<R>) -> (res: &mut Self)
        ensures
            res.spec_randoms() == rng,
            res.spec_variables() == old(self).spec_variables(),
            res.spec_lists() == old(self).spec_lists(),
            res.spec_actions() == old(self).spec_actions(),
            res.spec_answer_index() == old(self).spec_answer_index(),
            res.spec_answers() == old(self).spec_answers(),
            *final(self) == *final(res),
    {
        self.randoms = rng;
        self
    }

    /// Prepares the answers to the program's questions, in order; no question counts as
    /// asked afterwards.
    pub fn set_answers(&mut self, answers: Vec<&'a str>) -> (res: &mut Self)
        ensures
            res.spec_answers() == answers@.map_values(|a: &str| a@),
            res.spec_answer_index() is None,
            res.spec_variables() == old(self).spec_variables(),
            res.spec_lists() == old(self).spec_lists(),
            res.spec_actions() == old(self).spec_actions(),
            res.spec_randoms() == old(self).spec_randoms(),
            *final(self) == *final(res),
    {
        self.answer_inputs = answers;
        self.answer_index = None;
        self
    }

    /// The variables, by number, for setting them up before a run.
    pub fn variables_mut(&mut self) -> (res: &mut HashMap<usize, V>)
        ensures
            res@ == old(self).spec_variables(),
            final(self).spec_variables() == final(res)@,
            final(self).spec_lists() == old(self).spec_lists(),
            final(self).spec_actions() == old(self).spec_actions(),
            final(self).spec_answer_index() == old(self).spec_answer_index(),
            final(self).spec_answers() == old(self).spec_answers(),
            final(self).spec_randoms() == old(self).spec_randoms(),
    {
        &mut self.variables
    }

    /// The lists, by number, for setting them up before a run.
    pub fn lists_mut(&mut self) -> (res: &mut HashMap<usize, L>)
        ensures
            res@ == old(self).spec_lists(),
            final(self).spec_lists() == final(res)@,
            final(self).spec_variables() == old(self).spec_variables(),
            final(self).spec_actions() == old(self).spec_actions(),
            final(self).spec_answer_index() == old(self).spec_answer_index(),
            final(self).spec_answers() == old(self).spec_answers(),
            final(self).spec_randoms() == old(self).spec_randoms(),
    {
        &mut self.lists
    }

    pub fn variables(&self) -> (res: &HashMap<usize, V>)
        ensures
            res@ == self.spec_variables(),
    {
        &self.variables
    }

    pub fn lists(&self) -> (res: &HashMap<usize, L>)
        ensures
            res@ == self.spec_lists(),
    {
        &self.lists
    }

    pub fn actions(&self) -> (res: &Vec<Action<V>>)
        ensures
            res@ == self.spec_actions(),
    {
        &self.actions
    }

    pub fn answer_index(&self) -> (res: &Option<usize>)
        ensures
            *res == self.spec_answer_index(),
    {
        &self.answer_index
    }

    pub fn answer_inputs(&self) -> (res: &Vec<&'a str>)
        ensures
            res@.map_values(|a: &str| a@) == self.spec_answers(),
    {
        &self.answer_inputs
    }

    pub fn randoms(&self) -> (res: &Option<R>)
        ensures
            *res == self.spec_randoms(),
    {
        &self.randoms
    }
}

impl<'a, V: ScratchValue, L: ScratchList<V>, R: RandomSource<V::Number>> DefaultState<'a, V, L, R> {
    /// Only the lists may differ between `a` and `b`.
    pub open spec fn same_but_lists(a: &Self, b: &Self) -> bool {
        &&& a.spec_variables() == b.spec_variables()
        &&& a.spec_actions() == b.spec_actions()
        &&& a.spec_answer_index() == b.spec_answer_index()
        &&& a.spec_answers() == b.spec_answers()
        &&& a.spec_randoms() == b.spec_randoms()
    }

    /// The outcome of an operation on list `id` that may change it: a missing list is
    /// an error and nothing changes; otherwise only that list may change.
    pub open spec fn list_changed<T>(a: &Self, b: &Self, id: List, res: Result<T, DefaultStateError>) -> bool {
        &&& Self::same_but_lists(a, b)
        &&& b.spec_lists().dom() == a.spec_lists().dom()
        &&& forall|k: usize| k != id.0 && #[trigger] a.spec_lists().contains_key(k) ==> b.spec_lists()[k] == a.spec_lists()[k]
        &&& !a.spec_lists().contains_key(id.0) ==> res == Err::<T, DefaultStateError>(
            DefaultStateError::ListNotFound(id),
        ) && b.spec_lists() == a.spec_lists()
    }

    /// The outcome of an operation that only reads list `id`.
    pub open spec fn list_read<T>(a: &Self, b: &Self, id: List, res: Result<T, DefaultStateError>) -> bool {
        &&& Self::same_but_lists(a, b)
        &&& b.spec_lists() == a.spec_lists()
        &&& a.spec_lists().contains_key(id.0) ==> res is Ok
        &&& !a.spec_lists().contains_key(id.0) ==> res == Err::<T, DefaultStateError>(
            DefaultStateError::ListNotFound(id),
        )
    }

    /// Takes list `id` out of the map for a change.
    fn take_list(&mut self, id: &List) -> (res: Option<L>)
        ensures
            Self::same_but_lists(old(self), final(self)),
            old(self).spec_lists().contains_key(id.0) ==> res == Some(old(self).spec_lists()[id.0])
                && final(self).spec_lists() == old(self).spec_lists().remove(id.0),
            !old(self).spec_lists().contains_key(id.0) ==> res is None && final(self).spec_lists()
                == old(self).spec_lists(),
    {
        self.lists.remove(&id.0)
    }

    /// Puts list `id` back after a change.
    fn put_list(&mut self, id: &List, list: L)
        ensures
            Self::same_but_lists(old(self), final(self)),
            final(self).spec_lists() == old(self).spec_lists().insert(id.0, list),
    {
        self.lists.insert(id.0, list);
    }
}

impl<'a, V: ScratchValue, L: ScratchList<V>, R: RandomSource<V::Number>> State<V> for DefaultState<'a, V, L, R> {
    type Error = DefaultStateError;

    fn ask_question(&mut self, question: V) -> (res: Result<(), DefaultStateError>)
        ensures
            final(self).spec_actions() == old(self).spec_actions().push(Action::AskQuestion { message: question }),
            final(self).spec_answer_index() == next_answer_index(old(self).spec_answer_index()),
            res is Ok <==> next_answer_index(old(self).spec_answer_index()).unwrap() < old(self).spec_answers().len(),
            res is Err ==> res == Err::<(), DefaultStateError>(DefaultStateError::NoMoreAnswers),
            final(self).spec_variables() == old(self).spec_variables(),
            final(self).spec_lists() == old(self).spec_lists(),
            final(self).spec_answers() == old(self).spec_answers(),
            final(self).spec_randoms() == old(self).spec_randoms(),
    {
        self.actions.push(Action::AskQuestion { message: question });
        let index = match self.answer_index {
            Some(x) => if x == usize::MAX {
                x
            } else {
                x + 1
            },
            None => 0,
        };
        self.answer_index = Some(index);
        if index < self.answer_inputs.len() {
            Ok(())
        } else {
            Err(DefaultStateError::NoMoreAnswers)
        }
    }

    fn last_answer(&mut self) -> (res: Result<String, DefaultStateError>)
        ensures
            (res matches Ok(a) && a@ == answer_for(old(self).spec_answer_index(), old(self).spec_answers())),
            *final(self) == *old(self),
    {
        match self.answer_index {
            Some(index) => {
                let n = self.answer_inputs.len();
                if index < n {
                    Ok(self.answer_inputs[index].to_owned())
                } else if n > 0 {
                    Ok(self.answer_inputs[n - 1].to_owned())
                } else {
                    Ok(String::new())
                }
            },
            None => Ok(String::new()),
        }
    }

    fn request_random(&mut self, from: V::Number, to: V::Number) -> (res: Result<V::Number, DefaultStateError>)
        ensures
            old(self).spec_randoms() is None <==> res == Err::<V::Number, DefaultStateError>(
                DefaultStateError::RandomsDisabled,
            ),
            old(self).spec_randoms() is None ==> *final(self) == *old(self),
            old(self).spec_randoms() is Some ==> res is Ok,
            res is Ok ==> exists|g: &mut R, n: V::Number|
                #![trigger call_ensures(R::random_between, (g, &from, &to), n)]
                {
                    &&& res == Ok::<V::Number, DefaultStateError>(n)
                    &&& mut_ref_current(g) == old(self).spec_randoms()->0
                    &&& final(self).spec_randoms() == Some(mut_ref_future(g))
                    &&& call_ensures(R::random_between, (g, &from, &to), n)
                },
            res matches Ok(n) ==> {
                &&& final(self).spec_randoms() is Some
                &&& final(self).spec_actions().drop_last() == old(self).spec_actions()
                &&& (final(self).spec_actions().last() matches Action::RequestRandom { from: f, to: t, received: r }
                    && f == from && t == to && cloned(n, r))
            },
            final(self).spec_variables() == old(self).spec_variables(),
            final(self).spec_lists() == old(self).spec_lists(),
            final(self).spec_answer_index() == old(self).spec_answer_index(),
            final(self).spec_answers() == old(self).spec_answers(),
    {
        match self.randoms.take() {
            None => Err(DefaultStateError::RandomsDisabled),
            Some(mut rng) => {
                let received = rng.random_between(&from, &to);
                self.randoms = Some(rng);
                let recorded = received.clone();
                let ghost a0 = self.actions@;
                self.actions.push(Action::RequestRandom { from, to, received: recorded });
                assert(self.actions@.drop_last() == a0);
                Ok(received)
            },
        }
    }

    fn data_set_variable(&mut self, var_id: &Variable, value: V) -> (res: Result<(), DefaultStateError>)
        ensures
            old(self).spec_variables().contains_key(var_id.0) ==> res is Ok && final(self).spec_variables()
                == old(self).spec_variables().insert(var_id.0, value),
            !old(self).spec_variables().contains_key(var_id.0) ==> res == Err::<(), DefaultStateError>(
                DefaultStateError::VariableNotFound(*var_id),
            ) && final(self).spec_variables() == old(self).spec_variables(),
            final(self).spec_lists() == old(self).spec_lists(),
            final(self).spec_actions() == old(self).spec_actions(),
            final(self).spec_answer_index() == old(self).spec_answer_index(),
            final(self).spec_answers() == old(self).spec_answers(),
            final(self).spec_randoms() == old(self).spec_randoms(),
    {
        if self.variables.contains_key(&var_id.0) {
            self.variables.insert(var_id.0, value);
            Ok(())
        } else {
            Err(DefaultStateError::VariableNotFound(*var_id))
        }
    }

    fn data_read_variable(&mut self, var_id: &Variable) -> (res: Result<V, DefaultStateError>)
        ensures
            old(self).spec_variables().contains_key(var_id.0) ==> (res matches Ok(v) && cloned(
                old(self).spec_variables()[var_id.0],
                v,
            )),
            !old(self).spec_variables().contains_key(var_id.0) ==> res == Err::<V, DefaultStateError>(
                DefaultStateError::VariableNotFound(*var_id),
            ),
            *final(self) == *old(self),
    {
        match self.variables.get(&var_id.0) {
            Some(v) => Ok(v.clone()),
            None => Err(DefaultStateError::VariableNotFound(*var_id)),
        }
    }

    fn write_output(&mut self, output_kind: OutputKind<V::Float>, message: V)
        ensures
            final(self).spec_actions() == old(self).spec_actions().push(
                Action::Output { kind: output_kind, message },
            ),
            final(self).spec_variables() == old(self).spec_variables(),
            final(self).spec_lists() == old(self).spec_lists(),
            final(self).spec_answer_index() == old(self).spec_answer_index(),
            final(self).spec_answers() == old(self).spec_answers(),
            final(self).spec_randoms() == old(self).spec_randoms(),
    {
        self.actions.push(Action::Output { kind: output_kind, message });
    }

    fn wait_for_secs(&mut self, secs: V::Number) -> (res: Result<(), DefaultStateError>)
        ensures
            res is Ok,
            final(self).spec_actions() == old(self).spec_actions().push(Action::WaitFor { secs }),
            final(self).spec_variables() == old(self).spec_variables(),
            final(self).spec_lists() == old(self).spec_lists(),
            final(self).spec_answer_index() == old(self).spec_answer_index(),
            final(self).spec_answers() == old(self).spec_answers(),
            final(self).spec_randoms() == old(self).spec_randoms(),
    {
        self.actions.push(Action::WaitFor { secs });
        Ok(())
    }

    fn data_list_contains_item(&mut self, list_id: &List, item: &V) -> (res: Result<bool, DefaultStateError>)
        ensures
            Self::list_read(old(self), final(self), *list_id, res),
            res matches Ok(b) ==> call_ensures(L::contains_item, (&old(self).spec_lists()[list_id.0], item), b),
    {
        match self.lists.get(&list_id.0) {
            Some(l) => Ok(l.contains_item(item)),
            None => Err(DefaultStateError::ListNotFound(*list_id)),
        }
    }

    fn data_read_textual_list_repr(&mut self, list_id: &List) -> (res: Result<V, DefaultStateError>)
        ensures
            Self::list_read(old(self), final(self), *list_id, res),
            res matches Ok(v) ==> call_ensures(L::textual_representation, (&old(self).spec_lists()[list_id.0],), v),
    {
        match self.lists.get(&list_id.0) {
            Some(l) => Ok(l.textual_representation()),
            None => Err(DefaultStateError::ListNotFound(*list_id)),
        }
    }

    fn data_append_to_list(&mut self, list_id: &List, item: V) -> (res: Result<(), DefaultStateError>)
        ensures
            Self::list_changed(old(self), final(self), *list_id, res),
            old(self).spec_lists().contains_key(list_id.0) ==> exists|g: &mut L, r: Result<(), ()>|
                #![trigger call_ensures(L::append_item, (g, item), r)]
                {
                    &&& mut_ref_current(g) == old(self).spec_lists()[list_id.0]
                    &&& final(self).spec_lists()[list_id.0] == mut_ref_future(g)
                    &&& call_ensures(L::append_item, (g, item), r)
                    &&& res == match r {
                        Ok(()) => Ok::<(), DefaultStateError>(()),
                        Err(()) => Err(DefaultStateError::ListFull { id: *list_id }),
                    }
                },
    {
        match self.take_list(list_id) {
            Some(mut l) => {
                let r = l.append_item(item);
                self.put_list(list_id, l);
                match r {
                    Ok(()) => Ok(()),
                    Err(()) => Err(DefaultStateError::ListFull { id: *list_id }),
                }
            },
            None => Err(DefaultStateError::ListNotFound(*list_id)),
        }
    }

    fn data_item_of_list(&mut self, list_id: &List, one_based_index: &V) -> (res: Result<V, DefaultStateError>)
        ensures
            Self::list_read(old(self), final(self), *list_id, res),
            res matches Ok(v) ==> call_ensures(L::nth_item, (&old(self).spec_lists()[list_id.0], one_based_index), v),
    {
        match self.lists.get(&list_id.0) {
            Some(l) => Ok(l.nth_item(one_based_index)),
            None => Err(DefaultStateError::ListNotFound(*list_id)),
        }
    }

    fn data_item_num_of_list(&mut self, list_id: &List, item: &V) -> (res: Result<i64, DefaultStateError>)
        ensures
            Self::list_read(old(self), final(self), *list_id, res),
            res matches Ok(n) ==> call_ensures(L::first_index_of_item_in_list, (&old(self).spec_lists()[list_id.0], item), n),
    {
        match self.lists.get(&list_id.0) {
            Some(l) => Ok(l.first_index_of_item_in_list(item)),
            None => Err(DefaultStateError::ListNotFound(*list_id)),
        }
    }

    fn data_length_of_list(&mut self, list_id: &List) -> (res: Result<i64, DefaultStateError>)
        ensures
            Self::list_read(old(self), final(self), *list_id, res),
            res matches Ok(n) ==> call_ensures(L::length, (&old(self).spec_lists()[list_id.0],), n),
    {
        match self.lists.get(&list_id.0) {
            Some(l) => Ok(l.length()),
            None => Err(DefaultStateError::ListNotFound(*list_id)),
        }
    }

    fn data_delete_of_list(&mut self, list_id: &List, one_based_index: &V) -> (res: Result<(), DefaultStateError>)
        ensures
            Self::list_changed(old(self), final(self), *list_id, res),
            old(self).spec_lists().contains_key(list_id.0) ==> res is Ok && exists|g: &mut L|
                #![trigger call_ensures(L::delete_nth, (g, one_based_index), ())]
                {
                    &&& mut_ref_current(g) == old(self).spec_lists()[list_id.0]
                    &&& final(self).spec_lists()[list_id.0] == mut_ref_future(g)
                    &&& call_ensures(L::delete_nth, (g, one_based_index), ())
                },
    {
        match self.take_list(list_id) {
            Some(mut l) => {
                l.delete_nth(one_based_index);
                self.put_list(list_id, l);
                Ok(())
            },
            None => Err(DefaultStateError::ListNotFound(*list_id)),
        }
    }

    fn data_delete_all_of_list(&mut self, list_id: &List) -> (res: Result<(), DefaultStateError>)
        ensures
            Self::list_changed(old(self), final(self), *list_id, res),
            old(self).spec_lists().contains_key(list_id.0) ==> res is Ok && exists|g: &mut L|
                #![trigger call_ensures(L::delete_all, (g,), ())]
                {
                    &&& mut_ref_current(g) == old(self).spec_lists()[list_id.0]
                    &&& final(self).spec_lists()[list_id.0] == mut_ref_future(g)
                    &&& call_ensures(L::delete_all, (g,), ())
                },
    {
        match self.take_list(list_id) {
            Some(mut l) => {
                l.delete_all();
                self.put_list(list_id, l);
                Ok(())
            },
            None => Err(DefaultStateError::ListNotFound(*list_id)),
        }
    }

    fn data_insert_at_list(&mut self, list_id: &List, one_based_index: &V, item: V) -> (res: Result<(), DefaultStateError>)
        ensures
            Self::list_changed(old(self), final(self), *list_id, res),
            old(self).spec_lists().contains_key(list_id.0) ==> exists|g: &mut L, r: Result<(), ()>|
                #![trigger call_ensures(L::insert_item_at, (g, one_based_index, item), r)]
                {
                    &&& mut_ref_current(g) == old(self).spec_lists()[list_id.0]
                    &&& final(self).spec_lists()[list_id.0] == mut_ref_future(g)
                    &&& call_ensures(L::insert_item_at, (g, one_based_index, item), r)
                    &&& res == match r {
                        Ok(()) => Ok::<(), DefaultStateError>(()),
                        Err(()) => Err(DefaultStateError::ListFull { id: *list_id }),
                    }
                },
    {
        match self.take_list(list_id) {
            Some(mut l) => {
                let r = l.insert_item_at(one_based_index, item);
                self.put_list(list_id, l);
                match r {
                    Ok(()) => Ok(()),
                    Err(()) => Err(DefaultStateError::ListFull { id: *list_id }),
                }
            },
            None => Err(DefaultStateError::ListNotFound(*list_id)),
        }
    }

    fn data_replace_list_at(&mut self, list_id: &List, one_based_index: &V, item: V) -> (res: Result<(), DefaultStateError>)
        ensures
            Self::list_changed(old(self), final(self), *list_id, res),
            old(self).spec_lists().contains_key(list_id.0) ==> res is Ok && exists|g: &mut L|
                #![trigger call_ensures(L::replace_nth_item, (g, one_based_index, item), ())]
                {
                    &&& mut_ref_current(g) == old(self).spec_lists()[list_id.0]
                    &&& final(self).spec_lists()[list_id.0] == mut_ref_future(g)
                    &&& call_ensures(L::replace_nth_item, (g, one_based_index, item), ())
                },
    {
        match self.take_list(list_id) {
            Some(mut l) => {
                l.replace_nth_item(one_based_index, item);
                self.put_list(list_id, l);
                Ok(())
            },
            None => Err(DefaultStateError::ListNotFound(*list_id)),
        }
    }
}

} // verus!
