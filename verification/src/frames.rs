use vstd::prelude::*;

use crate::error::InvalidFileError;
use crate::program::{Procedure, ProcedureArgumentDef};

verus! {

/// A parameter bound by a call: its definition and the value the call passed
/// (`None` where the call left the input empty).
pub type Binding<V> = (ProcedureArgumentDef, Option<V>);

/// The arguments of one running procedure call, by parameter name.
#[derive(Debug, PartialEq)]
pub struct ProcedureArgumentsFrame<V> {
    pub(crate) procedure_id: String,
    pub(crate) arguments_by_name: Vec<(String, Binding<V>)>,
}

/// The binding of `name` among `entries`; where a name occurs more than once, the
/// last entry counts.
pub open spec fn entries_lookup<V>(entries: Seq<(String, Binding<V>)>, name: Seq<char>) -> Option<
    Binding<V>,
>
    decreases entries.len(),
{
    if entries.len() == 0 {
        None
    } else if entries.last().0@ == name {
        Some(entries.last().1)
    } else {
        entries_lookup(entries.drop_last(), name)
    }
}

/// The binding of `name` seen from inside the innermost call: the innermost frame
/// that binds the name decides.
pub open spec fn frames_lookup<V>(frames: Seq<ProcedureArgumentsFrame<V>>, name: Seq<char>) -> Option<
    Binding<V>,
>
    decreases frames.len(),
{
    if frames.len() == 0 {
        None
    } else {
        match entries_lookup(frames.last().spec_entries(), name) {
            Some(b) => Some(b),
            None => frames_lookup(frames.drop_last(), name),
        }
    }
}

/// The index of the first evaluated argument with identifier `id`.
pub open spec fn first_arg_index<V>(args: Seq<(String, Option<V>)>, id: Seq<char>) -> Option<int>
    decreases args.len(),
{
    if args.len() == 0 {
        None
    } else if args[0].0@ == id {
        Some(0)
    } else {
        match first_arg_index(args.drop_first(), id) {
            Some(k) => Some(k + 1),
            None => None,
        }
    }
}

/// Binding the evaluated arguments of a call to the parameters, in parameter order:
/// each parameter takes the first remaining argument with its identifier; a
/// parameter without one is missing, and arguments left over are extra.
pub open spec fn bind_spec<V>(params: Seq<ProcedureArgumentDef>, args: Seq<(String, Option<V>)>) -> Result<
    Seq<(String, Binding<V>)>,
    InvalidFileError,
>
    decreases params.len(),
{
    if params.len() == 0 {
        if args.len() == 0 {
            Ok(Seq::empty())
        } else {
            Err(InvalidFileError::ExtraArgWithoutProcedureParameter)
        }
    } else {
        let p = params[0];
        match first_arg_index(args, p.argument_id@) {
            None => Err(InvalidFileError::MissingArgForProcedureParameter),
            Some(k) => match bind_spec(params.drop_first(), args.remove(k)) {
                Ok(rest) => Ok(seq![(p.name, (p, args[k].1))] + rest),
                Err(e) => Err(e),
            },
        }
    }
}

/// The index of the first procedure with identifier `id`.
pub open spec fn first_procedure_index(procs: Seq<Procedure>, id: Seq<char>) -> Option<int>
    decreases procs.len(),
{
    if procs.len() == 0 {
        None
    } else if procs[0].procedure_id@ == id {
        Some(0)
    } else {
        match first_procedure_index(procs.drop_first(), id) {
            Some(k) => Some(k + 1),
            None => None,
        }
    }
}

proof fn lemma_first_arg_index_bounds<V>(args: Seq<(String, Option<V>)>, id: Seq<char>)
    ensures
        first_arg_index(args, id) matches Some(k) ==> 0 <= k < args.len() && args[k].0@ == id
            && forall|j: int| 0 <= j < k ==> args[j].0@ != id,
        first_arg_index(args, id) is None ==> forall|j: int| 0 <= j < args.len() ==> args[j].0@ != id,
    decreases args.len(),
{
    if args.len() > 0 {
        lemma_first_arg_index_bounds(args.drop_first(), id);
        if args[0].0@ != id {
            assert forall|j: int| 1 <= j < args.len() implies args[j] == args.drop_first()[j - 1] by {}
        }
    }
}

/// Binding arguments to parameters gives each parameter, in parameter order and under
/// its name, the value of an argument that carries the parameter's argument identifier;
/// every argument is used, exactly one per parameter.
pub proof fn law_binding_gives_each_parameter_its_argument<V>(
    params: Seq<ProcedureArgumentDef>,
    args: Seq<(String, Option<V>)>,
    entries: Seq<(String, Binding<V>)>,
)
    requires
        bind_spec(params, args) == Ok::<Seq<(String, Binding<V>)>, InvalidFileError>(entries),
    ensures
        entries.len() == params.len(),
        args.len() == params.len(),
        forall|j: int|
            0 <= j < params.len() ==> (#[trigger] entries[j]).0 == params[j].name && entries[j].1.0 == params[j]
                && exists|i: int| 0 <= i < args.len() && args[i].0@ == params[j].argument_id@ && entries[j].1.1 == args[i].1,
    decreases params.len(),
{
    if params.len() > 0 {
        let q = params[0];
        lemma_first_arg_index_bounds(args, q.argument_id@);
        let k = first_arg_index(args, q.argument_id@)->Some_0;
        let rest_args = args.remove(k);
        let rest = bind_spec(params.drop_first(), rest_args)->Ok_0;
        law_binding_gives_each_parameter_its_argument(params.drop_first(), rest_args, rest);
        assert(entries == seq![(q.name, (q, args[k].1))] + rest);
        assert forall|j: int|
            0 <= j < params.len() implies (#[trigger] entries[j]).0 == params[j].name && entries[j].1.0 == params[j]
                && exists|i: int| 0 <= i < args.len() && args[i].0@ == params[j].argument_id@ && entries[j].1.1 == args[i].1 by {
            if j == 0 {
                assert(args[k].0@ == params[0].argument_id@);
            } else {
                assert(entries[j] == rest[j - 1]);
                assert(params[j] == params.drop_first()[j - 1]);
                let i2 = choose|i: int| 0 <= i < rest_args.len() && rest_args[i].0@ == params.drop_first()[j - 1].argument_id@
                    && rest[j - 1].1.1 == rest_args[i].1;
                let i = if i2 < k { i2 } else { i2 + 1 };
                assert(rest_args[i2] == args[i]);
            }
        }
    }
}

/// Where the first procedure with identifier `id` stands, if any.
pub(crate) proof fn lemma_first_procedure_index_bounds(procs: Seq<Procedure>, id: Seq<char>)
    ensures
        first_procedure_index(procs, id) matches Some(k) ==> 0 <= k < procs.len() && procs[k].procedure_id@ == id
            && forall|j: int| 0 <= j < k ==> procs[j].procedure_id@ != id,
        first_procedure_index(procs, id) is None ==> forall|j: int|
            0 <= j < procs.len() ==> procs[j].procedure_id@ != id,
    decreases procs.len(),
{
    if procs.len() > 0 {
        lemma_first_procedure_index_bounds(procs.drop_first(), id);
        if procs[0].procedure_id@ != id {
            assert forall|j: int| 1 <= j < procs.len() implies procs[j] == procs.drop_first()[j - 1] by {}
        }
    }
}

impl<V> ProcedureArgumentsFrame<V> {
    /// The identifier of the called procedure.
    pub closed spec fn spec_procedure_id(self) -> Seq<char> {
        self.procedure_id@
    }

    /// The bound parameters, in parameter order, each with its name.
    pub closed spec fn spec_entries(self) -> Seq<(String, Binding<V>)> {
        self.arguments_by_name@
    }

    /// A frame for a call of `procedure_id` with these bindings.
    pub fn new(procedure_id: String, arguments_by_name: Vec<(String, Binding<V>)>) -> (res: Self)
        ensures
            res.spec_procedure_id() == procedure_id@,
            res.spec_entries() == arguments_by_name@,
    {
        ProcedureArgumentsFrame { procedure_id, arguments_by_name }
    }

    /// The binding of the parameter called `name`.
    pub fn argument_for_name(&self, name: &String) -> (res: Option<&Binding<V>>)
        ensures
            res matches Some(b) ==> entries_lookup(self.spec_entries(), name@) == Some(*b),
            res is None ==> entries_lookup(self.spec_entries(), name@) is None,
    {
        let entries = &self.arguments_by_name;
        let mut i = entries.len();
        assert(entries@.take(i as int) == entries@);
        while i > 0
            invariant
                i <= entries@.len(),
                entries@ == self.spec_entries(),
                entries_lookup(entries@, name@) == entries_lookup(entries@.take(i as int), name@),
            decreases i,
        {
            let ghost prefix = entries@.take(i as int);
            assert(prefix.drop_last() == entries@.take(i - 1));
            if entries[i - 1].0 == *name {
                return Some(&entries[i - 1].1);
            }
            i = i - 1;
        }
        None
    }
}

/// The binding of `name` seen from the innermost of `frames`.
pub fn lookup_in_frames<'a, V>(frames: &'a Vec<ProcedureArgumentsFrame<V>>, name: &String) -> (res: Option<
    &'a Binding<V>,
>)
    ensures
        res matches Some(b) ==> frames_lookup(frames@, name@) == Some(*b),
        res is None ==> frames_lookup(frames@, name@) is None,
{
    let mut i = frames.len();
    assert(frames@.take(i as int) == frames@);
    while i > 0
        invariant
            i <= frames@.len(),
            frames_lookup(frames@, name@) == frames_lookup(frames@.take(i as int), name@),
        decreases i,
    {
        let ghost prefix = frames@.take(i as int);
        assert(prefix.drop_last() == frames@.take(i - 1));
        assert(prefix.last() == frames@[i - 1]);
        if let Some(b) = frames[i - 1].argument_for_name(name) {
            return Some(b);
        }
        i = i - 1;
    }
    None
}

/// The first procedure with identifier `id`.
pub fn find_procedure<'a>(procs: &'a Vec<Procedure>, id: &String) -> (res: Option<&'a Procedure>)
    ensures
        res matches Some(p) ==> first_procedure_index(procs@, id@) matches Some(k) && *p
            == procs@[k],
        res is None ==> first_procedure_index(procs@, id@) is None,
{
    proof {
        lemma_first_procedure_index_bounds(procs@, id@);
    }
    let mut i: usize = 0;
    while i < procs.len()
        invariant
            i <= procs@.len(),
            forall|j: int| 0 <= j < i ==> procs@[j].procedure_id@ != id@,
            first_procedure_index(procs@, id@) matches Some(k) ==> 0 <= k < procs@.len() && procs@[k].procedure_id@ == id@
                && forall|j: int| 0 <= j < k ==> procs@[j].procedure_id@ != id@,
            first_procedure_index(procs@, id@) is None ==> forall|j: int|
                0 <= j < procs@.len() ==> procs@[j].procedure_id@ != id@,
        decreases procs.len() - i,
    {
        if procs[i].procedure_id == *id {
            return Some(&procs[i]);
        }
        i = i + 1;
    }
    None
}

fn find_arg<V>(args: &Vec<(String, Option<V>)>, id: &String) -> (res: Option<usize>)
    ensures
        res matches Some(k) ==> first_arg_index(args@, id@) == Some(k as int) && k < args@.len(),
        res is None ==> first_arg_index(args@, id@) is None,
{
    proof {
        lemma_first_arg_index_bounds(args@, id@);
    }
    let mut i: usize = 0;
    while i < args.len()
        invariant
            i <= args@.len(),
            forall|j: int| 0 <= j < i ==> args@[j].0@ != id@,
            first_arg_index(args@, id@) matches Some(k) ==> 0 <= k < args@.len() && args@[k].0@ == id@
                && forall|j: int| 0 <= j < k ==> args@[j].0@ != id@,
            first_arg_index(args@, id@) is None ==> forall|j: int|
                0 <= j < args@.len() ==> args@[j].0@ != id@,
        decreases args.len() - i,
    {
        if args[i].0 == *id {
            return Some(i);
        }
        i = i + 1;
    }
    None
}

/// Binds the evaluated arguments of a call to the parameters of the called procedure.
pub fn bind_arguments<V>(params: &Vec<ProcedureArgumentDef>, args: Vec<(String, Option<V>)>) -> (res: Result<
    Vec<(String, Binding<V>)>,
    InvalidFileError,
>)
    ensures
        res matches Ok(v) ==> bind_spec(params@, args@) == Ok::<_, InvalidFileError>(v@),
        res matches Err(e) ==> bind_spec(params@, args@) == Err::<Seq<(String, Binding<V>)>, _>(e),
{
    let mut remaining = args;
    let mut bound: Vec<(String, Binding<V>)> = Vec::new();
    let mut i: usize = 0;
    assert(params@.skip(0) == params@);
    proof {
        match bind_spec(params@, args@) {
            Ok(rest) => {
                assert(bound@ + rest == rest);
            },
            Err(e) => {},
        }
    }
    while i < params.len()
        invariant
            i <= params@.len(),
            bind_spec(params@, args@) == match bind_spec(params@.skip(i as int), remaining@) {
                Ok(rest) => Ok(bound@ + rest),
                Err(e) => Err(e),
            },
        decreases params.len() - i,
    {
        let ghost rem0 = remaining@;
        let ghost tail = params@.skip(i as int);
        assert(tail[0] == params@[i as int]);
        assert(tail.drop_first() == params@.skip(i + 1));
        match find_arg(&remaining, &params[i].argument_id) {
            None => {
                return Err(InvalidFileError::MissingArgForProcedureParameter);
            },
            Some(k) => {
                let (_, value) = remaining.remove(k);
                let p = params[i].clone();
                let name = p.name.clone();
                proof {
                    assert(remaining@ == rem0.remove(k as int));
                    let b = (name, (p, value));
                    match bind_spec(params@.skip(i + 1), remaining@) {
                        Ok(rest) => {
                            assert(bound@.push(b) + rest == bound@ + (seq![b] + rest));
                        },
                        Err(e) => {},
                    }
                }
                bound.push((name, (p, value)));
            },
        }
        i = i + 1;
    }
    assert(params@.skip(i as int).len() == 0);
    if remaining.len() != 0 {
        return Err(InvalidFileError::ExtraArgWithoutProcedureParameter);
    }
    assert(bound@ + Seq::<(String, Binding<V>)>::empty() == bound@);
    Ok(bound)
}

} // verus!
