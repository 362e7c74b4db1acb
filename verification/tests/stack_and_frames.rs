use scratch_test_interpreter::error::InvalidFileError;
use scratch_test_interpreter::frames::{bind_arguments, find_procedure, lookup_in_frames, ProcedureArgumentsFrame};
use scratch_test_interpreter::program::{Procedure, ProcedureArgumentDef};
use scratch_test_interpreter::{Stack, StackItem};

fn def(id: &str, name: &str) -> ProcedureArgumentDef {
    ProcedureArgumentDef { argument_id: id.to_string(), name: name.to_string() }
}

#[test]
fn stack_items_carry_their_value() {
    assert_eq!(*StackItem::Normal(3usize).value(), 3);
    assert_eq!(*StackItem::CountLoop(4usize, 9).value(), 4);
    assert_eq!(StackItem::<usize>::PopArgumentFrame(7).into_value(), 7);
    assert_eq!(StackItem::from(5usize), StackItem::Normal(5));
}

#[test]
fn stack_pops_what_was_pushed_last() {
    let mut stack: Stack<usize> = Stack::new();
    assert!(stack.is_empty());
    assert_eq!(stack.len(), 0);
    assert_eq!(stack.top(), None);
    assert_eq!(stack.pop(), None);

    stack.push(StackItem::Normal(1));
    stack.push(StackItem::CountLoop(2, 5));
    stack.push_opt(None);
    assert_eq!(stack.len(), 2);
    assert_eq!(stack.top(), Some(&StackItem::CountLoop(2, 5)));
    stack.push_opt(Some(8));
    assert_eq!(stack.len(), 3);
    assert_eq!(stack.pop(), Some(StackItem::Normal(8)));
    assert_eq!(stack.pop(), Some(StackItem::CountLoop(2, 5)));
    assert_eq!(stack.pop(), Some(StackItem::Normal(1)));
    assert!(stack.is_empty());
}

#[test]
fn arguments_are_bound_in_parameter_order() {
    let params = vec![def("a", "first"), def("b", "second")];
    let args = vec![("b".to_string(), Some(20u32)), ("a".to_string(), None)];
    let bound = bind_arguments(&params, args).unwrap();
    assert_eq!(bound.len(), 2);
    assert_eq!(bound[0].0, "first");
    assert_eq!(bound[0].1, (def("a", "first"), None));
    assert_eq!(bound[1].0, "second");
    assert_eq!(bound[1].1, (def("b", "second"), Some(20u32)));
}

#[test]
fn missing_and_extra_arguments_are_refused() {
    let params = vec![def("a", "first")];
    assert_eq!(
        bind_arguments::<u32>(&params, vec![]),
        Err(InvalidFileError::MissingArgForProcedureParameter)
    );
    let args = vec![("a".to_string(), Some(1u32)), ("z".to_string(), Some(2u32))];
    assert_eq!(bind_arguments(&params, args), Err(InvalidFileError::ExtraArgWithoutProcedureParameter));
    assert_eq!(bind_arguments::<u32>(&vec![], vec![]), Ok(vec![]));
}

#[test]
fn innermost_frame_decides_a_name() {
    let outer = ProcedureArgumentsFrame::new(
        "outer".to_string(),
        vec![("x".to_string(), (def("a", "x"), Some(1u32))), ("y".to_string(), (def("b", "y"), Some(2u32)))],
    );
    let inner = ProcedureArgumentsFrame::new(
        "inner".to_string(),
        vec![("x".to_string(), (def("c", "x"), Some(10u32)))],
    );
    let x = "x".to_string();
    let y = "y".to_string();
    let z = "z".to_string();
    assert_eq!(inner.argument_for_name(&x), Some(&(def("c", "x"), Some(10u32))));
    assert_eq!(inner.argument_for_name(&y), None);
    let frames = vec![outer, inner];
    assert_eq!(lookup_in_frames(&frames, &x), Some(&(def("c", "x"), Some(10u32))));
    assert_eq!(lookup_in_frames(&frames, &y), Some(&(def("b", "y"), Some(2u32))));
    assert_eq!(lookup_in_frames(&frames, &z), None);
    assert_eq!(lookup_in_frames::<u32>(&vec![], &x), None);
}

#[test]
fn later_entry_of_a_frame_wins() {
    let frame = ProcedureArgumentsFrame::new(
        "p".to_string(),
        vec![("x".to_string(), (def("a", "x"), Some(1u32))), ("x".to_string(), (def("b", "x"), Some(2u32)))],
    );
    assert_eq!(frame.argument_for_name(&"x".to_string()), Some(&(def("b", "x"), Some(2u32))));
}

#[test]
fn first_procedure_with_an_identifier_is_found() {
    let procs = vec![
        Procedure { procedure_id: "p".to_string(), arguments: vec![], definition_block: 1 },
        Procedure { procedure_id: "q".to_string(), arguments: vec![], definition_block: 2 },
        Procedure { procedure_id: "p".to_string(), arguments: vec![], definition_block: 3 },
    ];
    assert_eq!(find_procedure(&procs, &"p".to_string()).map(|p| p.definition_block), Some(1));
    assert_eq!(find_procedure(&procs, &"q".to_string()).map(|p| p.definition_block), Some(2));
    assert!(find_procedure(&procs, &"r".to_string()).is_none());
}
