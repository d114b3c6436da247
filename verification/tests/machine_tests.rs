use ruscript::classty::Env;
use ruscript::error::VmError;
use ruscript::machine::{Block, Machine, Status};
use ruscript::object::{Class, FrameObj, Method, Object, TypeTag, Value};
use ruscript::stackcode::{Op, SCode};

fn s(text: &str) -> String {
    text.to_string()
}

fn machine(program: Vec<SCode>) -> Machine {
    Machine::new(program, Env::new(), 4, 4, 0).unwrap()
}

fn result_object(m: &Machine) -> &Object {
    match m.result() {
        Some(Value::Ref(h)) => m.heap.get(h).unwrap(),
        other => panic!("no object as the result: {:?}", other),
    }
}

fn define_method(name: &str, body: Vec<SCode>) -> Vec<SCode> {
    let mut code = vec![SCode::PUSH_STR(s(name)), SCode::FRMSTT];
    code.extend(body);
    code.push(SCode::FRMEND(0));
    code
}

#[test]
fn sum_program_finishes_with_seven() {
    let mut m = machine(vec![SCode::PUSH_INT(3), SCode::PUSH_INT(4), SCode::ADD]);
    assert_eq!(m.run(100), Status::Finished);
    assert_eq!(m.frames.len(), 1);
    assert_eq!(m.frames[0].stack.len(), 1);
    assert_eq!(result_object(&m), &Object::Integer(7));
    assert!(m.output.is_empty());
}

#[test]
fn top_level_return_keeps_the_result_on_the_stack() {
    let mut m = machine(vec![SCode::PUSH_INT(1), SCode::PUSH_INT(5), SCode::RET, SCode::PUSH_INT(9)]);
    assert_eq!(m.step(), Status::Running);
    assert_eq!(m.step(), Status::Running);
    assert_eq!(m.step(), Status::Finished);
    assert_eq!(m.frames[0].stack.len(), 2);
    assert_eq!(m.frames[0].pc, 2);
    assert_eq!(result_object(&m), &Object::Integer(5));
}

#[test]
fn top_level_return_on_an_empty_stack_underflows() {
    let mut m = machine(vec![SCode::RET]);
    assert_eq!(m.run(10), Status::Failed(VmError::StackUnderflow { op: Op::RET, found: 0 }));
    assert_eq!(m.result(), None);
}

#[test]
fn empty_program_finishes_without_a_result() {
    let mut m = machine(Vec::new());
    assert_eq!(m.status, Status::Running);
    assert_eq!(m.result(), None);
    assert_eq!(m.step(), Status::Finished);
    assert_eq!(m.result(), None);
    assert_eq!(m.globals, vec![Value::Unset; 4]);
    assert_eq!(m.frames[0].locals, vec![Value::Unset; 4]);
    assert_eq!(m.frames[0].block, Block::Main);
}

#[test]
fn a_stopped_machine_stays_as_it_is() {
    let mut m = machine(vec![SCode::PUSH_INT(1)]);
    assert_eq!(m.run(10), Status::Finished);
    let stack = m.frames[0].stack.clone();
    assert_eq!(m.step(), Status::Finished);
    assert_eq!(m.run(10), Status::Finished);
    assert_eq!(m.frames[0].stack, stack);
    let mut failed = machine(vec![SCode::ADD, SCode::PUSH_INT(1)]);
    let status = failed.run(10);
    assert_eq!(status, Status::Failed(VmError::StackUnderflow { op: Op::ADD, found: 0 }));
    assert_eq!(failed.step(), status);
    assert_eq!(failed.frames[0].pc, 0);
    assert!(failed.frames[0].stack.is_empty());
}

#[test]
fn run_stops_after_the_steps_it_was_given() {
    let mut m = machine(vec![SCode::PUSH_INT(1), SCode::PUSH_INT(2), SCode::PUSH_INT(3)]);
    assert_eq!(m.run(0), Status::Running);
    assert_eq!(m.frames[0].pc, 0);
    assert_eq!(m.run(2), Status::Running);
    assert_eq!(m.frames[0].pc, 2);
    assert_eq!(m.frames[0].stack.len(), 2);
    assert_eq!(m.run(5), Status::Finished);
    assert_eq!(result_object(&m), &Object::Integer(3));
}

#[test]
fn unbalanced_programs_are_rejected_before_they_run() {
    let open = Machine::new(vec![SCode::PUSH_INT(1), SCode::FRMSTT], Env::new(), 1, 1, 0);
    assert_eq!(open.err(), Some(VmError::IllegalInstruction { op: Op::FRMSTT }));
    let close = Machine::new(vec![SCode::FRMEND(0), SCode::FRMSTT], Env::new(), 1, 1, 0);
    assert_eq!(close.err(), Some(VmError::IllegalInstruction { op: Op::FRMEND }));
    let nested = Machine::new(
        vec![SCode::FRMSTT, SCode::FRMSTT, SCode::FRMEND(0)],
        Env::new(),
        1,
        1,
        0,
    );
    assert_eq!(nested.err(), Some(VmError::IllegalInstruction { op: Op::FRMSTT }));
    assert!(Machine::new(vec![SCode::FRMSTT, SCode::FRMEND(0)], Env::new(), 1, 1, 0).is_ok());
}

#[test]
fn bracket_pushes_exactly_one_frame() {
    let inner = vec![SCode::PUSH_INT(1), SCode::FRMSTT, SCode::RET, SCode::FRMEND(1), SCode::ADD];
    let mut program = vec![SCode::PUSH_INT(0), SCode::FRMSTT];
    program.extend(inner.clone());
    program.push(SCode::FRMEND(3));
    program.push(SCode::RET);
    let mut m = machine(program);
    assert_eq!(m.step(), Status::Running);
    assert_eq!(m.step(), Status::Running);
    assert_eq!(m.frames[0].pc, 8);
    assert_eq!(m.frames[0].stack.len(), 2);
    assert_eq!(m.run(10), Status::Finished);
    assert_eq!(result_object(&m), &Object::Frame(FrameObj { code: inner, global_count: 3 }));
    assert_eq!(m.heap.tag_of(m.result().unwrap()), TypeTag::Frame);
}

#[test]
fn empty_bracket_makes_an_empty_frame() {
    let mut m = machine(vec![SCode::FRMSTT, SCode::FRMEND(7)]);
    assert_eq!(m.run(10), Status::Finished);
    assert_eq!(result_object(&m), &Object::Frame(FrameObj { code: Vec::new(), global_count: 7 }));
}

#[test]
fn a_bracket_without_partner_met_while_running_is_illegal() {
    let faulty = || Class {
        attrs: Vec::new(),
        methods: vec![
            Method { name: s("open"), body: FrameObj { code: vec![SCode::FRMSTT], global_count: 0 } },
            Method { name: s("close"), body: FrameObj { code: vec![SCode::FRMEND(0)], global_count: 0 } },
        ],
    };
    let mut m = machine(vec![SCode::NEW(0), SCode::CALL(s("open"), 0)]);
    m.env.define(faulty());
    assert_eq!(m.run(10), Status::Failed(VmError::IllegalInstruction { op: Op::FRMSTT }));
    let mut m = machine(vec![SCode::NEW(0), SCode::CALL(s("close"), 0)]);
    m.env.define(faulty());
    assert_eq!(m.run(10), Status::Failed(VmError::IllegalInstruction { op: Op::FRMEND }));
    assert_eq!(m.frames.len(), 2);
    assert_eq!(m.frames[1].pc, 0);
}

#[test]
fn method_receives_its_arguments_and_returns_to_the_caller() {
    let mut program = define_method("second", vec![SCode::PUSHL(1), SCode::RET]);
    program.extend(vec![
        SCode::CLASS(0, 1),
        SCode::PUSH_INT(100),
        SCode::NEW(0),
        SCode::PUSH_INT(41),
        SCode::PUSH_INT(42),
        SCode::CALL(s("second"), 2),
        SCode::RET,
    ]);
    let mut m = machine(program);
    assert_eq!(m.run(3), Status::Running);
    assert_eq!(m.env.len(), 1);
    assert_eq!(m.env.classes[0].methods[0].name, s("second"));
    assert_eq!(m.env.classes[0].methods[0].body.code, vec![SCode::PUSHL(1), SCode::RET]);
    assert_eq!(m.run(5), Status::Running);
    assert_eq!(m.frames.len(), 2);
    assert_eq!(m.frames[0].pc, 11);
    assert_eq!(m.frames[0].stack.len(), 1);
    assert_eq!(m.frames[1].block, Block::Method { class: 0, method: 0 });
    assert_eq!(m.frames[1].pc, 0);
    assert!(m.frames[1].stack.is_empty());
    assert_eq!(m.frames[1].locals.len(), 4);
    assert_eq!(m.frames[1].locals[2], Value::Unset);
    assert_eq!(m.frames[1].locals[3], Value::Unset);
    assert_eq!(m.run(100), Status::Finished);
    assert_eq!(m.frames.len(), 1);
    assert_eq!(m.frames[0].stack.len(), 2);
    assert_eq!(result_object(&m), &Object::Integer(42));
}

#[test]
fn add_dispatches_to_the_method_of_a_class() {
    let mut program = define_method("add", vec![SCode::PUSHL(0), SCode::PUSHL(0), SCode::ADD, SCode::RET]);
    program.extend(vec![SCode::CLASS(0, 1), SCode::NEW(0), SCode::PUSH_INT(21), SCode::ADD]);
    let mut m = machine(program);
    assert_eq!(m.run(100), Status::Finished);
    assert_eq!(m.frames[0].stack.len(), 1);
    assert_eq!(result_object(&m), &Object::Integer(42));
}

#[test]
fn print_of_an_instance_runs_its_method_and_drops_the_result() {
    let mut program = define_method(
        "__print__",
        vec![SCode::PUSH_STR(s("a point")), SCode::PRINT, SCode::PUSH_INT(0), SCode::RET],
    );
    program.extend(vec![
        SCode::CLASS(0, 1),
        SCode::PUSH_INT(9),
        SCode::NEW(0),
        SCode::PRINT,
        SCode::PUSH_INT(-5),
        SCode::PRINT,
    ]);
    let mut m = machine(program);
    assert_eq!(m.run(100), Status::Finished);
    assert_eq!(m.output, vec![s("a point"), s("-5")]);
    assert_eq!(m.frames[0].stack.len(), 1);
    assert_eq!(result_object(&m), &Object::Integer(9));
}

#[test]
fn undefined_method_halts_without_output() {
    let mut m = machine(vec![
        SCode::PUSH_STR(s("x")),
        SCode::PUSH_STR(s("y")),
        SCode::CLASS(2, 0),
        SCode::NEW(0),
        SCode::CALL(s("norm"), 0),
        SCode::PUSH_INT(1),
        SCode::PRINT,
    ]);
    let status = m.run(100);
    assert_eq!(
        status,
        Status::Failed(VmError::MethodNotFound { ty: TypeTag::Instance, method: s("norm") })
    );
    assert_eq!(TypeTag::Instance.name(), s("<instance>"));
    assert!(m.output.is_empty());
    assert_eq!(m.frames[0].pc, 4);
    assert!(m.frames[0].stack.is_empty());
    assert_eq!(m.result(), None);
}

#[test]
fn nested_block_that_runs_off_its_end_returns_its_top() {
    let mut program = define_method("seven", vec![SCode::PUSH_INT(7)]);
    program.extend(define_method("nothing", Vec::new()));
    program.extend(vec![SCode::CLASS(0, 2), SCode::NEW(0), SCode::POPL(0)]);
    let mut with_value = program.clone();
    with_value.extend(vec![SCode::PUSHL(0), SCode::CALL(s("seven"), 0)]);
    let mut m = machine(with_value);
    assert_eq!(m.run(100), Status::Finished);
    assert_eq!(result_object(&m), &Object::Integer(7));
    let mut without = program;
    without.extend(vec![SCode::PUSHL(0), SCode::CALL(s("nothing"), 0)]);
    let mut m = machine(without);
    assert_eq!(m.run(100), Status::Failed(VmError::StackUnderflow { op: Op::RET, found: 0 }));
    assert_eq!(m.frames.len(), 2);
}

#[test]
fn more_arguments_than_locals_are_out_of_range() {
    let mut program = define_method("m", vec![SCode::PUSHL(0), SCode::RET]);
    program.extend(vec![
        SCode::CLASS(0, 1),
        SCode::NEW(0),
        SCode::PUSH_INT(1),
        SCode::PUSH_INT(2),
        SCode::PUSH_INT(3),
        SCode::CALL(s("m"), 3),
    ]);
    let mut m = Machine::new(program.clone(), Env::new(), 0, 2, 0).unwrap();
    assert_eq!(m.run(100), Status::Failed(VmError::IndexOutOfRange { op: Op::CALL, index: 2 }));
    assert_eq!(m.frames.len(), 1);
    assert!(m.frames[0].stack.is_empty());
    let mut m = Machine::new(program, Env::new(), 0, 3, 0).unwrap();
    assert_eq!(m.run(100), Status::Finished);
    assert_eq!(result_object(&m), &Object::Integer(1));
}

#[test]
fn globals_are_shared_with_nested_invocations_and_locals_are_not() {
    let mut program = define_method(
        "stash",
        vec![SCode::PUSHL(0), SCode::POPG(1), SCode::PUSHL(1), SCode::RET],
    );
    program.extend(vec![
        SCode::CLASS(0, 1),
        SCode::PUSH_INT(5),
        SCode::POPL(1),
        SCode::NEW(0),
        SCode::PUSH_INT(77),
        SCode::CALL(s("stash"), 1),
        SCode::POPL(0),
        SCode::PUSHG(1),
    ]);
    let mut m = machine(program);
    assert_eq!(m.run(100), Status::Finished);
    assert_eq!(result_object(&m), &Object::Integer(77));
    assert_eq!(m.frames[0].locals[0], Value::Unset);
    assert_eq!(m.heap.get(match m.frames[0].locals[1] {
        Value::Ref(h) => h,
        Value::Unset => panic!("the local was lost"),
    }), Some(&Object::Integer(5)));
}

#[test]
fn endless_recursion_keeps_running_and_grows_the_chain() {
    let mut program = define_method("again", vec![SCode::PUSHL(0), SCode::CALL(s("again"), 0), SCode::RET]);
    program.extend(vec![SCode::CLASS(0, 1), SCode::NEW(0), SCode::POPL(0), SCode::PUSHL(0), SCode::PUSHL(0), SCode::CALL(s("again"), 1)]);
    let mut m = machine(program);
    assert_eq!(m.run(9), Status::Running);
    assert_eq!(m.frames.len(), 2);
    assert_eq!(m.run(20), Status::Failed(VmError::MethodNotFound { ty: TypeTag::Unset, method: s("again") }));
    let mut program = define_method("again", vec![SCode::PUSHL(0), SCode::PUSHL(0), SCode::CALL(s("again"), 1), SCode::RET]);
    program.extend(vec![SCode::CLASS(0, 1), SCode::NEW(0), SCode::POPL(0), SCode::PUSHL(0), SCode::PUSHL(0), SCode::CALL(s("again"), 1)]);
    let mut m = machine(program);
    assert_eq!(m.run(9), Status::Running);
    assert_eq!(m.run(300), Status::Running);
    assert_eq!(m.frames.len(), 102);
}

#[test]
fn collection_reclaims_what_no_root_reaches() {
    let mut m = machine(vec![
        SCode::PUSH_INT(1),
        SCode::POPL(0),
        SCode::PUSH_INT(2),
        SCode::POPL(0),
        SCode::PUSH_INT(3),
        SCode::POPG(0),
        SCode::PUSH_INT(4),
    ]);
    assert_eq!(m.run(2), Status::Running);
    let one = m.frames[0].locals[0];
    assert_eq!(m.run(100), Status::Finished);
    let two = m.frames[0].locals[0];
    let three = m.globals[0];
    let four = m.frames[0].stack[0];
    assert_eq!(m.heap.tag_of(one), TypeTag::Integer);
    assert_eq!(m.roots(), vec![three, Value::Unset, Value::Unset, Value::Unset, four, two, Value::Unset, Value::Unset, Value::Unset]);
    m.collect();
    assert_eq!(m.heap.tag_of(one), TypeTag::Unset);
    assert_eq!(m.heap.tyof(one), s("<unset>"));
    match (one, two, three, four) {
        (Value::Ref(h1), Value::Ref(h2), Value::Ref(h3), Value::Ref(h4)) => {
            assert_eq!(m.heap.get(h1), None);
            assert_eq!(m.heap.get(h2), Some(&Object::Integer(2)));
            assert_eq!(m.heap.get(h3), Some(&Object::Integer(3)));
            assert_eq!(m.heap.get(h4), Some(&Object::Integer(4)));
        }
        other => panic!("unset where an object was stored: {:?}", other),
    }
    assert_eq!(result_object(&m), &Object::Integer(4));
}

#[test]
fn run_with_collections_gives_the_same_result() {
    let mut program = define_method("sum", vec![SCode::PUSHL(0), SCode::PUSHL(1), SCode::ADD, SCode::RET]);
    program.extend(vec![SCode::CLASS(0, 1), SCode::NEW(0), SCode::POPG(0), SCode::PUSH_INT(0)]);
    for k in 1..=20 {
        program.extend(vec![
            SCode::POPL(0),
            SCode::PUSHG(0),
            SCode::PUSHL(0),
            SCode::PUSH_INT(k),
            SCode::CALL(s("sum"), 2),
        ]);
    }
    let mut plain = Machine::new(program.clone(), Env::new(), 2, 2, 0).unwrap();
    assert_eq!(plain.run(10_000), Status::Finished);
    assert_eq!(result_object(&plain), &Object::Integer(210));
    let mut collecting = Machine::new(program, Env::new(), 2, 2, 1).unwrap();
    assert_eq!(collecting.run(10_000), Status::Finished);
    assert_eq!(result_object(&collecting), &Object::Integer(210));
    assert_eq!(collecting.since_gc, 1);
    assert_eq!(collecting.frames[0].stack.len(), plain.frames[0].stack.len());
    assert_eq!(collecting.frames[0].pc, plain.frames[0].pc);
    assert_eq!(collecting.output, plain.output);
}

#[test]
fn a_faulty_class_table_is_rejected_before_the_program_runs() {
    let mut env = Env::new();
    env.define(Class { attrs: vec![s("x"), s("x")], methods: Vec::new() });
    assert_eq!(
        Machine::new(vec![SCode::PUSH_INT(1)], env, 1, 1, 0).err(),
        Some(VmError::DuplicateName { name: s("x") })
    );
    let mut env = Env::new();
    env.define(Class { attrs: vec![s("x"), s("x")], methods: Vec::new() });
    assert_eq!(
        Machine::new(vec![SCode::FRMEND(1)], env, 1, 1, 0).err(),
        Some(VmError::IllegalInstruction { op: Op::FRMEND })
    );
    let mut env = Env::new();
    env.define(Class {
        attrs: Vec::new(),
        methods: vec![Method {
            name: s("m"),
            body: FrameObj { code: vec![SCode::FRMSTT], global_count: 0 },
        }],
    });
    assert_eq!(
        Machine::new(Vec::new(), env, 1, 1, 0).err(),
        Some(VmError::IllegalInstruction { op: Op::FRMSTT })
    );
}

#[test]
fn a_class_of_the_given_table_can_be_used() {
    let mut env = Env::new();
    env.define(Class {
        attrs: vec![s("x")],
        methods: vec![Method {
            name: s("twice"),
            body: FrameObj {
                code: vec![SCode::PUSHL(0), SCode::PUSHL(0), SCode::ADD, SCode::RET],
                global_count: 0,
            },
        }],
    });
    let program = vec![SCode::NEW(0), SCode::PUSH_STR(s("ab")), SCode::CALL(s("twice"), 1), SCode::PRINT];
    let mut m = Machine::new(program, env, 0, 1, 2).unwrap();
    assert_eq!(m.run(usize::MAX), Status::Finished);
    assert_eq!(m.output, vec![s("abab")]);
    assert_eq!(m.result(), None);
    assert!(m.frames[0].stack.is_empty());
}
