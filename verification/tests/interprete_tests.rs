use ruscript::classty::Env;
use ruscript::error::{AttrKey, VmError};
use ruscript::heap::Heap;
use ruscript::interprete::{interprete, Effect};
use ruscript::object::{Class, FrameObj, Method, Object, TypeTag, Value};
use ruscript::stackcode::{Op, SCode};

struct Ctx {
    locals: Vec<Value>,
    stack: Vec<Value>,
    env: Env,
    globals: Vec<Value>,
    heap: Heap,
}

fn ctx(locals: usize, globals: usize) -> Ctx {
    Ctx {
        locals: vec![Value::Unset; locals],
        stack: Vec::new(),
        env: Env::new(),
        globals: vec![Value::Unset; globals],
        heap: Heap::new(),
    }
}

fn exec(c: &mut Ctx, inst: SCode) -> Result<Effect, VmError> {
    interprete(&inst, &mut c.locals, &mut c.stack, &mut c.env, &mut c.globals, &mut c.heap)
}

fn object_at_top(c: &Ctx) -> &Object {
    match c.stack[c.stack.len() - 1] {
        Value::Ref(h) => c.heap.get(h).unwrap(),
        Value::Unset => panic!("the stack top is unset"),
    }
}

fn point_class() -> Class {
    Class { attrs: vec!["x".to_string(), "y".to_string()], methods: Vec::new() }
}

#[test]
fn push_int_push_int_add_leaves_their_sum() {
    let mut c = ctx(0, 0);
    assert_eq!(exec(&mut c, SCode::PUSH_INT(3)), Ok(Effect::Next));
    assert_eq!(exec(&mut c, SCode::PUSH_INT(4)), Ok(Effect::Next));
    assert_eq!(exec(&mut c, SCode::ADD), Ok(Effect::Next));
    assert_eq!(c.stack.len(), 1);
    assert_eq!(object_at_top(&c), &Object::Integer(7));
}

#[test]
fn add_wraps_around_at_the_bounds() {
    let mut c = ctx(0, 0);
    exec(&mut c, SCode::PUSH_INT(i64::MAX)).unwrap();
    exec(&mut c, SCode::PUSH_INT(1)).unwrap();
    exec(&mut c, SCode::ADD).unwrap();
    assert_eq!(object_at_top(&c), &Object::Integer(i64::MIN));
}

#[test]
fn add_joins_strings_receiver_first() {
    let mut c = ctx(0, 0);
    exec(&mut c, SCode::PUSH_STR("ab".to_string())).unwrap();
    exec(&mut c, SCode::PUSH_STR("cd".to_string())).unwrap();
    assert_eq!(exec(&mut c, SCode::ADD), Ok(Effect::Next));
    assert_eq!(c.stack.len(), 1);
    assert_eq!(object_at_top(&c), &Object::Str("abcd".to_string()));
}

#[test]
fn add_of_integer_and_string_is_no_method() {
    let mut c = ctx(0, 0);
    exec(&mut c, SCode::PUSH_INT(1)).unwrap();
    exec(&mut c, SCode::PUSH_STR("a".to_string())).unwrap();
    assert_eq!(
        exec(&mut c, SCode::ADD),
        Err(VmError::MethodNotFound { ty: TypeTag::Integer, method: "add".to_string() })
    );
    assert_eq!(c.stack.len(), 0);
}

#[test]
fn add_on_receiver_without_add_consumes_both_operands() {
    let mut c = ctx(0, 0);
    c.env.define(point_class());
    exec(&mut c, SCode::PUSH_INT(9)).unwrap();
    exec(&mut c, SCode::NEW(0)).unwrap();
    exec(&mut c, SCode::PUSH_INT(4)).unwrap();
    assert_eq!(c.stack.len(), 3);
    let bottom = c.stack[0];
    assert_eq!(
        exec(&mut c, SCode::ADD),
        Err(VmError::MethodNotFound { ty: TypeTag::Instance, method: "add".to_string() })
    );
    assert_eq!(c.stack, vec![bottom]);
}

#[test]
fn add_with_unset_receiver_names_the_unset_type() {
    let mut c = ctx(1, 0);
    exec(&mut c, SCode::PUSHL(0)).unwrap();
    exec(&mut c, SCode::PUSH_INT(4)).unwrap();
    assert_eq!(
        exec(&mut c, SCode::ADD),
        Err(VmError::MethodNotFound { ty: TypeTag::Unset, method: "add".to_string() })
    );
    assert!(c.stack.is_empty());
}

#[test]
fn every_taking_opcode_underflows_on_a_short_stack() {
    let cases = vec![
        (SCode::POPL(0), Op::POPL, 0),
        (SCode::POPG(0), Op::POPG, 0),
        (SCode::ADD, Op::ADD, 1),
        (SCode::CALL("m".to_string(), 2), Op::CALL, 2),
        (SCode::RET, Op::RET, 0),
        (SCode::PUSHA(0), Op::PUSHA, 0),
        (SCode::PUSHASTR("x".to_string()), Op::PUSHASTR, 0),
        (SCode::PRINT, Op::PRINT, 0),
    ];
    for (inst, op, found) in cases {
        let mut c = ctx(2, 2);
        for k in 0..found {
            exec(&mut c, SCode::PUSH_INT(k as i64)).unwrap();
        }
        let stack = c.stack.clone();
        assert_eq!(exec(&mut c, inst), Err(VmError::StackUnderflow { op, found }));
        assert_eq!(c.stack, stack);
        assert_eq!(c.locals, vec![Value::Unset; 2]);
        assert_eq!(c.globals, vec![Value::Unset; 2]);
        assert_eq!(c.env.len(), 0);
        for v in stack {
            match v {
                Value::Ref(h) => assert!(c.heap.contains(h)),
                Value::Unset => {}
            }
        }
    }
}

#[test]
fn call_with_largest_argument_count_underflows() {
    let mut c = ctx(0, 0);
    exec(&mut c, SCode::PUSH_INT(1)).unwrap();
    assert_eq!(
        exec(&mut c, SCode::CALL("m".to_string(), usize::MAX)),
        Err(VmError::StackUnderflow { op: Op::CALL, found: 1 })
    );
    assert_eq!(c.stack.len(), 1);
}

#[test]
fn underflow_is_reported_before_a_bad_index() {
    let mut c = ctx(1, 1);
    assert_eq!(exec(&mut c, SCode::POPL(5)), Err(VmError::StackUnderflow { op: Op::POPL, found: 0 }));
    assert_eq!(exec(&mut c, SCode::POPG(5)), Err(VmError::StackUnderflow { op: Op::POPG, found: 0 }));
}

#[test]
fn pop_local_then_push_local_round_trips() {
    let mut c = ctx(3, 0);
    exec(&mut c, SCode::PUSH_STR("kept".to_string())).unwrap();
    let before = c.stack.clone();
    assert_eq!(exec(&mut c, SCode::POPL(2)), Ok(Effect::Next));
    assert!(c.stack.is_empty());
    assert_eq!(c.locals[2], before[0]);
    assert_eq!(exec(&mut c, SCode::PUSHL(2)), Ok(Effect::Next));
    assert_eq!(c.stack, before);
    assert_eq!(object_at_top(&c), &Object::Str("kept".to_string()));
}

#[test]
fn pop_global_then_push_global_round_trips() {
    let mut c = ctx(0, 2);
    exec(&mut c, SCode::PUSH_INT(11)).unwrap();
    let before = c.stack.clone();
    assert_eq!(exec(&mut c, SCode::POPG(1)), Ok(Effect::Next));
    assert_eq!(exec(&mut c, SCode::PUSHG(1)), Ok(Effect::Next));
    assert_eq!(c.stack, before);
    assert_eq!(object_at_top(&c), &Object::Integer(11));
}

#[test]
fn slot_index_at_capacity_is_out_of_range() {
    let mut c = ctx(2, 3);
    assert_eq!(exec(&mut c, SCode::PUSHL(2)), Err(VmError::IndexOutOfRange { op: Op::PUSHL, index: 2 }));
    assert_eq!(exec(&mut c, SCode::PUSHG(3)), Err(VmError::IndexOutOfRange { op: Op::PUSHG, index: 3 }));
    exec(&mut c, SCode::PUSH_INT(1)).unwrap();
    assert_eq!(exec(&mut c, SCode::POPL(2)), Err(VmError::IndexOutOfRange { op: Op::POPL, index: 2 }));
    assert_eq!(c.stack.len(), 1);
    assert_eq!(exec(&mut c, SCode::POPG(3)), Err(VmError::IndexOutOfRange { op: Op::POPG, index: 3 }));
    assert_eq!(c.stack.len(), 1);
    assert_eq!(exec(&mut c, SCode::PUSHL(1)), Ok(Effect::Next));
    assert_eq!(c.stack[1], Value::Unset);
}

#[test]
fn new_makes_an_instance_with_every_slot_unset() {
    let mut c = ctx(0, 0);
    c.env.define(Class { attrs: Vec::new(), methods: Vec::new() });
    c.env.define(point_class());
    assert_eq!(exec(&mut c, SCode::NEW(1)), Ok(Effect::Next));
    match object_at_top(&c) {
        Object::Instance(inst) => {
            assert_eq!(inst.cls, 1);
            assert_eq!(inst.attrs, vec![Value::Unset, Value::Unset]);
        }
        other => panic!("not an instance: {:?}", other),
    }
    assert_eq!(exec(&mut c, SCode::NEW(0)), Ok(Effect::Next));
    match object_at_top(&c) {
        Object::Instance(inst) => {
            assert_eq!(inst.cls, 0);
            assert!(inst.attrs.is_empty());
        }
        other => panic!("not an instance: {:?}", other),
    }
}

#[test]
fn new_of_unknown_class_is_invalid() {
    let mut c = ctx(0, 0);
    c.env.define(point_class());
    assert_eq!(exec(&mut c, SCode::NEW(1)), Err(VmError::InvalidClassId { class: 1 }));
    assert!(c.stack.is_empty());
}

#[test]
fn point_attributes_set_and_read_by_name() {
    let mut c = ctx(3, 0);
    exec(&mut c, SCode::PUSH_STR("x".to_string())).unwrap();
    exec(&mut c, SCode::PUSH_STR("y".to_string())).unwrap();
    assert_eq!(exec(&mut c, SCode::CLASS(2, 0)), Ok(Effect::Next));
    assert!(c.stack.is_empty());
    assert_eq!(c.env.len(), 1);
    exec(&mut c, SCode::NEW(0)).unwrap();
    exec(&mut c, SCode::POPL(0)).unwrap();
    exec(&mut c, SCode::PUSH_INT(1)).unwrap();
    exec(&mut c, SCode::POPL(1)).unwrap();
    exec(&mut c, SCode::PUSH_INT(2)).unwrap();
    exec(&mut c, SCode::POPL(2)).unwrap();
    let point = c.locals[0];
    assert_eq!(c.heap.set_attr(point, "x", c.locals[1], &c.env), Ok(()));
    assert_eq!(c.heap.set_attr(point, "y", c.locals[2], &c.env), Ok(()));
    exec(&mut c, SCode::PUSHL(0)).unwrap();
    assert_eq!(exec(&mut c, SCode::PUSHASTR("x".to_string())), Ok(Effect::Next));
    assert_eq!(c.stack.len(), 1);
    assert_eq!(object_at_top(&c), &Object::Integer(1));
    exec(&mut c, SCode::PUSHL(0)).unwrap();
    assert_eq!(exec(&mut c, SCode::PUSHA(1)), Ok(Effect::Next));
    assert_eq!(object_at_top(&c), &Object::Integer(2));
}

#[test]
fn attribute_set_is_seen_through_every_share() {
    let mut c = ctx(2, 1);
    c.env.define(point_class());
    exec(&mut c, SCode::NEW(0)).unwrap();
    exec(&mut c, SCode::POPL(0)).unwrap();
    exec(&mut c, SCode::PUSHL(0)).unwrap();
    exec(&mut c, SCode::POPG(0)).unwrap();
    exec(&mut c, SCode::PUSH_INT(5)).unwrap();
    exec(&mut c, SCode::POPL(1)).unwrap();
    c.heap.set_attr(c.locals[0], "y", c.locals[1], &c.env).unwrap();
    assert_eq!(c.heap.get_attr(c.globals[0], "y", &c.env), Ok(c.locals[1]));
    assert_eq!(c.heap.get_attr(c.globals[0], "x", &c.env), Ok(Value::Unset));
}

#[test]
fn unknown_attribute_is_not_found() {
    let mut c = ctx(0, 0);
    c.env.define(point_class());
    exec(&mut c, SCode::NEW(0)).unwrap();
    assert_eq!(
        exec(&mut c, SCode::PUSHASTR("z".to_string())),
        Err(VmError::AttributeNotFound { ty: TypeTag::Instance, attr: AttrKey::Name("z".to_string()) })
    );
    assert!(c.stack.is_empty());
    exec(&mut c, SCode::NEW(0)).unwrap();
    assert_eq!(
        exec(&mut c, SCode::PUSHA(2)),
        Err(VmError::AttributeNotFound { ty: TypeTag::Instance, attr: AttrKey::Index(2) })
    );
}

#[test]
fn primitives_have_no_attributes() {
    let mut c = ctx(0, 0);
    exec(&mut c, SCode::PUSH_INT(1)).unwrap();
    assert_eq!(
        exec(&mut c, SCode::PUSHASTR("x".to_string())),
        Err(VmError::AttributeNotFound { ty: TypeTag::Integer, attr: AttrKey::Name("x".to_string()) })
    );
    exec(&mut c, SCode::PUSH_STR("s".to_string())).unwrap();
    assert_eq!(
        exec(&mut c, SCode::PUSHA(0)),
        Err(VmError::AttributeNotFound { ty: TypeTag::Str, attr: AttrKey::Index(0) })
    );
    exec(&mut c, SCode::PUSH_STR("s".to_string())).unwrap();
    let s = c.stack[0];
    assert_eq!(
        c.heap.set_attr(s, "x", Value::Unset, &c.env),
        Err(VmError::AttributeNotFound { ty: TypeTag::Str, attr: AttrKey::Name("x".to_string()) })
    );
    assert_eq!(
        c.heap.set_attr(Value::Unset, "x", s, &c.env),
        Err(VmError::AttributeNotFound { ty: TypeTag::Unset, attr: AttrKey::Name("x".to_string()) })
    );
}

#[test]
fn print_hands_on_the_text_and_pushes_nothing() {
    let mut c = ctx(0, 0);
    exec(&mut c, SCode::PUSH_INT(-120)).unwrap();
    assert_eq!(exec(&mut c, SCode::PRINT), Ok(Effect::Emit("-120".to_string())));
    assert!(c.stack.is_empty());
    exec(&mut c, SCode::PUSH_STR("hello".to_string())).unwrap();
    assert_eq!(exec(&mut c, SCode::PRINT), Ok(Effect::Emit("hello".to_string())));
    assert!(c.stack.is_empty());
}

#[test]
fn print_of_an_instance_without_the_method_fails() {
    let mut c = ctx(0, 0);
    c.env.define(point_class());
    exec(&mut c, SCode::NEW(0)).unwrap();
    assert_eq!(
        exec(&mut c, SCode::PRINT),
        Err(VmError::MethodNotFound { ty: TypeTag::Instance, method: "__print__".to_string() })
    );
}

#[test]
fn call_of_print_pushes_the_unset_result() {
    let mut c = ctx(0, 0);
    exec(&mut c, SCode::PUSH_INT(8)).unwrap();
    assert_eq!(
        exec(&mut c, SCode::CALL("__print__".to_string(), 0)),
        Ok(Effect::Emit("8".to_string()))
    );
    assert_eq!(c.stack, vec![Value::Unset]);
}

#[test]
fn call_passes_arguments_in_push_order() {
    let mut c = ctx(0, 0);
    let body = FrameObj { code: vec![SCode::PUSHL(0), SCode::RET], global_count: 0 };
    c.env.define(Class {
        attrs: Vec::new(),
        methods: vec![
            Method { name: "first".to_string(), body: FrameObj { code: Vec::new(), global_count: 0 } },
            Method { name: "pick".to_string(), body },
        ],
    });
    exec(&mut c, SCode::NEW(0)).unwrap();
    exec(&mut c, SCode::PUSH_INT(1)).unwrap();
    exec(&mut c, SCode::PUSH_INT(2)).unwrap();
    let a = c.stack[1];
    let b = c.stack[2];
    assert_eq!(
        exec(&mut c, SCode::CALL("pick".to_string(), 2)),
        Ok(Effect::Invoke { class: 0, method: 1, args: vec![a, b], keep: true })
    );
    assert!(c.stack.is_empty());
}

#[test]
fn call_of_builtin_add() {
    let mut c = ctx(0, 0);
    exec(&mut c, SCode::PUSH_INT(40)).unwrap();
    exec(&mut c, SCode::PUSH_INT(2)).unwrap();
    assert_eq!(exec(&mut c, SCode::CALL("add".to_string(), 1)), Ok(Effect::Next));
    assert_eq!(object_at_top(&c), &Object::Integer(42));
    exec(&mut c, SCode::PUSH_INT(2)).unwrap();
    assert_eq!(
        exec(&mut c, SCode::CALL("sub".to_string(), 1)),
        Err(VmError::MethodNotFound { ty: TypeTag::Integer, method: "sub".to_string() })
    );
    assert!(c.stack.is_empty());
}

#[test]
fn ret_hands_the_top_back() {
    let mut c = ctx(0, 0);
    exec(&mut c, SCode::PUSH_INT(1)).unwrap();
    let top = c.stack[0];
    assert_eq!(exec(&mut c, SCode::RET), Ok(Effect::Return(top)));
    assert!(c.stack.is_empty());
}

#[test]
fn brackets_are_left_to_the_engine() {
    let mut c = ctx(0, 0);
    assert_eq!(exec(&mut c, SCode::FRMSTT), Ok(Effect::OpenFrame));
    assert_eq!(exec(&mut c, SCode::FRMEND(2)), Err(VmError::IllegalInstruction { op: Op::FRMEND }));
    assert!(c.stack.is_empty());
}

#[test]
fn class_needs_its_descriptors() {
    let mut c = ctx(0, 0);
    exec(&mut c, SCode::PUSH_STR("x".to_string())).unwrap();
    assert_eq!(
        exec(&mut c, SCode::CLASS(2, 0)),
        Err(VmError::DescriptorUnderflow { attrs: 2, methods: 0 })
    );
    assert_eq!(c.stack.len(), 1);
    exec(&mut c, SCode::PUSH_INT(3)).unwrap();
    assert_eq!(
        exec(&mut c, SCode::CLASS(2, 0)),
        Err(VmError::DescriptorUnderflow { attrs: 2, methods: 0 })
    );
    assert_eq!(c.stack.len(), 2);
    assert_eq!(
        exec(&mut c, SCode::CLASS(0, 1)),
        Err(VmError::DescriptorUnderflow { attrs: 0, methods: 1 })
    );
    assert_eq!(
        exec(&mut c, SCode::CLASS(usize::MAX, usize::MAX)),
        Err(VmError::DescriptorUnderflow { attrs: usize::MAX, methods: usize::MAX })
    );
    assert_eq!(c.env.len(), 0);
}

#[test]
fn class_rejects_a_repeated_name() {
    let mut c = ctx(0, 0);
    exec(&mut c, SCode::PUSH_STR("x".to_string())).unwrap();
    exec(&mut c, SCode::PUSH_STR("y".to_string())).unwrap();
    exec(&mut c, SCode::PUSH_STR("x".to_string())).unwrap();
    assert_eq!(exec(&mut c, SCode::CLASS(3, 0)), Err(VmError::DuplicateName { name: "x".to_string() }));
    assert_eq!(c.stack.len(), 3);
    assert_eq!(c.env.len(), 0);
}

#[test]
fn class_of_nothing_takes_nothing() {
    let mut c = ctx(0, 0);
    exec(&mut c, SCode::PUSH_INT(1)).unwrap();
    assert_eq!(exec(&mut c, SCode::CLASS(0, 0)), Ok(Effect::Next));
    assert_eq!(c.stack.len(), 1);
    assert_eq!(c.env.len(), 1);
    assert_eq!(c.env.classes[0], Class { attrs: Vec::new(), methods: Vec::new() });
}

#[test]
fn class_identifier_is_the_table_length_before() {
    let mut env = Env::new();
    assert_eq!(env.define(point_class()), 0);
    assert_eq!(env.define(Class { attrs: Vec::new(), methods: Vec::new() }), 1);
    assert_eq!(env.len(), 2);
    assert_eq!(env.classes[0], point_class());
}
