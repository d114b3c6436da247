use ruscript::classdef::assemble;
use ruscript::classty::{find_name, find_repeat, Env};
use ruscript::error::{AttrKey, VmError};
use ruscript::heap::Heap;
use ruscript::instance::{attribute_not_found, attribute_not_found_at, method_not_found};
use ruscript::object::{Class, FrameObj, InstanceObj, Invocation, Method, Object, TypeTag, Value};
use ruscript::primty::{decimal_text, integer_call, integer_text, same_text, string_call};
use ruscript::stackcode::{copy_range, find_bracket_fault, find_close, is_balanced, Op, SCode};

fn names(list: &[&str]) -> Vec<String> {
    list.iter().map(|n| n.to_string()).collect()
}

fn shape_env() -> Env {
    let mut env = Env::new();
    env.define(Class {
        attrs: names(&["w", "h"]),
        methods: vec![
            Method { name: "area".to_string(), body: FrameObj { code: vec![SCode::RET], global_count: 0 } },
            Method { name: "grow".to_string(), body: FrameObj { code: Vec::new(), global_count: 1 } },
        ],
    });
    env
}

#[test]
fn decimal_text_of_naturals() {
    assert_eq!(decimal_text(0), "0");
    assert_eq!(decimal_text(9), "9");
    assert_eq!(decimal_text(10), "10");
    assert_eq!(decimal_text(1234567890), "1234567890");
    assert_eq!(decimal_text(u64::MAX), "18446744073709551615");
}

#[test]
fn integer_text_of_the_bounds() {
    assert_eq!(integer_text(0), "0");
    assert_eq!(integer_text(-1), "-1");
    assert_eq!(integer_text(907), "907");
    assert_eq!(integer_text(i64::MAX), "9223372036854775807");
    assert_eq!(integer_text(i64::MIN), "-9223372036854775808");
    assert_eq!(integer_text(i64::MIN + 1), "-9223372036854775807");
}

#[test]
fn same_text_compares_by_content() {
    assert!(same_text("add", "add"));
    assert!(!same_text("add", "ad"));
    assert!(!same_text("", "a"));
    assert!(same_text("", ""));
}

#[test]
fn integer_and_string_calls() {
    let mut heap = Heap::new();
    let ten = Value::Ref(heap.allocate(Object::Integer(10)));
    let tail = Value::Ref(heap.allocate(Object::Str("tail".to_string())));
    assert_eq!(integer_call(-3, "add", &vec![ten], &heap), Ok(Invocation::Produce(Object::Integer(7))));
    assert_eq!(
        integer_call(i64::MIN, "add", &vec![ten], &heap),
        Ok(Invocation::Produce(Object::Integer(i64::MIN + 10)))
    );
    assert_eq!(integer_call(12, "__print__", &Vec::new(), &heap), Ok(Invocation::Emit("12".to_string())));
    assert_eq!(
        string_call(&"head".to_string(), "add", &vec![tail], &heap),
        Ok(Invocation::Produce(Object::Str("headtail".to_string())))
    );
    assert_eq!(
        string_call(&"".to_string(), "__print__", &Vec::new(), &heap),
        Ok(Invocation::Emit(String::new()))
    );
    assert_eq!(
        string_call(&"x".to_string(), "add", &vec![ten], &heap),
        Err(VmError::MethodNotFound { ty: TypeTag::Str, method: "add".to_string() })
    );
}

#[test]
fn error_makers_carry_type_and_key() {
    assert_eq!(
        method_not_found(TypeTag::Frame, "go"),
        VmError::MethodNotFound { ty: TypeTag::Frame, method: "go".to_string() }
    );
    assert_eq!(
        attribute_not_found(TypeTag::Class, "a"),
        VmError::AttributeNotFound { ty: TypeTag::Class, attr: AttrKey::Name("a".to_string()) }
    );
    assert_eq!(
        attribute_not_found_at(TypeTag::Integer, 4),
        VmError::AttributeNotFound { ty: TypeTag::Integer, attr: AttrKey::Index(4) }
    );
    let e = VmError::DuplicateName { name: "n".to_string() };
    assert_eq!(e.clone(), e);
    let e = VmError::AttributeNotFound { ty: TypeTag::Str, attr: AttrKey::Index(1) };
    assert_eq!(e.clone(), e);
}

#[test]
fn find_name_takes_the_first_match() {
    let table = names(&["a", "b", "a", "c"]);
    assert_eq!(find_name(&table, "a"), Some(0));
    assert_eq!(find_name(&table, "b"), Some(1));
    assert_eq!(find_name(&table, "c"), Some(3));
    assert_eq!(find_name(&table, "d"), None);
    assert_eq!(find_name(&Vec::new(), "a"), None);
}

#[test]
fn find_repeat_takes_the_first_repeated_entry() {
    assert_eq!(find_repeat(&names(&["a", "b", "c"])), None);
    assert_eq!(find_repeat(&names(&["a", "b", "b", "a"])), Some(2));
    assert_eq!(find_repeat(&names(&["a", "b", "c", "a"])), Some(3));
    assert_eq!(find_repeat(&names(&["a", "a"])), Some(1));
    assert_eq!(find_repeat(&Vec::new()), None);
}

#[test]
fn class_lookups() {
    let env = shape_env();
    let class = &env.classes[0];
    assert_eq!(class.attr_index("w"), Some(0));
    assert_eq!(class.attr_index("h"), Some(1));
    assert_eq!(class.attr_index("area"), None);
    assert_eq!(class.method_index("grow"), Some(1));
    assert_eq!(class.method_index("w"), None);
    assert_eq!(class.clone(), env.classes[0]);
}

#[test]
fn instantiate_matches_the_class() {
    let env = shape_env();
    assert_eq!(env.instantiate(0), Ok(InstanceObj { cls: 0, attrs: vec![Value::Unset, Value::Unset] }));
    assert_eq!(env.instantiate(1), Err(VmError::InvalidClassId { class: 1 }));
    assert_eq!(Env::new().instantiate(0), Err(VmError::InvalidClassId { class: 0 }));
}

#[test]
fn instance_capabilities() {
    let env = shape_env();
    let mut heap = Heap::new();
    let three = Value::Ref(heap.allocate(Object::Integer(3)));
    let mut inst = env.instantiate(0).unwrap();
    assert_eq!(inst.tyof(), "<instance>");
    assert_eq!(inst.get("w", &env), Ok(Value::Unset));
    assert_eq!(inst.set("h", &three, &env), Ok(()));
    assert_eq!(inst.attrs, vec![Value::Unset, three]);
    assert_eq!(inst.get("h", &env), Ok(three));
    assert_eq!(inst.get_at(1), Ok(three));
    assert_eq!(inst.slot_of("h", &env), Ok(1));
    assert_eq!(
        inst.get_at(2),
        Err(VmError::AttributeNotFound { ty: TypeTag::Instance, attr: AttrKey::Index(2) })
    );
    let missing = VmError::AttributeNotFound { ty: TypeTag::Instance, attr: AttrKey::Name("d".to_string()) };
    assert_eq!(inst.get("d", &env), Err(missing.clone()));
    assert_eq!(inst.set("d", &three, &env), Err(missing));
    assert_eq!(inst.attrs, vec![Value::Unset, three]);
    assert_eq!(
        inst.invoke("area", vec![three], &env),
        Ok(Invocation::Enter { class: 0, method: 0, args: vec![three] })
    );
    assert_eq!(
        inst.invoke("grow", Vec::new(), &env),
        Ok(Invocation::Enter { class: 0, method: 1, args: Vec::new() })
    );
    assert_eq!(
        inst.invoke("shrink", Vec::new(), &env),
        Err(VmError::MethodNotFound { ty: TypeTag::Instance, method: "shrink".to_string() })
    );
}

#[test]
fn object_capabilities_dispatch_on_the_variant() {
    let env = shape_env();
    let heap = Heap::new();
    let mut obj = Object::Instance(env.instantiate(0).unwrap());
    assert_eq!(obj.set("w", &Value::Unset, &env), Ok(()));
    assert_eq!(obj.get("w", &env), Ok(Value::Unset));
    assert_eq!(obj.get_at(0), Ok(Value::Unset));
    assert_eq!(
        obj.invoke("area", Vec::new(), &env, &heap),
        Ok(Invocation::Enter { class: 0, method: 0, args: Vec::new() })
    );
    let mut int = Object::Integer(1);
    assert_eq!(int.invoke("__print__", Vec::new(), &env, &heap), Ok(Invocation::Emit("1".to_string())));
    assert_eq!(
        int.set("w", &Value::Unset, &env),
        Err(VmError::AttributeNotFound { ty: TypeTag::Integer, attr: AttrKey::Name("w".to_string()) })
    );
    assert_eq!(int, Object::Integer(1));
    let class = Object::Class(env.classes[0].clone());
    assert_eq!(
        class.get("w", &env),
        Err(VmError::AttributeNotFound { ty: TypeTag::Class, attr: AttrKey::Name("w".to_string()) })
    );
    assert_eq!(
        class.get_at(0),
        Err(VmError::AttributeNotFound { ty: TypeTag::Class, attr: AttrKey::Index(0) })
    );
}

#[test]
fn assemble_reads_names_then_method_pairs() {
    let mut heap = Heap::new();
    let body = FrameObj { code: vec![SCode::PUSH_INT(1), SCode::RET], global_count: 2 };
    let below = Value::Ref(heap.allocate(Object::Integer(0)));
    let w = Value::Ref(heap.allocate(Object::Str("w".to_string())));
    let h = Value::Ref(heap.allocate(Object::Str("h".to_string())));
    let area = Value::Ref(heap.allocate(Object::Str("area".to_string())));
    let code = Value::Ref(heap.allocate(Object::Frame(body.clone())));
    let stack = vec![below, w, h, area, code];
    assert_eq!(
        assemble(&heap, &stack, 2, 1),
        Ok(Class {
            attrs: names(&["w", "h"]),
            methods: vec![Method { name: "area".to_string(), body: body.clone() }],
        })
    );
    assert_eq!(
        assemble(&heap, &stack, 1, 1),
        Ok(Class {
            attrs: names(&["h"]),
            methods: vec![Method { name: "area".to_string(), body: body.clone() }],
        })
    );
    assert_eq!(
        assemble(&heap, &stack, 1, 2),
        Err(VmError::DescriptorUnderflow { attrs: 1, methods: 2 })
    );
    assert_eq!(
        assemble(&heap, &stack, 3, 1),
        Err(VmError::DescriptorUnderflow { attrs: 3, methods: 1 })
    );
    assert_eq!(
        assemble(&heap, &stack, 0, 3),
        Err(VmError::DescriptorUnderflow { attrs: 0, methods: 3 })
    );
    let twice = vec![area, code, area, code];
    assert_eq!(assemble(&heap, &twice, 0, 2), Err(VmError::DuplicateName { name: "area".to_string() }));
    let both = vec![w, w, area, code, area, code];
    assert_eq!(assemble(&heap, &both, 2, 2), Err(VmError::DuplicateName { name: "w".to_string() }));
    let shared = vec![w, w, code];
    assert_eq!(
        assemble(&heap, &shared, 1, 1),
        Ok(Class { attrs: names(&["w"]), methods: vec![Method { name: "w".to_string(), body }] })
    );
    assert_eq!(assemble(&heap, &vec![Value::Unset], 1, 0), Err(VmError::DescriptorUnderflow { attrs: 1, methods: 0 }));
}

#[test]
fn brackets_balance_and_match() {
    let code = vec![
        SCode::PUSH_INT(1),
        SCode::FRMSTT,
        SCode::FRMSTT,
        SCode::ADD,
        SCode::FRMEND(1),
        SCode::FRMSTT,
        SCode::FRMEND(2),
        SCode::FRMEND(3),
        SCode::RET,
    ];
    assert!(is_balanced(&code));
    assert_eq!(find_bracket_fault(&code), None);
    assert_eq!(find_close(&code, 1), Some(7));
    assert_eq!(find_close(&code, 2), Some(4));
    assert_eq!(find_close(&code, 5), Some(6));
    assert_eq!(find_close(&code, 0), None);
    assert_eq!(find_close(&code, 4), None);
    assert_eq!(find_close(&code, 9), None);
    assert_eq!(copy_range(&code, 2, 5), vec![SCode::FRMSTT, SCode::ADD, SCode::FRMEND(1)]);
    assert_eq!(copy_range(&code, 3, 3), Vec::new());
    assert!(is_balanced(&Vec::new()));
    let open = vec![SCode::FRMSTT, SCode::FRMSTT, SCode::FRMEND(0)];
    assert!(!is_balanced(&open));
    assert_eq!(find_bracket_fault(&open), Some(Op::FRMSTT));
    assert_eq!(find_close(&open, 0), None);
    assert_eq!(find_close(&open, 1), Some(2));
    let stray = vec![SCode::FRMSTT, SCode::FRMEND(0), SCode::FRMEND(0), SCode::FRMSTT];
    assert!(!is_balanced(&stray));
    assert_eq!(find_bracket_fault(&stray), Some(Op::FRMEND));
}

#[test]
fn opcodes_of_instructions() {
    assert_eq!(SCode::PUSHL(1).op(), Op::PUSHL);
    assert_eq!(SCode::CALL("m".to_string(), 2).op(), Op::CALL);
    assert_eq!(SCode::CLASS(1, 2).op(), Op::CLASS);
    assert_eq!(SCode::FRMEND(0).op(), Op::FRMEND);
    assert_eq!(SCode::PUSH_STR("s".to_string()).clone(), SCode::PUSH_STR("s".to_string()));
    assert_eq!(SCode::PUSHASTR("s".to_string()).op(), Op::PUSHASTR);
}

#[test]
fn class_faults_in_their_order() {
    let good = FrameObj { code: vec![SCode::FRMSTT, SCode::FRMEND(0)], global_count: 0 };
    let open = FrameObj { code: vec![SCode::FRMSTT], global_count: 0 };
    let stray = FrameObj { code: vec![SCode::FRMEND(1)], global_count: 0 };
    let fine = Class {
        attrs: names(&["a", "b"]),
        methods: vec![
            Method { name: "a".to_string(), body: good.clone() },
            Method { name: "b".to_string(), body: FrameObj { code: Vec::new(), global_count: 0 } },
        ],
    };
    assert_eq!(fine.fault(), None);
    assert_eq!(fine.method_names(), names(&["a", "b"]));
    let all_wrong = Class {
        attrs: names(&["a", "b", "b", "a"]),
        methods: vec![
            Method { name: "m".to_string(), body: open.clone() },
            Method { name: "m".to_string(), body: stray.clone() },
        ],
    };
    assert_eq!(all_wrong.fault(), Some(VmError::DuplicateName { name: "b".to_string() }));
    let methods_wrong = Class {
        attrs: names(&["a"]),
        methods: vec![
            Method { name: "m".to_string(), body: open.clone() },
            Method { name: "n".to_string(), body: good.clone() },
            Method { name: "m".to_string(), body: stray.clone() },
        ],
    };
    assert_eq!(methods_wrong.fault(), Some(VmError::DuplicateName { name: "m".to_string() }));
    let bodies_wrong = Class {
        attrs: Vec::new(),
        methods: vec![
            Method { name: "m".to_string(), body: good },
            Method { name: "n".to_string(), body: stray },
            Method { name: "o".to_string(), body: open },
        ],
    };
    assert_eq!(bodies_wrong.fault(), Some(VmError::IllegalInstruction { op: Op::FRMEND }));
    let mut env = Env::new();
    assert_eq!(env.fault(), None);
    env.define(fine);
    assert_eq!(env.fault(), None);
    env.define(bodies_wrong);
    env.define(all_wrong);
    assert_eq!(env.fault(), Some(VmError::IllegalInstruction { op: Op::FRMEND }));
}
