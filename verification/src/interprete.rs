//! The effect of one instruction on an execution context.

use vstd::prelude::*;
use crate::classdef::{assemble, assemble_spec, lemma_assemble_errors};
use crate::classty::{Env, blank, position};
use crate::dispatch::{at_spec, get_spec, invoke_spec, tag_of, target};
use crate::error::{ErrorView, VmError};
use crate::heap::Heap;
use crate::object::{
    ClassView, Handle, Invocation, InvocationView, Object, ObjectView, Value,
};
use crate::stackcode::{Op, SCode};

verus! {

/// What the engine has to do after an instruction.
#[derive(Debug, PartialEq, Eq)]
pub enum Effect {
    /// Go on with the next instruction.
    Next,
    /// Write this text to the output, then go on.
    Emit(String),
    /// Run this method of this class as a nested execution whose locals
    /// start with `args`. Its result is pushed where `keep` holds, and
    /// dropped otherwise.
    Invoke { class: usize, method: usize, args: Vec<Value>, keep: bool },
    /// End the current execution and hand this value to its caller.
    Return(Value),
    /// A code literal opens here: wrap the instructions up to the closing
    /// bracket in a frame.
    OpenFrame,
}

/// The view of an effect.
pub enum EffectView {
    Next,
    Emit(Seq<char>),
    Invoke { class: usize, method: usize, args: Seq<Value>, keep: bool },
    Return(Value),
    OpenFrame,
}

impl View for Effect {
    type V = EffectView;

    open spec fn view(&self) -> EffectView {
        match self {
            Effect::Next => EffectView::Next,
            Effect::Emit(text) => EffectView::Emit(text@),
            Effect::Invoke { class, method, args, keep } => EffectView::Invoke {
                class: *class,
                method: *method,
                args: args@,
                keep: *keep,
            },
            Effect::Return(v) => EffectView::Return(*v),
            Effect::OpenFrame => EffectView::OpenFrame,
        }
    }
}

/// The state that an instruction works on.
pub struct State {
    pub stack: Seq<Value>,
    pub locals: Seq<Value>,
    pub globals: Seq<Value>,
    pub classes: Seq<ClassView>,
    pub heap: Map<Handle, ObjectView>,
}

/// The state after an instruction, and its effect or the error that ends
/// the execution.
pub struct Outcome {
    pub state: State,
    pub result: Result<EffectView, ErrorView>,
}

/// The number of stack entries that an instruction takes.
pub open spec fn needs(inst: SCode) -> int {
    match inst {
        SCode::POPL(_) | SCode::POPG(_) | SCode::RET | SCode::PUSHA(_) | SCode::PUSHASTR(_)
        | SCode::PRINT => 1,
        SCode::ADD => 2,
        SCode::CALL(_, n) => n + 1,
        _ => 0,
    }
}

/// The state with a new object stored under `fresh` and the reference to
/// it pushed.
pub open spec fn store(s: State, fresh: Handle, obj: ObjectView) -> State {
    State { stack: s.stack.push(Value::Ref(fresh)), heap: s.heap.insert(fresh, obj), ..s }
}

/// What becomes of an invocation once the receiver and the arguments are
/// off the stack.
///
/// An error ends the execution with the operands consumed. An object that
/// a built-in method made is stored and pushed, text is handed on as
/// output with the unset sentinel as the result, and code of a class is
/// handed on to run. Where the result is not kept, nothing is pushed or
/// stored.
pub open spec fn settle_spec(
    s: State,
    inv: Result<InvocationView, ErrorView>,
    keep: bool,
    fresh: Handle,
) -> Outcome {
    match inv {
        Err(e) => Outcome { state: s, result: Err(e) },
        Ok(InvocationView::Produce(obj)) => Outcome {
            state: if keep {
                store(s, fresh, obj)
            } else {
                s
            },
            result: Ok(EffectView::Next),
        },
        Ok(InvocationView::Emit(text)) => Outcome {
            state: if keep {
                State { stack: s.stack.push(Value::Unset), ..s }
            } else {
                s
            },
            result: Ok(EffectView::Emit(text)),
        },
        Ok(InvocationView::Enter { class, method, args }) => Outcome {
            state: s,
            result: Ok(EffectView::Invoke { class, method, args, keep }),
        },
    }
}

/// What an attribute access leaves once the object is off the stack.
pub open spec fn access_spec(s: State, got: Result<Value, ErrorView>) -> Outcome {
    match got {
        Ok(v) => Outcome {
            state: State { stack: s.stack.push(v), ..s },
            result: Ok(EffectView::Next),
        },
        Err(e) => Outcome { state: s, result: Err(e) },
    }
}

/// The effect of the instruction `inst` on the state `s`, where `fresh` is
/// the reference that a new object gets.
///
/// An instruction that finds fewer stack entries than it takes fails
/// without changing anything. Otherwise its operands leave the stack before
/// anything else is decided, so a later failure finds them consumed. The
/// definition of a class consumes its descriptors only where it succeeds.
pub open spec fn exec_spec(inst: SCode, s: State, fresh: Handle) -> Outcome {
    let n = s.stack.len() as int;
    if n < needs(inst) {
        Outcome {
            state: s,
            result: Err(ErrorView::StackUnderflow { op: inst.op(), found: s.stack.len() as usize }),
        }
    } else {
        match inst {
            SCode::PUSHL(i) => if i < s.locals.len() {
                Outcome {
                    state: State { stack: s.stack.push(s.locals[i as int]), ..s },
                    result: Ok(EffectView::Next),
                }
            } else {
                Outcome {
                    state: s,
                    result: Err(ErrorView::IndexOutOfRange { op: Op::PUSHL, index: i }),
                }
            },
            SCode::PUSHG(i) => if i < s.globals.len() {
                Outcome {
                    state: State { stack: s.stack.push(s.globals[i as int]), ..s },
                    result: Ok(EffectView::Next),
                }
            } else {
                Outcome {
                    state: s,
                    result: Err(ErrorView::IndexOutOfRange { op: Op::PUSHG, index: i }),
                }
            },
            SCode::POPL(i) => if i < s.locals.len() {
                Outcome {
                    state: State {
                        stack: s.stack.drop_last(),
                        locals: s.locals.update(i as int, s.stack.last()),
                        ..s
                    },
                    result: Ok(EffectView::Next),
                }
            } else {
                Outcome {
                    state: s,
                    result: Err(ErrorView::IndexOutOfRange { op: Op::POPL, index: i }),
                }
            },
            SCode::POPG(i) => if i < s.globals.len() {
                Outcome {
                    state: State {
                        stack: s.stack.drop_last(),
                        globals: s.globals.update(i as int, s.stack.last()),
                        ..s
                    },
                    result: Ok(EffectView::Next),
                }
            } else {
                Outcome {
                    state: s,
                    result: Err(ErrorView::IndexOutOfRange { op: Op::POPG, index: i }),
                }
            },
            SCode::ADD => settle_spec(
                State { stack: s.stack.subrange(0, n - 2), ..s },
                invoke_spec(s.heap, s.classes, s.stack[n - 2], "add"@, seq![s.stack[n - 1]]),
                true,
                fresh,
            ),
            SCode::CALL(name, k) => settle_spec(
                State { stack: s.stack.subrange(0, n - k - 1), ..s },
                invoke_spec(
                    s.heap,
                    s.classes,
                    s.stack[n - k - 1],
                    name@,
                    s.stack.subrange(n - k, n),
                ),
                true,
                fresh,
            ),
            SCode::RET => Outcome {
                state: State { stack: s.stack.drop_last(), ..s },
                result: Ok(EffectView::Return(s.stack.last())),
            },
            SCode::NEW(c) => if c < s.classes.len() {
                Outcome {
                    state: store(s, fresh, ObjectView::Instance(blank(s.classes, c))),
                    result: Ok(EffectView::Next),
                }
            } else {
                Outcome { state: s, result: Err(ErrorView::InvalidClassId { class: c }) }
            },
            SCode::PUSH_INT(v) => Outcome {
                state: store(s, fresh, ObjectView::Integer(v)),
                result: Ok(EffectView::Next),
            },
            SCode::PUSH_STR(text) => Outcome {
                state: store(s, fresh, ObjectView::Str(text@)),
                result: Ok(EffectView::Next),
            },
            SCode::PUSHA(i) => access_spec(
                State { stack: s.stack.drop_last(), ..s },
                at_spec(s.heap, s.stack.last(), i),
            ),
            SCode::PUSHASTR(name) => access_spec(
                State { stack: s.stack.drop_last(), ..s },
                get_spec(s.heap, s.classes, s.stack.last(), name@),
            ),
            SCode::PRINT => settle_spec(
                State { stack: s.stack.drop_last(), ..s },
                invoke_spec(s.heap, s.classes, s.stack.last(), "__print__"@, Seq::empty()),
                false,
                fresh,
            ),
            SCode::FRMSTT => Outcome { state: s, result: Ok(EffectView::OpenFrame) },
            SCode::FRMEND(_) => Outcome {
                state: s,
                result: Err(ErrorView::IllegalInstruction { op: Op::FRMEND }),
            },
            SCode::CLASS(a, m) => match assemble_spec(s.heap, s.stack, a, m) {
                Ok(class) => Outcome {
                    state: State {
                        stack: s.stack.subrange(0, n - a - 2 * m),
                        classes: s.classes.push(class),
                        ..s
                    },
                    result: Ok(EffectView::Next),
                },
                Err(e) => Outcome { state: s, result: Err(e) },
            },
        }
    }
}

/// The outcome that an execution context and a result stand for.
pub open spec fn outcome_of(
    stack: Seq<Value>,
    locals: Seq<Value>,
    globals: Seq<Value>,
    classes: Seq<ClassView>,
    heap: Map<Handle, ObjectView>,
    r: Result<Effect, VmError>,
) -> Outcome {
    Outcome {
        state: State { stack, locals, globals, classes, heap },
        result: match r {
            Ok(effect) => Ok(effect@),
            Err(e) => Err(e@),
        },
    }
}

/// Either the arena is as it was, with the same handles given out and the
/// same handle to give next, or one object was stored under the handle
/// that was next.
pub open spec fn stored_at_most_one(before: &Heap, after: &Heap) -> bool {
    if after@ == before@ {
        after.issued() == before.issued() && after.fresh() == before.fresh()
    } else {
        after.issued() == before.issued().insert(before.fresh())
    }
}

/// Stores a new object and pushes the reference to it.
fn push_new(stack: &mut Vec<Value>, heap: &mut Heap, obj: Object)
    ensures
        final(stack)@ == old(stack)@.push(Value::Ref(old(heap).fresh())),
        final(heap)@ == old(heap)@.insert(old(heap).fresh(), obj@),
        final(heap)@ != old(heap)@,
        final(heap).issued() == old(heap).issued().insert(old(heap).fresh()),
{
    let h = heap.allocate(obj);
    stack.push(Value::Ref(h));
    assert(heap@.contains_key(h));
}

/// Carries out what an invocation asks for, after the receiver and the
/// arguments have left the stack.
fn settle(
    stack: &mut Vec<Value>,
    heap: &mut Heap,
    inv: Result<Invocation, VmError>,
    keep: bool,
    Ghost(s): Ghost<State>,
) -> (r: Result<Effect, VmError>)
    requires
        s.stack == old(stack)@,
        s.heap == old(heap)@,
    ensures
        settle_spec(
            s,
            match inv {
                Ok(i) => Ok(i@),
                Err(e) => Err(e@),
            },
            keep,
            old(heap).fresh(),
        ) == outcome_of(final(stack)@, s.locals, s.globals, s.classes, final(heap)@, r),
        stored_at_most_one(old(heap), final(heap)),
{
    match inv {
        Err(e) => Err(e),
        Ok(Invocation::Produce(obj)) => {
            if keep {
                push_new(stack, heap, obj);
            }
            Ok(Effect::Next)
        },
        Ok(Invocation::Emit(text)) => {
            if keep {
                stack.push(Value::Unset);
            }
            Ok(Effect::Emit(text))
        },
        Ok(Invocation::Enter { class, method, args }) => Ok(
            Effect::Invoke { class, method, args, keep },
        ),
    }
}

/// Pushes the attribute that an access found, or hands on its error.
fn access(stack: &mut Vec<Value>, got: Result<Value, VmError>, Ghost(s): Ghost<State>) -> (r: Result<
    Effect,
    VmError,
>)
    requires
        s.stack == old(stack)@,
    ensures
        access_spec(
            s,
            match got {
                Ok(v) => Ok(v),
                Err(e) => Err(e@),
            },
        ) == outcome_of(final(stack)@, s.locals, s.globals, s.classes, s.heap, r),
{
    match got {
        Ok(v) => {
            stack.push(v);
            Ok(Effect::Next)
        },
        Err(e) => Err(e),
    }
}

/// Executes one instruction on an execution context: the locals and the
/// operand stack of the current invocation, the class table, the globals
/// and the arena.
///
/// What needs the surrounding code or the chain of invocations is handed
/// back as the effect: a nested invocation, a return, an opening bracket.
/// The reference that a new object gets is a handle that the arena never
/// gave out before, and an instruction that stores no object leaves the
/// handles of the arena as they were.
pub fn interprete(
    inst: &SCode,
    locals: &mut Vec<Value>,
    stack: &mut Vec<Value>,
    env: &mut Env,
    globals: &mut Vec<Value>,
    heap: &mut Heap,
) -> (r: Result<Effect, VmError>)
    ensures
        exec_spec(
            *inst,
            State {
                stack: old(stack)@,
                locals: old(locals)@,
                globals: old(globals)@,
                classes: old(env)@,
                heap: old(heap)@,
            },
            old(heap).fresh(),
        ) == outcome_of(
            final(stack)@,
            final(locals)@,
            final(globals)@,
            final(env)@,
            final(heap)@,
            r,
        ),
        !old(heap).issued().contains(old(heap).fresh()),
        !old(heap)@.contains_key(old(heap).fresh()),
        stored_at_most_one(old(heap), final(heap)),
{
    proof {
        heap.lemma_fresh_unused();
    }
    let n = stack.len();
    let ghost pre = State {
        stack: stack@,
        locals: locals@,
        globals: globals@,
        classes: env@,
        heap: heap@,
    };
    match inst {
        SCode::PUSHL(i) => {
            if *i < locals.len() {
                stack.push(locals[*i]);
                Ok(Effect::Next)
            } else {
                Err(VmError::IndexOutOfRange { op: Op::PUSHL, index: *i })
            }
        },
        SCode::PUSHG(i) => {
            if *i < globals.len() {
                stack.push(globals[*i]);
                Ok(Effect::Next)
            } else {
                Err(VmError::IndexOutOfRange { op: Op::PUSHG, index: *i })
            }
        },
        SCode::POPL(i) => {
            if n < 1 {
                Err(VmError::StackUnderflow { op: Op::POPL, found: n })
            } else if *i < locals.len() {
                let v = stack.pop().unwrap();
                locals.set(*i, v);
                Ok(Effect::Next)
            } else {
                Err(VmError::IndexOutOfRange { op: Op::POPL, index: *i })
            }
        },
        SCode::POPG(i) => {
            if n < 1 {
                Err(VmError::StackUnderflow { op: Op::POPG, found: n })
            } else if *i < globals.len() {
                let v = stack.pop().unwrap();
                globals.set(*i, v);
                Ok(Effect::Next)
            } else {
                Err(VmError::IndexOutOfRange { op: Op::POPG, index: *i })
            }
        },
        SCode::ADD => {
            if n < 2 {
                return Err(VmError::StackUnderflow { op: Op::ADD, found: n });
            }
            let b = stack.pop().unwrap();
            let a = stack.pop().unwrap();
            let mut args: Vec<Value> = Vec::new();
            args.push(b);
            assert(args@ =~= seq![b]);
            assert(stack@ =~= pre.stack.subrange(0, n - 2));
            let inv = heap.invoke(a, "add", args, env);
            let ghost mid = State { stack: stack@, ..pre };
            settle(stack, heap, inv, true, Ghost(mid))
        },
        SCode::CALL(name, k) => {
            if n <= *k {
                return Err(VmError::StackUnderflow { op: Op::CALL, found: n });
            }
            let args = stack.split_off(n - *k);
            let recv = stack.pop().unwrap();
            assert(stack@ =~= pre.stack.subrange(0, n - *k - 1));
            let inv = heap.invoke(recv, name.as_str(), args, env);
            let ghost mid = State { stack: stack@, ..pre };
            settle(stack, heap, inv, true, Ghost(mid))
        },
        SCode::RET => {
            if n < 1 {
                return Err(VmError::StackUnderflow { op: Op::RET, found: n });
            }
            let v = stack.pop().unwrap();
            Ok(Effect::Return(v))
        },
        SCode::NEW(c) => {
            match env.instantiate(*c) {
                Ok(inst) => {
                    push_new(stack, heap, Object::Instance(inst));
                    Ok(Effect::Next)
                },
                Err(e) => Err(e),
            }
        },
        SCode::PUSH_INT(v) => {
            push_new(stack, heap, Object::Integer(*v));
            Ok(Effect::Next)
        },
        SCode::PUSH_STR(text) => {
            push_new(stack, heap, Object::Str(text.clone()));
            Ok(Effect::Next)
        },
        SCode::PUSHA(i) => {
            if n < 1 {
                return Err(VmError::StackUnderflow { op: Op::PUSHA, found: n });
            }
            let obj = stack.pop().unwrap();
            let got = heap.get_attr_at(obj, *i);
            let ghost mid = State { stack: stack@, ..pre };
            access(stack, got, Ghost(mid))
        },
        SCode::PUSHASTR(name) => {
            if n < 1 {
                return Err(VmError::StackUnderflow { op: Op::PUSHASTR, found: n });
            }
            let obj = stack.pop().unwrap();
            let got = heap.get_attr(obj, name.as_str(), env);
            let ghost mid = State { stack: stack@, ..pre };
            access(stack, got, Ghost(mid))
        },
        SCode::PRINT => {
            if n < 1 {
                return Err(VmError::StackUnderflow { op: Op::PRINT, found: n });
            }
            let x = stack.pop().unwrap();
            let inv = heap.invoke(x, "__print__", Vec::new(), env);
            let ghost mid = State { stack: stack@, ..pre };
            settle(stack, heap, inv, false, Ghost(mid))
        },
        SCode::FRMSTT => Ok(Effect::OpenFrame),
        SCode::FRMEND(_) => Err(VmError::IllegalInstruction { op: Op::FRMEND }),
        SCode::CLASS(a, m) => {
            match assemble(heap, stack, *a, *m) {
                Ok(class) => {
                    stack.truncate(n - *a - 2 * *m);
                    env.define(class);
                    Ok(Effect::Next)
                },
                Err(e) => Err(e),
            }
        },
    }
}

/// The value `v` has no method `name`: it refers to no object, or to a
/// class or a frame, or to an instance whose class has no such method.
pub open spec fn lacks_method(
    heap: Map<Handle, ObjectView>,
    classes: Seq<ClassView>,
    v: Value,
    name: Seq<char>,
) -> bool {
    match target(heap, v) {
        None => true,
        Some(ObjectView::Class(_)) => true,
        Some(ObjectView::Frame(_)) => true,
        Some(ObjectView::Instance(inst)) => inst.cls < classes.len() && position(
            classes[inst.cls as int].method_names(),
            name,
        ) is None,
        _ => false,
    }
}

/// No instruction changes or removes an object of the arena or a class of
/// the table, and none changes the number of locals or globals: objects
/// and classes are only added.
pub proof fn lemma_only_adds(inst: SCode, s: State, fresh: Handle)
    requires
        !s.heap.contains_key(fresh),
    ensures
        ({
            let out = exec_spec(inst, s, fresh);
            &&& forall|h: Handle| #[trigger]
                s.heap.contains_key(h) ==> out.state.heap.contains_key(h) && out.state.heap[h]
                    == s.heap[h]
            &&& s.classes.len() <= out.state.classes.len()
            &&& forall|c: int|
                0 <= c < s.classes.len() ==> out.state.classes[c] == #[trigger] s.classes[c]
            &&& out.state.locals.len() == s.locals.len()
            &&& out.state.globals.len() == s.globals.len()
        }),
{
}

/// A new instance of a class of the table has one slot for each attribute
/// that the class declares, every slot is unset, and the reference to it
/// is pushed.
pub proof fn lemma_new_instance(s: State, c: usize, fresh: Handle)
    requires
        c < s.classes.len(),
    ensures
        ({
            let out = exec_spec(SCode::NEW(c), s, fresh);
            &&& out.result == Ok::<EffectView, ErrorView>(EffectView::Next)
            &&& out.state.stack == s.stack.push(Value::Ref(fresh))
            &&& out.state.heap == s.heap.insert(fresh, out.state.heap[fresh])
            &&& out.state.heap[fresh] matches ObjectView::Instance(inst)
            &&& inst.cls == c
            &&& inst.attrs.len() == s.classes[c as int].attrs.len()
            &&& forall|i: int| 0 <= i < inst.attrs.len() ==> inst.attrs[i] == Value::Unset
        }),
{
}

/// Popping a value into a local slot and pushing the slot again gives the
/// stack back as it was, with the same value on top, and leaves the arena
/// alone.
pub proof fn lemma_local_round_trip(s: State, i: usize, f1: Handle, f2: Handle)
    requires
        s.stack.len() > 0,
        i < s.locals.len(),
    ensures
        ({
            let popped = exec_spec(SCode::POPL(i), s, f1);
            let pushed = exec_spec(SCode::PUSHL(i), popped.state, f2);
            &&& popped.result == Ok::<EffectView, ErrorView>(EffectView::Next)
            &&& pushed.result == Ok::<EffectView, ErrorView>(EffectView::Next)
            &&& pushed.state.stack == s.stack
            &&& pushed.state.locals == s.locals.update(i as int, s.stack.last())
            &&& pushed.state.heap == s.heap
            &&& pushed.state.globals == s.globals
            &&& pushed.state.classes == s.classes
        }),
{
    let popped = exec_spec(SCode::POPL(i), s, f1);
    let pushed = exec_spec(SCode::PUSHL(i), popped.state, f2);
    assert(pushed.state.stack =~= s.stack);
}

/// Popping a value into a global slot and pushing the slot again gives the
/// stack back as it was, with the same value on top, and leaves the arena
/// alone.
pub proof fn lemma_global_round_trip(s: State, i: usize, f1: Handle, f2: Handle)
    requires
        s.stack.len() > 0,
        i < s.globals.len(),
    ensures
        ({
            let popped = exec_spec(SCode::POPG(i), s, f1);
            let pushed = exec_spec(SCode::PUSHG(i), popped.state, f2);
            &&& popped.result == Ok::<EffectView, ErrorView>(EffectView::Next)
            &&& pushed.result == Ok::<EffectView, ErrorView>(EffectView::Next)
            &&& pushed.state.stack == s.stack
            &&& pushed.state.globals == s.globals.update(i as int, s.stack.last())
            &&& pushed.state.heap == s.heap
            &&& pushed.state.locals == s.locals
            &&& pushed.state.classes == s.classes
        }),
{
    let popped = exec_spec(SCode::POPG(i), s, f1);
    let pushed = exec_spec(SCode::PUSHG(i), popped.state, f2);
    assert(pushed.state.stack =~= s.stack);
}

/// A value that has no method `name` answers its invocation with the error
/// that names its type and the method.
pub proof fn lemma_lacking_method(
    heap: Map<Handle, ObjectView>,
    classes: Seq<ClassView>,
    v: Value,
    name: Seq<char>,
    args: Seq<Value>,
)
    requires
        lacks_method(heap, classes, v, name),
    ensures
        invoke_spec(heap, classes, v, name, args) == Err::<InvocationView, ErrorView>(
            ErrorView::MethodNotFound { ty: tag_of(heap, v), method: name },
        ),
{
}

/// An addition whose receiver, the operand below the top, has no method
/// `add` fails with the error that names the type of the receiver and the
/// method. Both operands are gone from the stack, and nothing else has
/// changed.
pub proof fn lemma_add_without_method(s: State, fresh: Handle)
    requires
        s.stack.len() >= 2,
        lacks_method(s.heap, s.classes, s.stack[s.stack.len() - 2], "add"@),
    ensures
        ({
            let out = exec_spec(SCode::ADD, s, fresh);
            &&& out.result == Err::<EffectView, ErrorView>(
                ErrorView::MethodNotFound {
                    ty: tag_of(s.heap, s.stack[s.stack.len() - 2]),
                    method: "add"@,
                },
            )
            &&& out.state == State { stack: s.stack.subrange(0, s.stack.len() - 2), ..s }
        }),
{
    let n = s.stack.len() as int;
    lemma_lacking_method(s.heap, s.classes, s.stack[n - 2], "add"@, seq![s.stack[n - 1]]);
}

/// An instruction that finds fewer stack entries than it takes fails with
/// a stack underflow and changes nothing: not the stack, the locals, the
/// globals, the class table or the arena.
pub proof fn lemma_underflow(inst: SCode, s: State, fresh: Handle)
    requires
        s.stack.len() < needs(inst),
    ensures
        exec_spec(inst, s, fresh) == (Outcome {
            state: s,
            result: Err(
                ErrorView::StackUnderflow { op: inst.op(), found: s.stack.len() as usize },
            ),
        }),
{
}

/// An instruction that finds the stack entries it takes does not fail with
/// a stack underflow.
pub proof fn lemma_no_underflow(inst: SCode, s: State, fresh: Handle)
    requires
        s.stack.len() >= needs(inst),
    ensures
        !(exec_spec(inst, s, fresh).result matches Err(ErrorView::StackUnderflow { .. })),
{
    match inst {
        SCode::CLASS(a, m) => {
            lemma_assemble_errors(s.heap, s.stack, a, m);
        },
        _ => {},
    }
}

/// Adding two integers pushes a new integer, their sum, in place of the
/// two operands.
pub proof fn lemma_add_integers(s: State, fresh: Handle, x: i64, y: i64)
    requires
        s.stack.len() >= 2,
        target(s.heap, s.stack[s.stack.len() - 2]) == Some(ObjectView::Integer(x)),
        target(s.heap, s.stack[s.stack.len() - 1]) == Some(ObjectView::Integer(y)),
    ensures
        ({
            let out = exec_spec(SCode::ADD, s, fresh);
            &&& out.result == Ok::<EffectView, ErrorView>(EffectView::Next)
            &&& out.state.stack == s.stack.subrange(0, s.stack.len() - 2).push(Value::Ref(fresh))
            &&& out.state.heap == s.heap.insert(fresh, ObjectView::Integer(x.wrapping_add(y)))
        }),
{
}

} // verus!
