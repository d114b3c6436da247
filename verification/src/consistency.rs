//! What holds of every state that a machine reaches from checked input.

use vstd::prelude::*;
use crate::classdef::{assemble_spec, described_class, lemma_assembled_distinct, method_desc};
use crate::classty::{class_ok, lemma_position, lemma_table_fault};
use crate::dispatch::{invoke_spec, object_set, set_spec, target};
use crate::error::ErrorView;
use crate::interprete::{EffectView, State, exec_spec, needs};
use crate::machine::{
    ActivationView, Block, MachineView, StatusView, closing, code_of, collected, initial,
    input_fault, maybe_collected, reaches, step_spec, ticked,
};
use crate::object::{ClassView, Handle, InvocationView, ObjectView, Value};
use crate::stackcode::{
    SCode, balanced, bracket, closes, depth, lemma_balanced_has_close, lemma_bracket_fault,
    lemma_depth_split, lemma_literal_balanced,
};

verus! {

/// The brackets of the code balance, and its instructions can be counted
/// in a machine word.
pub open spec fn code_ok(code: Seq<SCode>) -> bool {
    balanced(code) && code.len() <= usize::MAX
}

/// An instance belongs to a class of the table and has one slot for each
/// attribute of the class; the code of a frame is in order.
pub open spec fn object_ok(classes: Seq<ClassView>, obj: ObjectView) -> bool {
    match obj {
        ObjectView::Instance(inst) => inst.cls < classes.len() && inst.attrs.len()
            == classes[inst.cls as int].attrs.len(),
        ObjectView::Frame(frame) => code_ok(frame.code),
        _ => true,
    }
}

/// No attribute name and no method name of the class occurs twice, and the
/// code of every method is in order.
pub open spec fn defined_ok(class: ClassView) -> bool {
    &&& class_ok(class)
    &&& forall|k: int|
        0 <= k < class.methods.len() ==> (#[trigger] class.methods[k]).body.code.len() <= usize::MAX
}

/// Every object of the arena is in order.
pub open spec fn heap_ok(classes: Seq<ClassView>, heap: Map<Handle, ObjectView>) -> bool {
    forall|h: Handle| #[trigger] heap.contains_key(h) ==> object_ok(classes, heap[h])
}

/// Every class of the table is in order.
pub open spec fn table_ok(classes: Seq<ClassView>) -> bool {
    forall|c: int| 0 <= c < classes.len() ==> defined_ok(#[trigger] classes[c])
}

/// The block is the program or a method of the table.
pub open spec fn block_ok(classes: Seq<ClassView>, block: Block) -> bool {
    match block {
        Block::Main => true,
        Block::Method { class, method } => class < classes.len() && method
            < classes[class as int].methods.len(),
    }
}

/// The invocation runs a block of the machine, stands outside of every
/// literal of the block, and has as many locals as the machine gives.
pub open spec fn activation_ok(m: MachineView, act: ActivationView) -> bool {
    &&& block_ok(m.classes, act.block)
    &&& act.pc <= code_of(m.program, m.classes, act.block).len()
    &&& depth(code_of(m.program, m.classes, act.block), 0, act.pc as int) == 0
    &&& act.locals.len() == m.local_capacity
}

/// The machine is in order: the brackets of its program balance, every
/// class, every object and every invocation is in order.
pub open spec fn consistent(m: MachineView) -> bool {
    &&& code_ok(m.program)
    &&& table_ok(m.classes)
    &&& heap_ok(m.classes, m.heap)
    &&& forall|i: int| 0 <= i < m.frames.len() ==> activation_ok(m, #[trigger] m.frames[i])
}

/// The table `after` starts with the classes of `before`.
pub open spec fn extends(before: Seq<ClassView>, after: Seq<ClassView>) -> bool {
    &&& before.len() <= after.len()
    &&& forall|c: int| 0 <= c < before.len() ==> after[c] == #[trigger] before[c]
}

/// The bodies of an assembled class are frames of the arena.
proof fn lemma_assembled_bodies(heap: Map<Handle, ObjectView>, stack: Seq<Value>, a: usize, m: usize)
    requires
        assemble_spec(heap, stack, a, m) is Ok,
        forall|h: Handle|
            #[trigger] heap.contains_key(h) && heap[h] is Frame ==> code_ok(heap[h]->Frame_0.code),
    ensures
        defined_ok(assemble_spec(heap, stack, a, m)->Ok_0),
{
    lemma_assembled_distinct(heap, stack, a, m);
    let class = described_class(heap, stack, a, m);
    let need = a + 2 * m;
    let desc = stack.subrange(stack.len() - need, stack.len() as int);
    assert forall|k: int| 0 <= k < class.methods.len() implies code_ok(
        (#[trigger] class.methods[k]).body.code,
    ) by {
        assert(method_desc(heap, desc, a as int, k) is Some);
        let body = desc[a + 2 * k + 1];
        assert(heap.contains_key(body->Ref_0));
    }
}

/// What one instruction keeps in order, and what its result tells of it.
pub proof fn lemma_exec_keeps(inst: SCode, s: State, fresh: Handle)
    requires
        table_ok(s.classes),
        heap_ok(s.classes, s.heap),
    ensures
        ({
            let out = exec_spec(inst, s, fresh);
            &&& out.state.locals.len() == s.locals.len()
            &&& out.state.globals.len() == s.globals.len()
            &&& extends(s.classes, out.state.classes)
            &&& table_ok(out.state.classes)
            &&& heap_ok(out.state.classes, out.state.heap)
            &&& out.result matches Err(ErrorView::IllegalInstruction { .. }) ==> inst is FRMEND
            &&& out.result == Ok::<EffectView, ErrorView>(EffectView::OpenFrame) ==> inst
                == SCode::FRMSTT && out.state == s
            &&& out.result is Ok && out.result != Ok::<EffectView, ErrorView>(
                EffectView::OpenFrame,
            ) ==> bracket(inst) == 0
            &&& out.result matches Ok(EffectView::Invoke { class, method, .. }) ==> block_ok(
                out.state.classes,
                Block::Method { class, method },
            )
        }),
{
    let out = exec_spec(inst, s, fresh);
    let n = s.stack.len() as int;
    if n >= needs(inst) {
        match inst {
            SCode::CLASS(a, m) => {
                if assemble_spec(s.heap, s.stack, a, m) is Ok {
                    lemma_assembled_bodies(s.heap, s.stack, a, m);
                    let class = assemble_spec(s.heap, s.stack, a, m)->Ok_0;
                    assert(out.state.classes == s.classes.push(class));
                    assert forall|h: Handle| #[trigger] out.state.heap.contains_key(h) implies object_ok(
                        out.state.classes,
                        out.state.heap[h],
                    ) by {
                        assert(s.heap.contains_key(h));
                    }
                }
            },
            SCode::ADD => {
                lemma_invoke_target(s.heap, s.classes, s.stack[n - 2], "add"@, seq![s.stack[n - 1]]);
                lemma_store_keeps(s, out.state, fresh);
            },
            SCode::CALL(name, k) => {
                lemma_invoke_target(
                    s.heap,
                    s.classes,
                    s.stack[n - k - 1],
                    name@,
                    s.stack.subrange(n - k, n),
                );
                lemma_store_keeps(s, out.state, fresh);
            },
            SCode::PRINT => {
                lemma_invoke_target(s.heap, s.classes, s.stack.last(), "__print__"@, Seq::empty());
            },
            SCode::NEW(_) | SCode::PUSH_INT(_) | SCode::PUSH_STR(_) => {
                lemma_store_keeps(s, out.state, fresh);
            },
            _ => {},
        }
    }
}

/// An arena in order stays so where at most one object in order is stored.
proof fn lemma_store_keeps(s: State, after: State, fresh: Handle)
    requires
        heap_ok(s.classes, s.heap),
        after.classes == s.classes,
        after.heap == s.heap || (after.heap == s.heap.insert(fresh, after.heap[fresh]) && object_ok(
            s.classes,
            after.heap[fresh],
        )),
    ensures
        heap_ok(after.classes, after.heap),
{
    assert forall|h: Handle| #[trigger] after.heap.contains_key(h) implies object_ok(
        after.classes,
        after.heap[h],
    ) by {
        if h != fresh {
            assert(s.heap.contains_key(h));
        } else if after.heap == s.heap {
            assert(s.heap.contains_key(h));
        }
    }
}

/// The code that an invocation asks to run is a method of the table, and
/// the object that a built-in method makes is an integer or a string.
proof fn lemma_invoke_target(
    heap: Map<Handle, ObjectView>,
    classes: Seq<ClassView>,
    recv: Value,
    name: Seq<char>,
    args: Seq<Value>,
)
    ensures
        match invoke_spec(heap, classes, recv, name, args) {
            Ok(InvocationView::Enter { class, method, .. }) => block_ok(
                classes,
                Block::Method { class, method },
            ),
            Ok(InvocationView::Produce(obj)) => obj is Integer || obj is Str,
            Ok(_) => true,
            Err(e) => !(e is IllegalInstruction),
        },
{
    match target(heap, recv) {
        Some(ObjectView::Instance(inst)) => {
            if inst.cls < classes.len() {
                lemma_position(classes[inst.cls as int].method_names(), name, 0);
            }
        },
        _ => {},
    }
}

/// At a place outside of every literal of a balanced block stands no
/// closing bracket.
proof fn lemma_no_stray_end(code: Seq<SCode>, pc: int)
    requires
        balanced(code),
        0 <= pc < code.len(),
        depth(code, 0, pc) == 0,
    ensures
        !(code[pc] is FRMEND),
        bracket(code[pc]) == 0 ==> depth(code, 0, pc + 1) == 0,
{
    assert(depth(code, 0, pc + 1) == depth(code, 0, pc) + bracket(code[pc]));
    assert(depth(code, 0, pc + 1) >= 0);
}

/// Behind the bracket that closes a literal which opens outside of every
/// literal, the block is outside of every literal again.
proof fn lemma_behind_literal(code: Seq<SCode>, pc: int, end: int)
    requires
        0 <= pc,
        depth(code, 0, pc) == 0,
        closes(code, pc, end),
    ensures
        depth(code, 0, end + 1) == 0,
        balanced(code.subrange(pc + 1, end)),
{
    lemma_depth_split(code, 0, pc, end + 1);
    lemma_literal_balanced(code, pc, end);
}

/// The blocks of a table that was extended are the blocks it had.
proof fn lemma_code_extends(
    program: Seq<SCode>,
    before: Seq<ClassView>,
    after: Seq<ClassView>,
    block: Block,
)
    requires
        extends(before, after),
        block_ok(before, block),
    ensures
        block_ok(after, block),
        code_of(program, after, block) == code_of(program, before, block),
{
    match block {
        Block::Method { class, method } => {
            assert(after[class as int] == before[class as int]);
        },
        Block::Main => {},
    }
}

/// A step keeps a machine in order, keeps its program and the numbers of
/// its globals and locals, and never meets a bracket without its partner.
#[verifier::rlimit(60)]
pub proof fn lemma_step_consistent(m: MachineView, fresh: Handle)
    requires
        consistent(m),
    ensures
        consistent(step_spec(m, fresh)),
        step_spec(m, fresh).program == m.program,
        step_spec(m, fresh).local_capacity == m.local_capacity,
        step_spec(m, fresh).globals.len() == m.globals.len(),
        extends(m.classes, step_spec(m, fresh).classes),
        m.status is Running ==> !(step_spec(m, fresh).status matches StatusView::Failed(
            ErrorView::IllegalInstruction { .. },
        )),
{
    let after = step_spec(m, fresh);
    if m.status is Running && m.frames.len() > 0 {
        let top = m.frames.last();
        let code = code_of(m.program, m.classes, top.block);
        let callers = m.frames.drop_last();
        assert(activation_ok(m, top));
        assert forall|i: int| 0 <= i < callers.len() implies activation_ok(
            m,
            #[trigger] callers[i],
        ) by {
            assert(callers[i] == m.frames[i]);
        }
        if top.pc >= code.len() {
            assert forall|i: int| 0 <= i < after.frames.len() implies activation_ok(
                after,
                #[trigger] after.frames[i],
            ) by {
                if i < callers.len() {
                    assert(activation_ok(m, callers[i]));
                }
            }
        } else {
            let inst = code[top.pc as int];
            let s = State {
                stack: top.stack,
                locals: top.locals,
                globals: m.globals,
                classes: m.classes,
                heap: m.heap,
            };
            let out = exec_spec(inst, s, fresh);
            lemma_exec_keeps(inst, s, fresh);
            lemma_no_stray_end(code, top.pc as int);
            match top.block {
                Block::Main => {},
                Block::Method { class, method } => {
                    assert(defined_ok(m.classes[class as int]));
                },
            }
            assert(code_ok(code));
            if out.result == Ok::<EffectView, ErrorView>(EffectView::OpenFrame) {
                lemma_balanced_has_close(code, top.pc as int);
                let end = closing(code, top.pc as int)->0;
                lemma_behind_literal(code, top.pc as int, end);
                assert forall|h: Handle| #[trigger] after.heap.contains_key(h) implies object_ok(
                    after.classes,
                    after.heap[h],
                ) by {
                    if h != fresh {
                        assert(m.heap.contains_key(h));
                    }
                }
            }
            assert(heap_ok(after.classes, after.heap));
            assert forall|i: int| 0 <= i < after.frames.len() implies activation_ok(
                after,
                #[trigger] after.frames[i],
            ) by {
                let act = after.frames[i];
                if i < callers.len() {
                    assert(activation_ok(m, callers[i]));
                    lemma_code_extends(m.program, m.classes, after.classes, callers[i].block);
                    assert(act.block == callers[i].block);
                    assert(act.pc == callers[i].pc);
                    assert(act.locals == callers[i].locals);
                    assert(activation_ok(after, act));
                } else if i == callers.len() {
                    lemma_code_extends(m.program, m.classes, after.classes, top.block);
                    assert(act.block == top.block);
                    assert(act.locals.len() == m.local_capacity);
                    assert(act.pc <= code.len());
                    assert(depth(code, 0, act.pc as int) == 0);
                    assert(activation_ok(after, act));
                } else {
                    assert(act.pc == 0);
                    assert(depth(code_of(after.program, after.classes, act.block), 0, 0) == 0);
                    assert(activation_ok(after, act));
                }
            }
        }
    }
}

/// A collection keeps a machine in order.
pub proof fn lemma_collect_consistent(m: MachineView)
    requires
        consistent(m),
    ensures
        consistent(collected(m)),
{
    let after = collected(m);
    assert forall|h: Handle| #[trigger] after.heap.contains_key(h) implies object_ok(
        after.classes,
        after.heap[h],
    ) by {
        assert(m.heap.contains_key(h));
    }
    assert forall|i: int| 0 <= i < after.frames.len() implies activation_ok(
        after,
        #[trigger] after.frames[i],
    ) by {
        assert(activation_ok(m, m.frames[i]));
    }
}

/// The machine that is made from input without a fault is in order.
pub proof fn lemma_initial_consistent(
    program: Seq<SCode>,
    classes: Seq<ClassView>,
    global_capacity: usize,
    local_capacity: usize,
)
    requires
        input_fault(program, classes) is None,
        program.len() <= usize::MAX,
        forall|c: int, k: int|
            0 <= c < classes.len() && 0 <= k < classes[c].methods.len() ==> (
            #[trigger] classes[c].methods[k]).body.code.len() <= usize::MAX,
    ensures
        consistent(initial(program, classes, global_capacity, local_capacity)),
{
    lemma_bracket_fault(program);
    lemma_table_fault(classes, 0);
    assert forall|c: int| 0 <= c < classes.len() implies defined_ok(#[trigger] classes[c]) by {
        assert(class_ok(classes[c]));
    }
    assert(depth(program, 0, 0) == 0);
}

/// Whatever a machine in order reaches is in order, runs the same program
/// over a table that starts with the classes it had, and has not failed
/// for a bracket without its partner unless it had before.
pub proof fn lemma_reaches_consistent(a: MachineView, b: MachineView, n: nat)
    requires
        consistent(a),
        reaches(a, b, n),
    ensures
        consistent(b),
        b.program == a.program,
        b.local_capacity == a.local_capacity,
        b.globals.len() == a.globals.len(),
        extends(a.classes, b.classes),
        b.status matches StatusView::Failed(ErrorView::IllegalInstruction { .. }) ==> a.status
            == b.status,
    decreases n,
{
    if n > 0 {
        let (mid, gc) = choose|mid: MachineView, gc: bool|
            reaches(a, mid, (n - 1) as nat) && #[trigger] ticked(mid, b, gc);
        lemma_reaches_consistent(a, mid, (n - 1) as nat);
        let before = maybe_collected(mid, gc);
        if gc {
            lemma_collect_consistent(mid);
        }
        let fresh = choose|fresh: Handle|
            !before.heap.contains_key(fresh) && b == #[trigger] step_spec(before, fresh);
        lemma_step_consistent(before, fresh);
    }
}

/// Replacing an attribute keeps the arena in order.
pub proof fn lemma_set_keeps(
    heap: Map<Handle, ObjectView>,
    classes: Seq<ClassView>,
    v: Value,
    name: Seq<char>,
    new_value: Value,
)
    requires
        heap_ok(classes, heap),
        set_spec(heap, classes, v, name, new_value) is Ok,
    ensures
        heap_ok(classes, set_spec(heap, classes, v, name, new_value)->Ok_0),
{
    let after = set_spec(heap, classes, v, name, new_value)->Ok_0;
    let target = v->Ref_0;
    assert(heap.contains_key(target));
    assert(object_ok(classes, heap[target]));
    let changed = object_set(heap[target], classes, name, new_value)->Ok_0;
    assert(after == heap.insert(target, changed));
    let inst = heap[target]->Instance_0;
    lemma_position(classes[inst.cls as int].attrs, name, 0);
    assert(object_ok(classes, changed));
    assert forall|h: Handle| #[trigger] after.contains_key(h) implies object_ok(classes, after[h]) by {
        if h != target {
            assert(heap.contains_key(h));
        }
    }
}

} // verus!
