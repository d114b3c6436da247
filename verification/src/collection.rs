//! A collection is invisible to the program: what a step does depends on
//! the arena only through what the roots reach.

use vstd::prelude::*;
use crate::classdef::{assemble_spec, attr_desc, described, described_class, method_desc};
use crate::dispatch::target;
use crate::heap::{lemma_roots_survive, reachable, survivors};
use crate::interprete::{State, exec_spec, needs};
use crate::machine::{MachineView, code_of, collected, frame_roots, roots_of, step_spec};
use crate::object::{Handle, ObjectView, Value};
use crate::stackcode::SCode;

verus! {

/// Every one of `values` refers to the same object in both arenas, or to
/// none in both.
pub open spec fn agree_on(
    heap: Map<Handle, ObjectView>,
    other: Map<Handle, ObjectView>,
    values: Seq<Value>,
) -> bool {
    forall|k: int| 0 <= k < values.len() ==> target(heap, #[trigger] values[k]) == target(other, values[k])
}

/// The objects of `heap` that no reference leads to from `roots`.
pub open spec fn garbage(heap: Map<Handle, ObjectView>, roots: Seq<Value>) -> Set<Handle> {
    Set::new(|h: Handle| heap.contains_key(h) && !reachable(heap, roots, h))
}

/// A class definition reads the arena only through the stack.
proof fn lemma_assemble_agrees(
    heap: Map<Handle, ObjectView>,
    other: Map<Handle, ObjectView>,
    stack: Seq<Value>,
    a: usize,
    m: usize,
)
    requires
        agree_on(heap, other, stack),
    ensures
        assemble_spec(heap, stack, a, m) == assemble_spec(other, stack, a, m),
{
    let need = a + 2 * m;
    if need <= stack.len() {
        let base = stack.len() - need;
        let desc = stack.subrange(base, stack.len() as int);
        assert forall|i: int|
            #![trigger attr_desc(heap, desc, i)]
            #![trigger attr_desc(other, desc, i)]
            0 <= i < a implies attr_desc(heap, desc, i) == attr_desc(other, desc, i) by {
            assert(desc[i] == stack[base + i]);
        }
        assert forall|j: int|
            #![trigger method_desc(heap, desc, a as int, j)]
            #![trigger method_desc(other, desc, a as int, j)]
            0 <= j < m implies method_desc(heap, desc, a as int, j) == method_desc(
            other,
            desc,
            a as int,
            j,
        ) by {
            assert(desc[a + 2 * j] == stack[base + a + 2 * j]);
            assert(desc[a + 2 * j + 1] == stack[base + a + 2 * j + 1]);
        }
        assert(described(heap, stack, a, m) == described(other, stack, a, m));
        if described(heap, stack, a, m) {
            assert(described_class(heap, stack, a, m).attrs =~= described_class(
                other,
                stack,
                a,
                m,
            ).attrs);
            assert(described_class(heap, stack, a, m).methods =~= described_class(
                other,
                stack,
                a,
                m,
            ).methods);
        }
    }
}

/// An instruction reads the arena only through the entries of the stack:
/// on two arenas that agree on them it has the same result, leaves the
/// same stack, locals, globals and class table, and stores the same object
/// or none.
pub proof fn lemma_exec_reads_stack(
    inst: SCode,
    s: State,
    other: Map<Handle, ObjectView>,
    fresh: Handle,
)
    requires
        agree_on(s.heap, other, s.stack),
    ensures
        ({
            let a = exec_spec(inst, s, fresh);
            let b = exec_spec(inst, State { heap: other, ..s }, fresh);
            &&& b.result == a.result
            &&& b.state.stack == a.state.stack
            &&& b.state.locals == a.state.locals
            &&& b.state.globals == a.state.globals
            &&& b.state.classes == a.state.classes
            &&& (a.state.heap == s.heap && b.state.heap == other) || (a.state.heap == s.heap.insert(
                fresh,
                a.state.heap[fresh],
            ) && b.state.heap == other.insert(fresh, a.state.heap[fresh]))
        }),
{
    let n = s.stack.len() as int;
    if n >= needs(inst) {
        match inst {
            SCode::ADD => {
                assert(target(s.heap, s.stack[n - 1]) == target(other, s.stack[n - 1]));
                assert(target(s.heap, s.stack[n - 2]) == target(other, s.stack[n - 2]));
                assert(seq![s.stack[n - 1]][0] == s.stack[n - 1]);
            },
            SCode::CALL(name, k) => {
                assert(target(s.heap, s.stack[n - k - 1]) == target(other, s.stack[n - k - 1]));
                let args = s.stack.subrange(n - k, n);
                if args.len() == 1 {
                    assert(args[0] == s.stack[n - k]);
                    assert(target(s.heap, s.stack[n - k]) == target(other, s.stack[n - k]));
                }
            },
            SCode::PUSHA(_) | SCode::PUSHASTR(_) | SCode::PRINT => {
                assert(target(s.heap, s.stack[n - 1]) == target(other, s.stack[n - 1]));
            },
            SCode::CLASS(a, m) => {
                lemma_assemble_agrees(s.heap, other, s.stack, a, m);
            },
            _ => {},
        }
    }
}

/// The stack of the current invocation is among the roots.
proof fn lemma_top_stack_rooted(m: MachineView, k: int)
    requires
        m.frames.len() > 0,
        0 <= k < m.frames.last().stack.len(),
    ensures
        roots_of(m).contains(m.frames.last().stack[k]),
{
    let top = m.frames.last();
    let below = frame_roots(m.frames.drop_last());
    let roots = roots_of(m);
    assert(frame_roots(m.frames) == below + top.stack + top.locals);
    assert(roots[m.globals.len() + below.len() + k] == top.stack[k]);
}

/// A step after a collection does what the step without the collection
/// does: the two machines differ only in the objects that the collection
/// reclaimed.
pub proof fn lemma_collection_invisible(m: MachineView, fresh: Handle)
    requires
        !m.heap.contains_key(fresh),
    ensures
        ({
            let plain = step_spec(m, fresh);
            let swept = step_spec(collected(m), fresh);
            swept == MachineView {
                heap: plain.heap.remove_keys(garbage(m.heap, roots_of(m))),
                ..plain
            }
        }),
{
    let roots = roots_of(m);
    let kept = survivors(m.heap, roots);
    let lost = garbage(m.heap, roots);
    let plain = step_spec(m, fresh);
    let swept = step_spec(collected(m), fresh);
    assert(kept =~= m.heap.remove_keys(lost));
    if m.status is Running && m.frames.len() > 0 {
        let top = m.frames.last();
        let code = code_of(m.program, m.classes, top.block);
        if top.pc < code.len() {
            let s = State {
                stack: top.stack,
                locals: top.locals,
                globals: m.globals,
                classes: m.classes,
                heap: m.heap,
            };
            assert forall|k: int| 0 <= k < top.stack.len() implies target(
                m.heap,
                #[trigger] top.stack[k],
            ) == target(kept, top.stack[k]) by {
                lemma_top_stack_rooted(m, k);
                match top.stack[k] {
                    Value::Ref(h) => {
                        if m.heap.contains_key(h) {
                            lemma_roots_survive(m.heap, roots, h);
                        }
                    },
                    Value::Unset => {},
                }
            }
            lemma_exec_reads_stack(code[top.pc as int], s, kept, fresh);
            let a = exec_spec(code[top.pc as int], s, fresh);
            assert(a.state.heap.remove_keys(lost) =~= exec_spec(
                code[top.pc as int],
                State { heap: kept, ..s },
                fresh,
            ).state.heap);
            assert(plain.heap.remove_keys(lost) =~= swept.heap);
        } else {
            assert(plain.heap.remove_keys(lost) =~= swept.heap);
        }
    } else {
        assert(plain.heap.remove_keys(lost) =~= swept.heap);
    }
}

} // verus!
