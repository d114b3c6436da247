//! The execution engine: the chain of active invocations over one arena,
//! one class table and one vector of globals.

use vstd::prelude::*;
use crate::classty::{Env, table_fault};
use crate::error::{ErrorView, VmError};
use crate::dispatch::target;
use crate::heap::{Heap, lemma_roots_survive, survivors};
use crate::interprete::{
    Effect, EffectView, State, exec_spec, interprete, needs, stored_at_most_one,
};
use crate::object::{ClassView, FrameObj, FrameView, Handle, Object, ObjectView, Value};
use crate::consistency::{
    consistent, lemma_collect_consistent, lemma_initial_consistent, lemma_reaches_consistent,
    lemma_step_consistent,
};
use crate::stackcode::{
    Op, SCode, balanced, bracket_fault, closes, copy_range, find_bracket_fault, find_close,
    lemma_balanced_has_close, lemma_closes_is_end, lemma_closes_unique,
};

verus! {

/// The code that an invocation runs.
#[derive(Clone, Copy, Debug, PartialEq, Eq, Structural)]
pub enum Block {
    /// The program that the machine was made for.
    Main,
    /// A method of a class of the class table.
    Method { class: usize, method: usize },
}

/// The record of one active invocation.
#[derive(Debug, PartialEq, Eq)]
pub struct Activation {
    pub block: Block,
    /// The index of the next instruction in the block.
    pub pc: usize,
    pub stack: Vec<Value>,
    pub locals: Vec<Value>,
    /// Whether the caller wants the result pushed on its stack.
    pub keep: bool,
}

/// The view of an activation record.
pub struct ActivationView {
    pub block: Block,
    pub pc: usize,
    pub stack: Seq<Value>,
    pub locals: Seq<Value>,
    pub keep: bool,
}

impl View for Activation {
    type V = ActivationView;

    open spec fn view(&self) -> ActivationView {
        ActivationView {
            block: self.block,
            pc: self.pc,
            stack: self.stack@,
            locals: self.locals@,
            keep: self.keep,
        }
    }
}

/// Whether an execution goes on, has ended, or has failed.
#[derive(Debug, PartialEq, Eq)]
pub enum Status {
    Running,
    /// The program returned or ran to its end. The result, if there is
    /// one, is the top of the stack of the outermost invocation.
    Finished,
    /// A fatal error ended the execution.
    Failed(VmError),
}

/// The view of a status.
pub enum StatusView {
    Running,
    Finished,
    Failed(ErrorView),
}

impl View for Status {
    type V = StatusView;

    open spec fn view(&self) -> StatusView {
        match self {
            Status::Running => StatusView::Running,
            Status::Finished => StatusView::Finished,
            Status::Failed(e) => StatusView::Failed(e@),
        }
    }
}

impl Clone for Status {
    fn clone(&self) -> (r: Self)
        ensures
            r == *self,
    {
        match self {
            Status::Running => Status::Running,
            Status::Finished => Status::Finished,
            Status::Failed(e) => Status::Failed(e.clone()),
        }
    }
}

/// The machine. The last activation record is the one that executes.
#[derive(Debug)]
pub struct Machine {
    pub program: Vec<SCode>,
    pub env: Env,
    pub heap: Heap,
    pub globals: Vec<Value>,
    pub frames: Vec<Activation>,
    /// What the program has printed, one entry for each print.
    pub output: Vec<String>,
    /// The number of local slots of every invocation.
    pub local_capacity: usize,
    pub status: Status,
    /// The number of steps between two collections that `run` lets pass;
    /// zero where `run` never collects.
    pub gc_interval: usize,
    /// The number of steps that `run` has made since it last collected.
    pub since_gc: usize,
}

/// The view of a machine.
pub struct MachineView {
    pub program: Seq<SCode>,
    pub classes: Seq<ClassView>,
    pub heap: Map<Handle, ObjectView>,
    pub globals: Seq<Value>,
    pub frames: Seq<ActivationView>,
    pub output: Seq<Seq<char>>,
    pub local_capacity: usize,
    pub status: StatusView,
}

impl View for Machine {
    type V = MachineView;

    open spec fn view(&self) -> MachineView {
        MachineView {
            program: self.program@,
            classes: self.env@,
            heap: self.heap@,
            globals: self.globals@,
            frames: Seq::new(self.frames@.len(), |i: int| self.frames@[i]@),
            output: Seq::new(self.output@.len(), |i: int| self.output@[i]@),
            local_capacity: self.local_capacity,
            status: self.status@,
        }
    }
}

/// The instructions of a block; none where the class table has no such
/// method.
pub open spec fn code_of(program: Seq<SCode>, classes: Seq<ClassView>, block: Block) -> Seq<SCode> {
    match block {
        Block::Main => program,
        Block::Method { class, method } => if class < classes.len() && method
            < classes[class as int].methods.len() {
            classes[class as int].methods[method as int].body.code
        } else {
            Seq::empty()
        },
    }
}

/// The index of the instruction that closes the literal opened at `start`.
pub open spec fn closing(code: Seq<SCode>, start: int) -> Option<int> {
    if exists|end: int| closes(code, start, end) {
        Some(choose|end: int| closes(code, start, end))
    } else {
        None
    }
}

/// A vector of `n` unset slots that starts with `args` instead.
pub open spec fn seeded(args: Seq<Value>, n: usize) -> Seq<Value> {
    Seq::new(
        n as nat,
        |i: int|
            if i < args.len() {
                args[i]
            } else {
                Value::Unset
            },
    )
}

/// The machine stopped with `act` as its last activation record.
pub open spec fn halt(m: MachineView, act: ActivationView, status: StatusView) -> MachineView {
    MachineView { frames: m.frames.push(act), status, ..m }
}

/// The machine goes on with the instruction after the current one.
pub open spec fn resume(m: MachineView, act: ActivationView) -> MachineView {
    MachineView { frames: m.frames.push(ActivationView { pc: (act.pc + 1) as usize, ..act }), ..m }
}

/// A nested invocation starts: the caller moves on to its next instruction
/// and a new record with an empty stack and locals seeded with the
/// arguments becomes the current one. More arguments than local slots are
/// an index out of range.
pub open spec fn enter_spec(
    m: MachineView,
    act: ActivationView,
    op: Op,
    class: usize,
    method: usize,
    args: Seq<Value>,
    keep: bool,
) -> MachineView {
    if args.len() > m.local_capacity {
        halt(
            m,
            act,
            StatusView::Failed(ErrorView::IndexOutOfRange { op, index: m.local_capacity }),
        )
    } else {
        resume(m, act).push_frame(
            ActivationView {
                block: Block::Method { class, method },
                pc: 0,
                stack: Seq::empty(),
                locals: seeded(args, m.local_capacity),
                keep,
            },
        )
    }
}

impl MachineView {
    /// The machine with one more activation record.
    pub open spec fn push_frame(self, act: ActivationView) -> MachineView {
        MachineView { frames: self.frames.push(act), ..self }
    }
}

/// The invocation `act` ends with the value `v`, where `m` holds the
/// records of its callers.
///
/// The outermost invocation keeps its record, gets the value back on its
/// stack, and the machine has finished. Otherwise the record is dropped and
/// the caller gets the value pushed, if it wanted one.
pub open spec fn leave_spec(m: MachineView, act: ActivationView, v: Value) -> MachineView {
    if m.frames.len() == 0 {
        halt(m, ActivationView { stack: act.stack.push(v), ..act }, StatusView::Finished)
    } else if act.keep {
        let caller = m.frames.last();
        MachineView {
            frames: m.frames.drop_last().push(
                ActivationView { stack: caller.stack.push(v), ..caller },
            ),
            ..m
        }
    } else {
        m
    }
}

/// The invocation `act` has run past the end of its block.
///
/// The outermost invocation finishes with its stack as it is. A nested one
/// returns its stack top, as if its block ended with a return.
pub open spec fn finish_spec(m: MachineView, act: ActivationView) -> MachineView {
    if m.frames.len() == 0 {
        halt(m, act, StatusView::Finished)
    } else if act.stack.len() == 0 {
        halt(m, act, StatusView::Failed(ErrorView::StackUnderflow { op: Op::RET, found: 0 }))
    } else {
        leave_spec(m, ActivationView { stack: act.stack.drop_last(), ..act }, act.stack.last())
    }
}

/// The invocation `act` stands at an opening bracket of `code`.
///
/// The instructions up to the closing bracket are wrapped in a frame with
/// the number of globals that the closing bracket declares; the frame is
/// stored under `fresh`, the reference to it is pushed, and execution goes
/// on behind the closing bracket. A bracket that is never closed is an
/// illegal instruction.
pub open spec fn open_spec(m: MachineView, act: ActivationView, code: Seq<SCode>, fresh: Handle) -> MachineView {
    match closing(code, act.pc as int) {
        Some(end) => MachineView {
            heap: m.heap.insert(
                fresh,
                ObjectView::Frame(
                    FrameView {
                        code: code.subrange(act.pc + 1, end),
                        global_count: code[end]->FRMEND_0,
                    },
                ),
            ),
            frames: m.frames.push(
                ActivationView {
                    pc: (end + 1) as usize,
                    stack: act.stack.push(Value::Ref(fresh)),
                    ..act
                },
            ),
            ..m
        },
        None => halt(
            m,
            act,
            StatusView::Failed(ErrorView::IllegalInstruction { op: Op::FRMSTT }),
        ),
    }
}

/// One step of the machine, where `fresh` is the reference that a new
/// object gets: fetch the next instruction of the current invocation,
/// execute it, and act on its effect.
///
/// A machine that is not running, or has no invocation, stays as it is.
pub open spec fn step_spec(m: MachineView, fresh: Handle) -> MachineView {
    if !(m.status is Running) || m.frames.len() == 0 {
        m
    } else {
        let top = m.frames.last();
        let code = code_of(m.program, m.classes, top.block);
        let callers = MachineView { frames: m.frames.drop_last(), ..m };
        if top.pc >= code.len() {
            finish_spec(callers, top)
        } else {
            let inst = code[top.pc as int];
            let out = exec_spec(
                inst,
                State {
                    stack: top.stack,
                    locals: top.locals,
                    globals: m.globals,
                    classes: m.classes,
                    heap: m.heap,
                },
                fresh,
            );
            let next = MachineView {
                globals: out.state.globals,
                classes: out.state.classes,
                heap: out.state.heap,
                ..callers
            };
            let act = ActivationView { stack: out.state.stack, locals: out.state.locals, ..top };
            match out.result {
                Err(e) => halt(next, act, StatusView::Failed(e)),
                Ok(EffectView::Next) => resume(next, act),
                Ok(EffectView::Emit(text)) => resume(
                    MachineView { output: next.output.push(text), ..next },
                    act,
                ),
                Ok(EffectView::Invoke { class, method, args, keep }) => enter_spec(
                    next,
                    act,
                    inst.op(),
                    class,
                    method,
                    args,
                    keep,
                ),
                Ok(EffectView::Return(v)) => leave_spec(next, act, v),
                Ok(EffectView::OpenFrame) => open_spec(next, act, code, fresh),
            }
        }
    }
}

/// The values of the stacks and locals of a chain of invocations, the
/// outermost first.
pub open spec fn frame_roots(frames: Seq<ActivationView>) -> Seq<Value>
    decreases frames.len(),
{
    if frames.len() == 0 {
        Seq::empty()
    } else {
        frame_roots(frames.drop_last()) + frames.last().stack + frames.last().locals
    }
}

/// The roots of a machine: its globals, and the stack and the locals of
/// every active invocation.
pub open spec fn roots_of(m: MachineView) -> Seq<Value> {
    m.globals + frame_roots(m.frames)
}

/// The machine after a collection: what is reachable from its roots stays
/// in the arena, and nothing else changes.
pub open spec fn collected(m: MachineView) -> MachineView {
    MachineView { heap: survivors(m.heap, roots_of(m)), ..m }
}

/// The machine `b` comes from `a` by one step, after a collection where
/// `gc` holds.
pub open spec fn ticked(a: MachineView, b: MachineView, gc: bool) -> bool {
    exists|fresh: Handle|
        !maybe_collected(a, gc).heap.contains_key(fresh) && b == #[trigger] step_spec(
            maybe_collected(a, gc),
            fresh,
        )
}

/// The machine after a collection where `gc` holds, and as it is otherwise.
pub open spec fn maybe_collected(m: MachineView, gc: bool) -> MachineView {
    if gc {
        collected(m)
    } else {
        m
    }
}

/// The machine `b` comes from `a` by `n` steps, with a collection before
/// any of them.
pub open spec fn reaches(a: MachineView, b: MachineView, n: nat) -> bool
    decreases n,
{
    if n == 0 {
        a == b
    } else {
        exists|mid: MachineView, gc: bool|
            reaches(a, mid, (n - 1) as nat) && #[trigger] ticked(mid, b, gc)
    }
}

/// What is wrong with the input of a machine: a bracket of the program
/// that breaks its balance, else the first fault of the class table.
pub open spec fn input_fault(program: Seq<SCode>, classes: Seq<ClassView>) -> Option<ErrorView> {
    match bracket_fault(program) {
        Some(op) => Some(ErrorView::IllegalInstruction { op }),
        None => table_fault(classes),
    }
}

/// The machine that starts `program` with this class table: one
/// invocation at the first instruction, with an empty stack and an empty
/// arena, and every local and global slot unset.
pub open spec fn initial(
    program: Seq<SCode>,
    classes: Seq<ClassView>,
    global_capacity: usize,
    local_capacity: usize,
) -> MachineView {
    MachineView {
        program,
        classes,
        heap: Map::empty(),
        globals: seeded(Seq::empty(), global_capacity),
        frames: seq![
            ActivationView {
                block: Block::Main,
                pc: 0,
                stack: Seq::empty(),
                locals: seeded(Seq::empty(), local_capacity),
                keep: false,
            },
        ],
        output: Seq::empty(),
        local_capacity,
        status: StatusView::Running,
    }
}

/// Only an opening bracket has the effect of opening a frame, and it
/// changes nothing.
pub proof fn lemma_open_frame(inst: SCode, s: State, fresh: Handle)
    requires
        exec_spec(inst, s, fresh).result == Ok::<EffectView, ErrorView>(EffectView::OpenFrame),
    ensures
        inst == SCode::FRMSTT,
        exec_spec(inst, s, fresh).state == s,
{
}

/// A step at an opening bracket whose literal is closed at `end` pushes
/// exactly one new frame: its code is what stands between the brackets,
/// its number of globals is the operand of the closing bracket, and
/// execution goes on behind the closing bracket. Nothing else changes.
pub proof fn lemma_frame_literal(m: MachineView, fresh: Handle, end: int)
    requires
        m.status is Running,
        m.frames.len() > 0,
        closes(
            code_of(m.program, m.classes, m.frames.last().block),
            m.frames.last().pc as int,
            end,
        ),
    ensures
        ({
            let top = m.frames.last();
            let code = code_of(m.program, m.classes, top.block);
            &&& code[end] is FRMEND
            &&& step_spec(m, fresh) == MachineView {
                heap: m.heap.insert(
                    fresh,
                    ObjectView::Frame(
                        FrameView {
                            code: code.subrange(top.pc + 1, end),
                            global_count: code[end]->FRMEND_0,
                        },
                    ),
                ),
                frames: m.frames.drop_last().push(
                    ActivationView {
                        pc: (end + 1) as usize,
                        stack: top.stack.push(Value::Ref(fresh)),
                        ..top
                    },
                ),
                ..m
            }
        }),
{
    let top = m.frames.last();
    let code = code_of(m.program, m.classes, top.block);
    lemma_closes_is_end(code, top.pc as int, end);
    let chosen = choose|e: int| closes(code, top.pc as int, e);
    lemma_closes_unique(code, top.pc as int, end, chosen);
}

/// In a balanced block a step at an opening bracket does not fail: the
/// literal is closed.
pub proof fn lemma_balanced_literal(m: MachineView)
    requires
        m.frames.len() > 0,
        balanced(code_of(m.program, m.classes, m.frames.last().block)),
        m.frames.last().pc < code_of(m.program, m.classes, m.frames.last().block).len(),
        code_of(m.program, m.classes, m.frames.last().block)[m.frames.last().pc as int]
            == SCode::FRMSTT,
    ensures
        closing(
            code_of(m.program, m.classes, m.frames.last().block),
            m.frames.last().pc as int,
        ) is Some,
{
    lemma_balanced_has_close(
        code_of(m.program, m.classes, m.frames.last().block),
        m.frames.last().pc as int,
    );
}

/// A step whose instruction finds fewer stack entries than it takes leaves
/// the machine failed with a stack underflow and otherwise as it was.
pub proof fn lemma_step_underflow(m: MachineView, fresh: Handle)
    requires
        m.status is Running,
        m.frames.len() > 0,
        m.frames.last().pc < code_of(m.program, m.classes, m.frames.last().block).len(),
        m.frames.last().stack.len() < needs(
            code_of(m.program, m.classes, m.frames.last().block)[m.frames.last().pc as int],
        ),
    ensures
        step_spec(m, fresh) == (MachineView {
            status: StatusView::Failed(
                ErrorView::StackUnderflow {
                    op: code_of(m.program, m.classes, m.frames.last().block)[m.frames.last().pc as int].op(),
                    found: m.frames.last().stack.len() as usize,
                },
            ),
            ..m
        }),
{
    let top = m.frames.last();
    assert(m.frames.drop_last().push(top) =~= m.frames);
}

/// A step stores at most one object, under the handle `fresh`, and
/// removes none.
pub proof fn lemma_stores_at_most(m: MachineView, fresh: Handle)
    ensures
        forall|h: Handle| #[trigger]
            step_spec(m, fresh).heap.contains_key(h) ==> m.heap.contains_key(h) || h == fresh,
        forall|h: Handle| m.heap.contains_key(h) ==> #[trigger] step_spec(m, fresh).heap.contains_key(h),
{
}

/// A machine that has stopped stays as it is.
pub proof fn lemma_stopped(m: MachineView, fresh: Handle)
    requires
        !(m.status is Running),
    ensures
        step_spec(m, fresh) == m,
{
}

/// A collection changes nothing that the machine can reach from a stack,
/// a local or a global: every such value refers to the object it referred
/// to before.
pub proof fn lemma_collect_keeps_roots(m: MachineView, v: Value)
    requires
        roots_of(m).contains(v),
    ensures
        target(collected(m).heap, v) == target(m.heap, v),
{
    match v {
        Value::Ref(h) => {
            if m.heap.contains_key(h) {
                lemma_roots_survive(m.heap, roots_of(m), h);
            }
        },
        Value::Unset => {},
    }
}

/// The result of a finished execution: the top of the stack of the
/// outermost invocation, if the machine has finished and left one.
pub open spec fn outcome(m: MachineView) -> Option<Value> {
    if m.status is Finished && m.frames.len() > 0 && m.frames[0].stack.len() > 0 {
        Some(m.frames[0].stack.last())
    } else {
        None
    }
}

/// Appends the values of `src` to `out`.
fn push_all(out: &mut Vec<Value>, src: &Vec<Value>)
    ensures
        final(out)@ == old(out)@ + src@,
{
    let mut i: usize = 0;
    while i < src.len()
        invariant
            i <= src.len(),
            out@ == old(out)@ + src@.subrange(0, i as int),
        decreases src.len() - i,
    {
        out.push(src[i]);
        i += 1;
        assert(out@ =~= old(out)@ + src@.subrange(0, i as int));
    }
    assert(src@.subrange(0, i as int) =~= src@);
}

/// A vector of `n` unset slots that starts with `args` instead.
fn seed_locals(args: Vec<Value>, n: usize) -> (r: Vec<Value>)
    requires
        args@.len() <= n,
    ensures
        r@ == seeded(args@, n),
{
    let mut locals = args;
    while locals.len() < n
        invariant
            args@.len() <= locals@.len() <= n,
            forall|i: int| 0 <= i < args@.len() ==> locals@[i] == args@[i],
            forall|i: int| args@.len() <= i < locals@.len() ==> locals@[i] == Value::Unset,
        decreases n - locals@.len(),
    {
        locals.push(Value::Unset);
    }
    assert(locals@ =~= seeded(args@, n));
    locals
}

impl Machine {
    /// The instructions of a block, if the class table has it.
    pub fn code(&self, block: Block) -> (r: Option<&Vec<SCode>>)
        ensures
            match r {
                Some(code) => code@ == code_of(self@.program, self@.classes, block),
                None => code_of(self@.program, self@.classes, block).len() == 0,
            },
    {
        match block {
            Block::Main => Some(&self.program),
            Block::Method { class, method } => {
                if class < self.env.classes.len() && method < self.env.classes[class].methods.len() {
                    Some(&self.env.classes[class].methods[method].body.code)
                } else {
                    None
                }
            },
        }
    }

    /// The instruction at `pc` in a block, if there is one.
    fn fetch(&self, block: Block, pc: usize) -> (r: Option<SCode>)
        ensures
            match r {
                Some(inst) => pc < usize::MAX && pc < code_of(
                    self@.program,
                    self@.classes,
                    block,
                ).len() && inst == code_of(self@.program, self@.classes, block)[pc as int],
                None => pc >= code_of(self@.program, self@.classes, block).len(),
            },
    {
        match self.code(block) {
            Some(code) => if pc < code.len() {
                Some(code[pc].clone())
            } else {
                None
            },
            None => None,
        }
    }

    /// Wraps the literal that opens at `pc` in a frame, and finds where
    /// execution goes on.
    fn literal(&self, block: Block, pc: usize) -> (r: Option<(FrameObj, usize)>)
        ensures
            match r {
                Some((frame, next)) => {
                    let code = code_of(self@.program, self@.classes, block);
                    &&& closing(code, pc as int) matches Some(end)
                    &&& next == end + 1
                    &&& frame@ == FrameView {
                        code: code.subrange(pc + 1, end),
                        global_count: code[end]->FRMEND_0,
                    }
                },
                None => closing(code_of(self@.program, self@.classes, block), pc as int) is None,
            },
    {
        match self.code(block) {
            Some(code) => match find_close(code, pc) {
                Some(end) => {
                    proof {
                        let chosen = choose|e: int| closes(code@, pc as int, e);
                        lemma_closes_unique(code@, pc as int, end as int, chosen);
                        lemma_closes_is_end(code@, pc as int, end as int);
                    }
                    assert(end < code.len());
                    let global_count = match &code[end] {
                        SCode::FRMEND(g) => *g,
                        _ => 0,
                    };
                    Some((FrameObj { code: copy_range(code, pc + 1, end), global_count }, end + 1))
                },
                None => None,
            },
            None => {
                assert forall|e: int| !closes(Seq::<SCode>::empty(), pc as int, e) by {}
                assert(code_of(self@.program, self@.classes, block) =~= Seq::<SCode>::empty());
                None
            },
        }
    }

    /// Puts the current record back and stops.
    fn halt(&mut self, act: Activation, status: Status)
        ensures
            final(self)@ == halt(old(self)@, act@, status@),
            final(self).heap == old(self).heap,
    {
        self.frames.push(act);
        self.status = status;
        assert(self@.frames =~= old(self)@.frames.push(act@));
    }

    /// Puts the current record back, at its next instruction.
    fn resume(&mut self, act: Activation)
        requires
            act.pc < usize::MAX,
        ensures
            final(self)@ == resume(old(self)@, act@),
            final(self).heap == old(self).heap,
    {
        let mut moved = act;
        moved.pc = moved.pc + 1;
        self.frames.push(moved);
        assert(self@.frames =~= resume(old(self)@, act@).frames);
    }

    /// Starts a nested invocation.
    fn enter(
        &mut self,
        act: Activation,
        op: Op,
        class: usize,
        method: usize,
        args: Vec<Value>,
        keep: bool,
    )
        requires
            act.pc < usize::MAX,
        ensures
            final(self)@ == enter_spec(old(self)@, act@, op, class, method, args@, keep),
            final(self).heap == old(self).heap,
    {
        if args.len() > self.local_capacity {
            let index = self.local_capacity;
            self.halt(act, Status::Failed(VmError::IndexOutOfRange { op, index }));
        } else {
            let locals = seed_locals(args, self.local_capacity);
            self.resume(act);
            let callee = Activation {
                block: Block::Method { class, method },
                pc: 0,
                stack: Vec::new(),
                locals,
                keep,
            };
            self.frames.push(callee);
            assert(self@.frames =~= enter_spec(
                old(self)@,
                act@,
                op,
                class,
                method,
                args@,
                keep,
            ).frames);
        }
    }

    /// Ends the invocation `act` with the value `v`.
    fn leave(&mut self, act: Activation, v: Value)
        ensures
            final(self)@ == leave_spec(old(self)@, act@, v),
            final(self).heap == old(self).heap,
    {
        if self.frames.len() == 0 {
            let mut last = act;
            last.stack.push(v);
            self.halt(last, Status::Finished);
        } else if act.keep {
            let mut caller = self.frames.pop().unwrap();
            caller.stack.push(v);
            self.frames.push(caller);
            assert(self@.frames =~= leave_spec(old(self)@, act@, v).frames);
        } else {
            assert(self@.frames =~= old(self)@.frames);
        }
    }

    /// Ends the invocation `act`, which has run past the end of its block.
    fn finish(&mut self, act: Activation)
        ensures
            final(self)@ == finish_spec(old(self)@, act@),
            final(self).heap == old(self).heap,
    {
        if self.frames.len() == 0 {
            self.halt(act, Status::Finished);
        } else if act.stack.len() == 0 {
            self.halt(act, Status::Failed(VmError::StackUnderflow { op: Op::RET, found: 0 }));
        } else {
            let mut rest = act;
            let v = rest.stack.pop().unwrap();
            self.leave(rest, v);
        }
    }

    /// Wraps the literal that opens at the current instruction of `act`.
    fn open_frame(&mut self, act: Activation)
        ensures
            final(self)@ == open_spec(
                old(self)@,
                act@,
                code_of(old(self)@.program, old(self)@.classes, act.block),
                old(self).heap.fresh(),
            ),
            stored_at_most_one(&old(self).heap, &final(self).heap),
    {
        proof {
            self.heap.lemma_fresh_unused();
        }
        match self.literal(act.block, act.pc) {
            Some((frame, next)) => {
                let mut moved = act;
                let h = self.heap.allocate(Object::Frame(frame));
                moved.stack.push(Value::Ref(h));
                moved.pc = next;
                self.frames.push(moved);
                assert(self@.frames =~= open_spec(
                    old(self)@,
                    act@,
                    code_of(old(self)@.program, old(self)@.classes, act.block),
                    old(self).heap.fresh(),
                ).frames);
            },
            None => {
                self.halt(act, Status::Failed(VmError::IllegalInstruction { op: Op::FRMSTT }));
            },
        }
    }

    /// Makes the machine that starts `program`, after checking that the
    /// brackets of the program nest and balance and that the class table
    /// has no fault.
    ///
    /// `run` collects after every `gc_interval` steps, and never where that
    /// is zero.
    pub fn new(
        program: Vec<SCode>,
        env: Env,
        global_capacity: usize,
        local_capacity: usize,
        gc_interval: usize,
    ) -> (r: Result<Machine, VmError>)
        ensures
            match r {
                Ok(m) => {
                    &&& input_fault(program@, env@) is None
                    &&& m@ == initial(program@, env@, global_capacity, local_capacity)
                    &&& consistent(m@)
                    &&& m.gc_interval == gc_interval
                    &&& m.since_gc == 0
                },
                Err(e) => input_fault(program@, env@) == Some(e@),
            },
    {
        match find_bracket_fault(&program) {
            Some(op) => {
                return Err(VmError::IllegalInstruction { op });
            },
            None => {},
        }
        match env.fault() {
            Some(e) => Err(e),
            None => {
                let main = Activation {
                    block: Block::Main,
                    pc: 0,
                    stack: Vec::new(),
                    locals: seed_locals(Vec::new(), local_capacity),
                    keep: false,
                };
                let mut frames: Vec<Activation> = Vec::new();
                frames.push(main);
                let m = Machine {
                    program,
                    env,
                    heap: Heap::new(),
                    globals: seed_locals(Vec::new(), global_capacity),
                    frames,
                    output: Vec::new(),
                    local_capacity,
                    status: Status::Running,
                    gc_interval,
                    since_gc: 0,
                };
                proof {
                    let want = initial(program@, env@, global_capacity, local_capacity);
                    assert(m@.frames =~= want.frames);
                    assert(m@.output =~= want.output);
                    assert(program@.len() == program.len());
                    assert forall|c: int, k: int|
                        0 <= c < env@.len() && 0 <= k < env@[c].methods.len() implies (
                    #[trigger] env@[c].methods[k]).body.code.len() <= usize::MAX by {
                        let code = env.classes@[c].methods@[k].body.code;
                        assert(code@.len() == code.len());
                    }
                    lemma_initial_consistent(program@, env@, global_capacity, local_capacity);
                }
                Ok(m)
            },
        }
    }

    /// The roots of the machine.
    pub fn roots(&self) -> (r: Vec<Value>)
        ensures
            r@ == roots_of(self@),
    {
        let mut out: Vec<Value> = Vec::new();
        push_all(&mut out, &self.globals);
        let mut i: usize = 0;
        assert(self@.frames.subrange(0, 0) =~= Seq::<ActivationView>::empty());
        while i < self.frames.len()
            invariant
                i <= self.frames.len(),
                out@ == self.globals@ + frame_roots(self@.frames.subrange(0, i as int)),
            decreases self.frames.len() - i,
        {
            let ghost before = self@.frames.subrange(0, i as int);
            push_all(&mut out, &self.frames[i].stack);
            push_all(&mut out, &self.frames[i].locals);
            i += 1;
            proof {
                let upto = self@.frames.subrange(0, i as int);
                assert(upto.drop_last() =~= before);
                assert(upto.last() == self.frames@[i - 1]@);
                assert(out@ =~= self.globals@ + frame_roots(upto));
            }
        }
        assert(self@.frames.subrange(0, i as int) =~= self@.frames);
        out
    }

    /// Reclaims every object that is not reachable from the roots of the
    /// machine.
    pub fn collect(&mut self)
        ensures
            final(self)@ == collected(old(self)@),
            final(self).heap.issued() == old(self).heap.issued(),
            final(self).gc_interval == old(self).gc_interval,
            consistent(old(self)@) ==> consistent(final(self)@),
    {
        proof {
            if consistent(self@) {
                lemma_collect_consistent(self@);
            }
        }
        let roots = self.roots();
        self.heap.collect(&roots);
        self.since_gc = 0;
    }

    /// Runs the machine until it stops, but for `max_steps` steps at most,
    /// and returns the status it is left in. Before a step it collects
    /// where `gc_interval` steps have passed since the last collection.
    /// A reference that is stale stays stale: no handle is given out twice.
    ///
    /// A machine that is still running after `max_steps` steps can be run
    /// further.
    pub fn run(&mut self, max_steps: usize) -> (r: Status)
        ensures
            r@ == final(self)@.status,
            exists|n: nat|
                {
                    &&& n <= max_steps
                    &&& #[trigger] reaches(old(self)@, final(self)@, n)
                    &&& n < max_steps ==> !(final(self)@.status is Running)
                },
            consistent(old(self)@) ==> consistent(final(self)@),
            old(self).heap.issued().subset_of(final(self).heap.issued()),
            forall|h: Handle|
                old(self).heap.issued().contains(h) && !old(self)@.heap.contains_key(h)
                    ==> !#[trigger] final(self)@.heap.contains_key(h),
    {
        let mut steps: usize = 0;
        assert(reaches(old(self)@, self@, 0));
        loop
            invariant
                steps <= max_steps,
                reaches(old(self)@, self@, steps as nat),
                old(self).heap.issued().subset_of(self.heap.issued()),
                forall|h: Handle|
                    old(self).heap.issued().contains(h) && !old(self)@.heap.contains_key(h)
                        ==> !#[trigger] self@.heap.contains_key(h),
            ensures
                reaches(old(self)@, self@, steps as nat),
                steps <= max_steps,
                steps < max_steps ==> !(self@.status is Running),
                old(self).heap.issued().subset_of(self.heap.issued()),
                forall|h: Handle|
                    old(self).heap.issued().contains(h) && !old(self)@.heap.contains_key(h)
                        ==> !#[trigger] self@.heap.contains_key(h),
            decreases max_steps - steps,
        {
            if steps >= max_steps {
                break ;
            }
            match &self.status {
                Status::Running => {},
                _ => {
                    break ;
                },
            }
            let ghost before = self@;
            let due = self.gc_interval > 0 && self.since_gc >= self.gc_interval;
            if due {
                self.collect();
            }
            let ghost mid = self@;
            proof {
                self.heap.lemma_fresh_unused();
            }
            let ghost fresh = self.heap.fresh();
            proof {
                lemma_stores_at_most(mid, fresh);
            }
            self.step();
            if self.since_gc < usize::MAX {
                self.since_gc = self.since_gc + 1;
            }
            steps = steps + 1;
            proof {
                assert(mid == maybe_collected(before, due));
                assert(self@ == step_spec(maybe_collected(before, due), fresh));
                assert(ticked(before, self@, due));
                assert(((steps as nat) - 1) as nat == (steps - 1) as nat);
                assert(reaches(old(self)@, before, (steps - 1) as nat));
            }
        }
        proof {
            if consistent(old(self)@) {
                lemma_reaches_consistent(old(self)@, self@, steps as nat);
            }
        }
        self.status.clone()
    }

    /// The result of a finished execution: the top of the stack of the
    /// outermost invocation.
    pub fn result(&self) -> (r: Option<Value>)
        ensures
            r == outcome(self@),
    {
        match &self.status {
            Status::Finished => {
                if self.frames.len() > 0 && self.frames[0].stack.len() > 0 {
                    let stack = &self.frames[0].stack;
                    Some(stack[stack.len() - 1])
                } else {
                    None
                }
            },
            _ => None,
        }
    }

    /// Executes one instruction and returns the status after it. A machine
    /// in order stays in order.
    pub fn step(&mut self) -> (r: Status)
        ensures
            final(self)@ == step_spec(old(self)@, old(self).heap.fresh()),
            !old(self).heap.issued().contains(old(self).heap.fresh()),
            !old(self)@.heap.contains_key(old(self).heap.fresh()),
            stored_at_most_one(&old(self).heap, &final(self).heap),
            r@ == final(self)@.status,
            consistent(old(self)@) ==> consistent(final(self)@),
    {
        proof {
            self.heap.lemma_fresh_unused();
            if consistent(self@) {
                lemma_step_consistent(self@, self.heap.fresh());
            }
        }
        match &self.status {
            Status::Running => {},
            _ => {
                return self.status.clone();
            },
        }
        if self.frames.len() == 0 {
            return Status::Running;
        }
        let ghost fresh = self.heap.fresh();
        let mut act = self.frames.pop().unwrap();
        assert(act@ == old(self)@.frames.last());
        assert(self@.frames =~= old(self)@.frames.drop_last());
        assert(self@ == MachineView { frames: old(self)@.frames.drop_last(), ..old(self)@ });
        match self.fetch(act.block, act.pc) {
            None => {
                self.finish(act);
            },
            Some(inst) => {
                let ghost callers = self@;
                let ghost pre = State {
                    stack: act.stack@,
                    locals: act.locals@,
                    globals: self.globals@,
                    classes: self.env@,
                    heap: self.heap@,
                };
                let r = interprete(
                    &inst,
                    &mut act.locals,
                    &mut act.stack,
                    &mut self.env,
                    &mut self.globals,
                    &mut self.heap,
                );
                assert(self@ == MachineView {
                    globals: self.globals@,
                    classes: self.env@,
                    heap: self.heap@,
                    ..callers
                });
                match r {
                    Err(e) => {
                        self.halt(act, Status::Failed(e));
                    },
                    Ok(Effect::Next) => {
                        self.resume(act);
                    },
                    Ok(Effect::Emit(text)) => {
                        self.output.push(text);
                        assert(self@.output =~= callers.output.push(text@));
                        self.resume(act);
                    },
                    Ok(Effect::Invoke { class, method, args, keep }) => {
                        self.enter(act, inst.op(), class, method, args, keep);
                    },
                    Ok(Effect::Return(v)) => {
                        self.leave(act, v);
                    },
                    Ok(Effect::OpenFrame) => {
                        proof {
                            lemma_open_frame(inst, pre, fresh);
                        }
                        self.open_frame(act);
                    },
                }
            },
        }
        self.status.clone()
    }
}

} // verus!
