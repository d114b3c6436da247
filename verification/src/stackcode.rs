//! The instruction set, and the bracket discipline of code literals.

use vstd::prelude::*;

verus! {

/// One instruction of the stack machine.
#[allow(non_camel_case_types)]
#[derive(Debug, PartialEq, Eq)]
pub enum SCode {
    /// Push a share of the local slot with this index.
    PUSHL(usize),
    /// Push a share of the global slot with this index.
    PUSHG(usize),
    /// Pop the stack top into the local slot with this index.
    POPL(usize),
    /// Pop the stack top into the global slot with this index.
    POPG(usize),
    /// Pop `b`, pop `a`, push the result of `a`'s method `add` applied to `b`.
    ADD,
    /// Method name and number of arguments: pop the arguments, pop the
    /// receiver, push what the receiver's method returns.
    CALL(String, usize),
    /// End the current invocation and hand the stack top to the caller.
    RET,
    /// Push a new instance of the class with this identifier.
    NEW(usize),
    /// Push a new integer.
    PUSH_INT(i64),
    /// Push a new string.
    PUSH_STR(String),
    /// Pop an object and push its attribute at this position.
    PUSHA(usize),
    /// Pop an object and push its attribute of this name.
    PUSHASTR(String),
    /// Open a code literal.
    FRMSTT,
    /// Close a code literal, declare its number of globals, and push the
    /// frame that wraps the enclosed instructions.
    FRMEND(usize),
    /// Number of attributes and number of methods: assemble a class from the
    /// descriptors on the stack and append it to the class table.
    CLASS(usize, usize),
    /// Pop an object and invoke its `__print__` method.
    PRINT,
}

/// The opcode of an instruction, without its operands.
#[allow(non_camel_case_types)]
#[derive(Clone, Copy, Debug, PartialEq, Eq, Structural)]
pub enum Op {
    PUSHL,
    PUSHG,
    POPL,
    POPG,
    ADD,
    CALL,
    RET,
    NEW,
    PUSH_INT,
    PUSH_STR,
    PUSHA,
    PUSHASTR,
    FRMSTT,
    FRMEND,
    CLASS,
    PRINT,
}

impl Clone for SCode {
    fn clone(&self) -> (r: Self)
        ensures
            r == *self,
    {
        match self {
            SCode::PUSHL(i) => SCode::PUSHL(*i),
            SCode::PUSHG(i) => SCode::PUSHG(*i),
            SCode::POPL(i) => SCode::POPL(*i),
            SCode::POPG(i) => SCode::POPG(*i),
            SCode::ADD => SCode::ADD,
            SCode::CALL(name, n) => SCode::CALL(name.clone(), *n),
            SCode::RET => SCode::RET,
            SCode::NEW(c) => SCode::NEW(*c),
            SCode::PUSH_INT(v) => SCode::PUSH_INT(*v),
            SCode::PUSH_STR(s) => SCode::PUSH_STR(s.clone()),
            SCode::PUSHA(i) => SCode::PUSHA(*i),
            SCode::PUSHASTR(name) => SCode::PUSHASTR(name.clone()),
            SCode::FRMSTT => SCode::FRMSTT,
            SCode::FRMEND(g) => SCode::FRMEND(*g),
            SCode::CLASS(a, m) => SCode::CLASS(*a, *m),
            SCode::PRINT => SCode::PRINT,
        }
    }
}

impl SCode {
    /// The opcode of this instruction.
    pub open spec fn spec_op(&self) -> Op {
        match self {
            SCode::PUSHL(_) => Op::PUSHL,
            SCode::PUSHG(_) => Op::PUSHG,
            SCode::POPL(_) => Op::POPL,
            SCode::POPG(_) => Op::POPG,
            SCode::ADD => Op::ADD,
            SCode::CALL(_, _) => Op::CALL,
            SCode::RET => Op::RET,
            SCode::NEW(_) => Op::NEW,
            SCode::PUSH_INT(_) => Op::PUSH_INT,
            SCode::PUSH_STR(_) => Op::PUSH_STR,
            SCode::PUSHA(_) => Op::PUSHA,
            SCode::PUSHASTR(_) => Op::PUSHASTR,
            SCode::FRMSTT => Op::FRMSTT,
            SCode::FRMEND(_) => Op::FRMEND,
            SCode::CLASS(_, _) => Op::CLASS,
            SCode::PRINT => Op::PRINT,
        }
    }

    /// The opcode of this instruction.
    #[verifier::when_used_as_spec(spec_op)]
    pub fn op(&self) -> (r: Op)
        ensures
            r == self.spec_op(),
    {
        match self {
            SCode::PUSHL(_) => Op::PUSHL,
            SCode::PUSHG(_) => Op::PUSHG,
            SCode::POPL(_) => Op::POPL,
            SCode::POPG(_) => Op::POPG,
            SCode::ADD => Op::ADD,
            SCode::CALL(_, _) => Op::CALL,
            SCode::RET => Op::RET,
            SCode::NEW(_) => Op::NEW,
            SCode::PUSH_INT(_) => Op::PUSH_INT,
            SCode::PUSH_STR(_) => Op::PUSH_STR,
            SCode::PUSHA(_) => Op::PUSHA,
            SCode::PUSHASTR(_) => Op::PUSHASTR,
            SCode::FRMSTT => Op::FRMSTT,
            SCode::FRMEND(_) => Op::FRMEND,
            SCode::CLASS(_, _) => Op::CLASS,
            SCode::PRINT => Op::PRINT,
        }
    }
}

/// What an instruction adds to the nesting depth of code literals.
pub open spec fn bracket(c: SCode) -> int {
    match c {
        SCode::FRMSTT => 1,
        SCode::FRMEND(_) => -1,
        _ => 0,
    }
}

/// The number of literals opened minus the number closed in `code[from..to]`.
pub open spec fn depth(code: Seq<SCode>, from: int, to: int) -> int
    decreases to - from,
{
    if to <= from {
        0
    } else {
        depth(code, from, to - 1) + bracket(code[to - 1])
    }
}

/// Every closing bracket of `code` follows an opening bracket that it
/// closes, and no literal stays open.
pub open spec fn balanced(code: Seq<SCode>) -> bool {
    &&& forall|k: int| 0 <= k <= code.len() ==> depth(code, 0, k) >= 0
    &&& depth(code, 0, code.len() as int) == 0
}

/// `code[end]` closes the literal that `code[start]` opens.
pub open spec fn closes(code: Seq<SCode>, start: int, end: int) -> bool {
    &&& 0 <= start < end < code.len()
    &&& code[start] == SCode::FRMSTT
    &&& depth(code, start, end + 1) == 0
    &&& forall|k: int| start < k <= end ==> depth(code, start, k) > 0
}

/// The depth of a range is bounded by its length.
pub proof fn lemma_depth_bounds(code: Seq<SCode>, from: int, to: int)
    requires
        from <= to,
    ensures
        from - to <= depth(code, from, to) <= to - from,
    decreases to - from,
{
    if from < to {
        lemma_depth_bounds(code, from, to - 1);
    }
}

/// Depth is additive over adjacent ranges.
pub proof fn lemma_depth_split(code: Seq<SCode>, from: int, mid: int, to: int)
    requires
        from <= mid <= to,
    ensures
        depth(code, from, to) == depth(code, from, mid) + depth(code, mid, to),
    decreases to - mid,
{
    if mid < to {
        lemma_depth_split(code, from, mid, to - 1);
    }
}

/// The depth of a range depends only on the instructions inside it.
pub proof fn lemma_depth_subrange(code: Seq<SCode>, lo: int, hi: int, from: int, to: int)
    requires
        0 <= lo <= hi <= code.len(),
        0 <= from <= to <= hi - lo,
    ensures
        depth(code.subrange(lo, hi), from, to) == depth(code, lo + from, lo + to),
    decreases to - from,
{
    if from < to {
        lemma_depth_subrange(code, lo, hi, from, to - 1);
    }
}

/// At most one instruction closes a given opening bracket.
pub proof fn lemma_closes_unique(code: Seq<SCode>, start: int, e1: int, e2: int)
    requires
        closes(code, start, e1),
        closes(code, start, e2),
    ensures
        e1 == e2,
{
    if e1 < e2 {
        assert(depth(code, start, e1 + 1) > 0);
    } else if e2 < e1 {
        assert(depth(code, start, e2 + 1) > 0);
    }
}

/// The instruction that closes a literal is a closing bracket.
pub proof fn lemma_closes_is_end(code: Seq<SCode>, start: int, end: int)
    requires
        closes(code, start, end),
    ensures
        code[end] is FRMEND,
{
    assert(depth(code, start, end) > 0);
    assert(depth(code, start, end + 1) == depth(code, start, end) + bracket(code[end]));
}

/// Copies `code[from..to]`.
pub fn copy_range(code: &Vec<SCode>, from: usize, to: usize) -> (r: Vec<SCode>)
    requires
        from <= to <= code.len(),
    ensures
        r@ == code@.subrange(from as int, to as int),
{
    let mut out: Vec<SCode> = Vec::new();
    let mut i: usize = from;
    while i < to
        invariant
            from <= i <= to <= code.len(),
            out@ == code@.subrange(from as int, i as int),
        decreases to - i,
    {
        out.push(code[i].clone());
        i += 1;
        assert(out@ =~= code@.subrange(from as int, i as int));
    }
    out
}

/// Finds the instruction that closes the literal opened at `start`.
///
/// Returns `None` where `code[start]` opens no literal, or where the literal
/// is never closed.
pub fn find_close(code: &Vec<SCode>, start: usize) -> (r: Option<usize>)
    ensures
        match r {
            Some(end) => closes(code@, start as int, end as int),
            None => forall|e: int| !closes(code@, start as int, e),
        },
{
    if start >= code.len() {
        return None;
    }
    match &code[start] {
        SCode::FRMSTT => {},
        _ => {
            return None;
        },
    }
    let mut open: usize = 1;
    let mut i: usize = start + 1;
    assert(depth(code@, start as int, start as int + 1) == 1) by {
        assert(depth(code@, start as int, start as int) == 0);
    }
    while i < code.len()
        invariant
            start < i <= code.len(),
            code@[start as int] == SCode::FRMSTT,
            open == depth(code@, start as int, i as int),
            forall|k: int| start < k <= i ==> depth(code@, start as int, k) > 0,
        decreases code.len() - i,
    {
        proof {
            lemma_depth_bounds(code@, start as int, i as int);
        }
        match &code[i] {
            SCode::FRMSTT => {
                open += 1;
            },
            SCode::FRMEND(_) => {
                open -= 1;
                if open == 0 {
                    return Some(i);
                }
            },
            _ => {},
        }
        i += 1;
    }
    assert forall|e: int| !closes(code@, start as int, e) by {
        if closes(code@, start as int, e) {
            assert(depth(code@, start as int, e + 1) > 0);
        }
    }
    None
}

/// The bracket that breaks the balance of `code`: a closing bracket where
/// one closes nothing, otherwise an opening bracket where one stays open.
pub open spec fn bracket_fault(code: Seq<SCode>) -> Option<Op> {
    if exists|k: int| 0 <= k <= code.len() && depth(code, 0, k) < 0 {
        Some(Op::FRMEND)
    } else if depth(code, 0, code.len() as int) > 0 {
        Some(Op::FRMSTT)
    } else {
        None
    }
}

/// Code is balanced exactly where no bracket breaks the balance.
pub proof fn lemma_bracket_fault(code: Seq<SCode>)
    ensures
        bracket_fault(code) is None <==> balanced(code),
{
}

/// Finds the bracket that breaks the balance of `code`.
pub fn find_bracket_fault(code: &Vec<SCode>) -> (r: Option<Op>)
    ensures
        r == bracket_fault(code@),
{
    let mut open: usize = 0;
    let mut i: usize = 0;
    while i < code.len()
        invariant
            i <= code.len(),
            open == depth(code@, 0, i as int),
            forall|k: int| 0 <= k <= i ==> depth(code@, 0, k) >= 0,
        decreases code.len() - i,
    {
        proof {
            lemma_depth_bounds(code@, 0, i as int);
        }
        match &code[i] {
            SCode::FRMSTT => {
                open += 1;
            },
            SCode::FRMEND(_) => {
                if open == 0 {
                    assert(depth(code@, 0, i as int + 1) < 0);
                    return Some(Op::FRMEND);
                }
                open -= 1;
            },
            _ => {},
        }
        i += 1;
    }
    if open == 0 {
        None
    } else {
        Some(Op::FRMSTT)
    }
}

/// Tells whether the brackets of `code` nest and balance.
pub fn is_balanced(code: &Vec<SCode>) -> (r: bool)
    ensures
        r == balanced(code@),
{
    proof {
        lemma_bracket_fault(code@);
    }
    find_bracket_fault(code).is_none()
}

/// In balanced code every opening bracket is closed.
pub proof fn lemma_balanced_has_close(code: Seq<SCode>, start: int)
    requires
        balanced(code),
        0 <= start < code.len(),
        code[start] == SCode::FRMSTT,
    ensures
        exists|end: int| closes(code, start, end),
{
    lemma_depth_split(code, 0, start, code.len() as int);
    assert(depth(code, start, start + 1) == 1) by {
        assert(depth(code, start, start) == 0);
    }
    let end = first_zero(code, start, start + 1);
    lemma_first_zero(code, start, start + 1);
    assert(closes(code, start, end - 1));
}

/// The first `k >= from` at which the depth counted from `start` is zero, or
/// the length of the code where there is none.
pub open spec fn first_zero(code: Seq<SCode>, start: int, from: int) -> int
    decreases code.len() - from,
{
    if from >= code.len() || depth(code, start, from) == 0 {
        from
    } else {
        first_zero(code, start, from + 1)
    }
}

proof fn lemma_first_zero(code: Seq<SCode>, start: int, from: int)
    requires
        0 <= start < from <= code.len(),
        depth(code, start, code.len() as int) <= 0,
        depth(code, start, from) > 0,
        forall|k: int| start < k <= from ==> depth(code, start, k) > 0,
    ensures
        from < first_zero(code, start, from) <= code.len(),
        depth(code, start, first_zero(code, start, from)) == 0,
        forall|k: int| start < k < first_zero(code, start, from) ==> depth(code, start, k) > 0,
    decreases code.len() - from,
{
    if from + 1 >= code.len() || depth(code, start, from + 1) == 0 {
        if from + 1 > code.len() {
        } else if depth(code, start, from + 1) != 0 {
            // from + 1 == len and the depth there is positive: excluded.
            assert(depth(code, start, from + 1) == depth(code, start, from) + bracket(
                code[from],
            ));
        }
        assert(first_zero(code, start, from) == first_zero(code, start, from + 1));
    } else {
        assert(depth(code, start, from + 1) == depth(code, start, from) + bracket(code[from]));
        lemma_first_zero(code, start, from + 1);
    }
}

/// The instructions between matching brackets of balanced code are balanced.
pub proof fn lemma_literal_balanced(code: Seq<SCode>, start: int, end: int)
    requires
        closes(code, start, end),
    ensures
        balanced(code.subrange(start + 1, end)),
{
    let inner = code.subrange(start + 1, end);
    assert(depth(code, start, start + 1) == 1) by {
        assert(depth(code, start, start) == 0);
    }
    lemma_closes_is_end(code, start, end);
    assert(depth(code, start, end) == 1) by {
        assert(depth(code, start, end + 1) == depth(code, start, end) + bracket(code[end]));
    }
    assert forall|k: int| 0 <= k <= inner.len() implies depth(inner, 0, k) >= 0 by {
        lemma_depth_subrange(code, start + 1, end, 0, k);
        lemma_depth_split(code, start, start + 1, start + 1 + k);
    }
    lemma_depth_subrange(code, start + 1, end, 0, inner.len() as int);
    lemma_depth_split(code, start, start + 1, end);
}

} // verus!
