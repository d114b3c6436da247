//! Assembling a class from the descriptors that precede its definition on
//! the operand stack.
//!
//! A class with `a` attributes and `m` methods is described by the top
//! `a + 2 * m` stack entries: first the `a` attribute names, each a string,
//! then for each method its name, a string, followed by its body, a frame.

use vstd::prelude::*;
use crate::classty::{distinct, find_repeat, first_repeat, lemma_first_repeat};
use crate::dispatch::target;
use crate::error::{ErrorView, VmError};
use crate::heap::Heap;
use crate::object::{Class, ClassView, FrameObj, Handle, Method, MethodView, Object, ObjectView, Value};

verus! {

/// The text of the string that `v` refers to.
pub open spec fn name_of(heap: Map<Handle, ObjectView>, v: Value) -> Option<Seq<char>> {
    match target(heap, v) {
        Some(ObjectView::Str(s)) => Some(s),
        _ => None,
    }
}

/// The method that a name descriptor and a body descriptor make.
pub open spec fn method_of(heap: Map<Handle, ObjectView>, name: Value, body: Value) -> Option<
    MethodView,
> {
    match (target(heap, name), target(heap, body)) {
        (Some(ObjectView::Str(s)), Some(ObjectView::Frame(f))) => Some(
            MethodView { name: s, body: f },
        ),
        _ => None,
    }
}

/// The attribute name that descriptor `i` gives.
pub open spec fn attr_desc(heap: Map<Handle, ObjectView>, desc: Seq<Value>, i: int) -> Option<
    Seq<char>,
> {
    name_of(heap, desc[i])
}

/// The method that the descriptor pair `j` after `a` attribute names gives.
pub open spec fn method_desc(heap: Map<Handle, ObjectView>, desc: Seq<Value>, a: int, j: int) -> Option<
    MethodView,
> {
    method_of(heap, desc[a + 2 * j], desc[a + 2 * j + 1])
}

/// The stack ends in the descriptors of a class with `a` attributes and `m`
/// methods.
pub open spec fn described(heap: Map<Handle, ObjectView>, stack: Seq<Value>, a: usize, m: usize) -> bool {
    let need = a + 2 * m;
    let desc = stack.subrange(stack.len() - need, stack.len() as int);
    &&& need <= stack.len()
    &&& forall|i: int| 0 <= i < a ==> (#[trigger] attr_desc(heap, desc, i)) is Some
    &&& forall|j: int| 0 <= j < m ==> (#[trigger] method_desc(heap, desc, a as int, j)) is Some
}

/// The class that the descriptors at the end of the stack describe.
pub open spec fn described_class(
    heap: Map<Handle, ObjectView>,
    stack: Seq<Value>,
    a: usize,
    m: usize,
) -> ClassView {
    let need = a + 2 * m;
    let desc = stack.subrange(stack.len() - need, stack.len() as int);
    ClassView {
        attrs: Seq::new(a as nat, |i: int| attr_desc(heap, desc, i)->0),
        methods: Seq::new(m as nat, |j: int| method_desc(heap, desc, a as int, j)->0),
    }
}

/// The class that a definition with `a` attributes and `m` methods
/// assembles from the stack, or why it cannot: the descriptors are not
/// there, or an attribute name or a method name occurs twice. The name
/// reported is the first that repeats an earlier one, attributes before
/// methods.
pub open spec fn assemble_spec(
    heap: Map<Handle, ObjectView>,
    stack: Seq<Value>,
    a: usize,
    m: usize,
) -> Result<ClassView, ErrorView> {
    if !described(heap, stack, a, m) {
        Err(ErrorView::DescriptorUnderflow { attrs: a, methods: m })
    } else {
        let class = described_class(heap, stack, a, m);
        match first_repeat(class.attrs) {
            Some(i) => Err(ErrorView::DuplicateName { name: class.attrs[i] }),
            None => match first_repeat(class.method_names()) {
                Some(j) => Err(ErrorView::DuplicateName { name: class.methods[j].name }),
                None => Ok(class),
            },
        }
    }
}

/// A class definition fails only for want of descriptors or for a name
/// that occurs twice.
pub proof fn lemma_assemble_errors(
    heap: Map<Handle, ObjectView>,
    stack: Seq<Value>,
    a: usize,
    m: usize,
)
    ensures
        match assemble_spec(heap, stack, a, m) {
            Ok(_) => true,
            Err(e) => e is DescriptorUnderflow || e is DuplicateName,
        },
{
}

/// In a class that a definition assembles no attribute name and no method
/// name occurs twice, so that a lookup by name has one match at most.
pub proof fn lemma_assembled_distinct(
    heap: Map<Handle, ObjectView>,
    stack: Seq<Value>,
    a: usize,
    m: usize,
)
    requires
        assemble_spec(heap, stack, a, m) is Ok,
    ensures
        distinct(assemble_spec(heap, stack, a, m)->Ok_0.attrs),
        distinct(assemble_spec(heap, stack, a, m)->Ok_0.method_names()),
{
    let class = described_class(heap, stack, a, m);
    lemma_first_repeat(class.attrs, 0);
    lemma_first_repeat(class.method_names(), 0);
}

/// Reads the text of the string that `v` refers to.
fn read_name(heap: &Heap, v: Value) -> (r: Option<String>)
    ensures
        match r {
            Some(s) => name_of(heap@, v) == Some(s@),
            None => name_of(heap@, v) is None,
        },
{
    match v {
        Value::Ref(h) => match heap.get(h) {
            Some(Object::Str(s)) => Some(s.clone()),
            _ => None,
        },
        Value::Unset => None,
    }
}

/// Reads the frame that `v` refers to.
fn read_frame(heap: &Heap, v: Value) -> (r: Option<FrameObj>)
    ensures
        match r {
            Some(f) => target(heap@, v) == Some(ObjectView::Frame(f@)),
            None => !(target(heap@, v) matches Some(ObjectView::Frame(_))),
        },
{
    match v {
        Value::Ref(h) => match heap.get(h) {
            Some(Object::Frame(f)) => Some(f.clone()),
            _ => None,
        },
        Value::Unset => None,
    }
}

/// Assembles the class that the descriptors at the end of the stack
/// describe. Neither the stack nor the arena is changed.
pub fn assemble(heap: &Heap, stack: &Vec<Value>, a: usize, m: usize) -> (r: Result<Class, VmError>)
    ensures
        match r {
            Ok(class) => assemble_spec(heap@, stack@, a, m) == Ok::<ClassView, ErrorView>(class@),
            Err(e) => assemble_spec(heap@, stack@, a, m) == Err::<ClassView, ErrorView>(e@),
        },
{
    let n = stack.len();
    if a > n || m > (n - a) / 2 {
        return Err(VmError::DescriptorUnderflow { attrs: a, methods: m });
    }
    let base = n - a - 2 * m;
    let ghost desc = stack@.subrange(base as int, n as int);
    let mut attrs: Vec<String> = Vec::new();
    let mut i: usize = 0;
    while i < a
        invariant
            i <= a,
            base + a + 2 * m == n,
            n == stack@.len(),
            desc == stack@.subrange(base as int, n as int),
            attrs@.len() == i,
            forall|k: int|
                #![trigger attr_desc(heap@, desc, k)]
                #![trigger attrs@[k]]
                0 <= k < i ==> attr_desc(heap@, desc, k) == Some(attrs@[k]@),
        decreases a - i,
    {
        assert(desc[i as int] == stack@[base + i]);
        match read_name(heap, stack[base + i]) {
            Some(s) => {
                attrs.push(s);
            },
            None => {
                assert(attr_desc(heap@, desc, i as int) is None);
                return Err(VmError::DescriptorUnderflow { attrs: a, methods: m });
            },
        }
        i += 1;
    }
    let mut names: Vec<String> = Vec::new();
    let mut methods: Vec<Method> = Vec::new();
    let mut j: usize = 0;
    while j < m
        invariant
            j <= m,
            base + a + 2 * m == n,
            n == stack@.len(),
            desc == stack@.subrange(base as int, n as int),
            names@.len() == j,
            methods@.len() == j,
            forall|k: int|
                #![trigger method_desc(heap@, desc, a as int, k)]
                #![trigger methods@[k]]
                0 <= k < j ==> method_desc(heap@, desc, a as int, k) == Some(methods@[k]@),
            forall|k: int| 0 <= k < j ==> (#[trigger] names@[k])@ == methods@[k]@.name,
        decreases m - j,
    {
        let at = base + a + 2 * j;
        assert(desc[a + 2 * j] == stack@[at as int]);
        assert(desc[a + 2 * j + 1] == stack@[at + 1]);
        let name = read_name(heap, stack[at]);
        let body = read_frame(heap, stack[at + 1]);
        match (name, body) {
            (Some(s), Some(f)) => {
                names.push(s.clone());
                methods.push(Method { name: s, body: f });
            },
            _ => {
                assert(method_desc(heap@, desc, a as int, j as int) is None);
                return Err(VmError::DescriptorUnderflow { attrs: a, methods: m });
            },
        }
        j += 1;
    }
    let class = Class { attrs, methods };
    proof {
        assert(described(heap@, stack@, a, m));
        assert(class@.attrs =~= described_class(heap@, stack@, a, m).attrs);
        assert(class@.methods =~= described_class(heap@, stack@, a, m).methods);
        assert(class@.method_names() =~= Seq::new(names@.len(), |k: int| names@[k]@));
        assert(class@.attrs == Seq::new(class.attrs@.len(), |k: int| class.attrs@[k]@));
    }
    match find_repeat(&class.attrs) {
        Some(i) => {
            return Err(VmError::DuplicateName { name: class.attrs[i].clone() });
        },
        None => {},
    }
    match find_repeat(&names) {
        Some(j) => {
            return Err(VmError::DuplicateName { name: names[j].clone() });
        },
        None => {},
    }
    Ok(class)
}

} // verus!
