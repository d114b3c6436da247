//! Name lookup in class descriptors, and the class table.

use vstd::prelude::*;
use crate::error::{ErrorView, VmError};
use crate::object::{Class, ClassView, InstanceObj, InstanceView, MethodView, Value};
use crate::stackcode::{Op, balanced, bracket_fault, find_bracket_fault, lemma_bracket_fault};

verus! {

/// The first index at or after `from` at which `names` holds `name`.
pub open spec fn position_from(names: Seq<Seq<char>>, name: Seq<char>, from: int) -> Option<int>
    decreases names.len() - from,
{
    if from >= names.len() {
        None
    } else if names[from] == name {
        Some(from)
    } else {
        position_from(names, name, from + 1)
    }
}

/// The first index at which `names` holds `name`.
pub open spec fn position(names: Seq<Seq<char>>, name: Seq<char>) -> Option<int> {
    position_from(names, name, 0)
}

/// No name occurs twice.
pub open spec fn distinct(names: Seq<Seq<char>>) -> bool {
    forall|i: int, j: int| 0 <= i < j < names.len() ==> names[i] != names[j]
}

/// The first index whose name already occurs before it.
pub open spec fn repeat_from(names: Seq<Seq<char>>, from: int) -> Option<int>
    decreases names.len() - from,
{
    if from >= names.len() {
        None
    } else if position(names, names[from]) != Some(from) {
        Some(from)
    } else {
        repeat_from(names, from + 1)
    }
}

/// The first index whose name already occurs before it.
pub open spec fn first_repeat(names: Seq<Seq<char>>) -> Option<int> {
    repeat_from(names, 0)
}

/// What a lookup finds is the first match, and it finds nothing only where
/// nothing matches.
pub proof fn lemma_position(names: Seq<Seq<char>>, name: Seq<char>, from: int)
    requires
        0 <= from,
    ensures
        match position_from(names, name, from) {
            Some(i) => {
                &&& from <= i < names.len()
                &&& names[i] == name
                &&& forall|j: int| from <= j < i ==> names[j] != name
            },
            None => forall|j: int| from <= j < names.len() ==> names[j] != name,
        },
    decreases names.len() - from,
{
    if from < names.len() && names[from] != name {
        lemma_position(names, name, from + 1);
    }
}

/// A table has a repeated name exactly where its names are not distinct.
pub proof fn lemma_first_repeat(names: Seq<Seq<char>>, from: int)
    requires
        0 <= from,
        forall|i: int, j: int| 0 <= i < j < from && j < names.len() ==> names[i] != names[j],
    ensures
        match repeat_from(names, from) {
            Some(i) => from <= i < names.len() && !distinct(names),
            None => distinct(names),
        },
    decreases names.len() - from,
{
    if from < names.len() {
        lemma_position(names, names[from], 0);
        if position(names, names[from]) != Some(from) {
            let i = position(names, names[from])->0;
            assert(names[i] == names[from] && i < from);
        } else {
            lemma_first_repeat(names, from + 1);
        }
    }
}

/// Where no name occurs twice, a lookup finds the one index that holds the
/// name.
pub proof fn lemma_position_unique(names: Seq<Seq<char>>, i: int)
    requires
        distinct(names),
        0 <= i < names.len(),
    ensures
        position(names, names[i]) == Some(i),
{
    lemma_position(names, names[i], 0);
}

/// Finds the first index at which `names` holds `name`.
pub fn find_name(names: &Vec<String>, name: &str) -> (r: Option<usize>)
    ensures
        match r {
            Some(i) => i < names@.len() && position(
                Seq::new(names@.len(), |k: int| names@[k]@),
                name@,
            ) == Some(i as int),
            None => position(Seq::new(names@.len(), |k: int| names@[k]@), name@) is None,
        },
{
    let key = name.to_owned();
    let ghost table = Seq::new(names@.len(), |k: int| names@[k]@);
    let mut i: usize = 0;
    while i < names.len()
        invariant
            i <= names.len(),
            key@ == name@,
            table == Seq::new(names@.len(), |k: int| names@[k]@),
            position(table, name@) == position_from(table, name@, i as int),
        decreases names.len() - i,
    {
        if names[i] == key {
            return Some(i);
        }
        i += 1;
    }
    None
}

/// Finds the first name that already occurs before it.
pub fn find_repeat(names: &Vec<String>) -> (r: Option<usize>)
    ensures
        match r {
            Some(i) => i < names@.len() && first_repeat(
                Seq::new(names@.len(), |k: int| names@[k]@),
            ) == Some(i as int),
            None => first_repeat(Seq::new(names@.len(), |k: int| names@[k]@)) is None,
        },
{
    let ghost table = Seq::new(names@.len(), |k: int| names@[k]@);
    let mut i: usize = 0;
    while i < names.len()
        invariant
            i <= names.len(),
            table == Seq::new(names@.len(), |k: int| names@[k]@),
            first_repeat(table) == repeat_from(table, i as int),
        decreases names.len() - i,
    {
        let found = find_name(names, names[i].as_str());
        assert(table[i as int] == names@[i as int]@);
        match found {
            Some(k) => {
                if k != i {
                    return Some(i);
                }
            },
            None => {
                return Some(i);
            },
        }
        i += 1;
    }
    None
}

/// The bracket that breaks the balance of the first unbalanced body among
/// the methods from index `from` on.
pub open spec fn body_fault_from(methods: Seq<MethodView>, from: int) -> Option<Op>
    decreases methods.len() - from,
{
    if from >= methods.len() {
        None
    } else {
        match bracket_fault(methods[from].body.code) {
            Some(op) => Some(op),
            None => body_fault_from(methods, from + 1),
        }
    }
}

/// What is wrong with a class: the first attribute name that repeats an
/// earlier one, else the first method name that does, else the first
/// method body whose brackets do not balance.
pub open spec fn class_fault(c: ClassView) -> Option<ErrorView> {
    match first_repeat(c.attrs) {
        Some(i) => Some(ErrorView::DuplicateName { name: c.attrs[i] }),
        None => match first_repeat(c.method_names()) {
            Some(j) => Some(ErrorView::DuplicateName { name: c.methods[j].name }),
            None => match body_fault_from(c.methods, 0) {
                Some(op) => Some(ErrorView::IllegalInstruction { op }),
                None => None,
            },
        },
    }
}

/// What is wrong with the first faulty class from index `from` on.
pub open spec fn table_fault_from(classes: Seq<ClassView>, from: int) -> Option<ErrorView>
    decreases classes.len() - from,
{
    if from >= classes.len() {
        None
    } else {
        match class_fault(classes[from]) {
            Some(e) => Some(e),
            None => table_fault_from(classes, from + 1),
        }
    }
}

/// What is wrong with the first faulty class of a table.
pub open spec fn table_fault(classes: Seq<ClassView>) -> Option<ErrorView> {
    table_fault_from(classes, 0)
}

/// No attribute name and no method name of the class occurs twice, and the
/// brackets of every method body balance.
pub open spec fn class_ok(c: ClassView) -> bool {
    &&& distinct(c.attrs)
    &&& distinct(c.method_names())
    &&& forall|k: int| 0 <= k < c.methods.len() ==> balanced((#[trigger] c.methods[k]).body.code)
}

proof fn lemma_body_fault(methods: Seq<MethodView>, from: int)
    requires
        0 <= from,
        body_fault_from(methods, from) is None,
    ensures
        forall|k: int| from <= k < methods.len() ==> balanced((#[trigger] methods[k]).body.code),
    decreases methods.len() - from,
{
    if from < methods.len() {
        lemma_bracket_fault(methods[from].body.code);
        lemma_body_fault(methods, from + 1);
    }
}

/// A class without a fault is in order.
pub proof fn lemma_class_fault(c: ClassView)
    requires
        class_fault(c) is None,
    ensures
        class_ok(c),
{
    lemma_first_repeat(c.attrs, 0);
    lemma_first_repeat(c.method_names(), 0);
    lemma_body_fault(c.methods, 0);
}

/// In a table without a fault every class is in order.
pub proof fn lemma_table_fault(classes: Seq<ClassView>, from: int)
    requires
        0 <= from,
        table_fault_from(classes, from) is None,
    ensures
        forall|c: int| from <= c < classes.len() ==> class_ok(#[trigger] classes[c]),
    decreases classes.len() - from,
{
    if from < classes.len() {
        lemma_class_fault(classes[from]);
        lemma_table_fault(classes, from + 1);
    }
}

impl Class {
    /// Finds the position of the attribute `name`.
    pub fn attr_index(&self, name: &str) -> (r: Option<usize>)
        ensures
            match r {
                Some(i) => i < self.attrs@.len() && position(self@.attrs, name@) == Some(i as int),
                None => position(self@.attrs, name@) is None,
            },
    {
        find_name(&self.attrs, name)
    }

    /// Finds the position of the method `name`.
    pub fn method_index(&self, name: &str) -> (r: Option<usize>)
        ensures
            match r {
                Some(i) => i < self.methods@.len() && position(self@.method_names(), name@) == Some(
                    i as int,
                ),
                None => position(self@.method_names(), name@) is None,
            },
    {
        let key = name.to_owned();
        let ghost table = self@.method_names();
        let mut i: usize = 0;
        while i < self.methods.len()
            invariant
                i <= self.methods.len(),
                key@ == name@,
                table == self@.method_names(),
                position(table, name@) == position_from(table, name@, i as int),
            decreases self.methods.len() - i,
        {
            if self.methods[i].name == key {
                return Some(i);
            }
            i += 1;
        }
        None
    }
}

impl Class {
    /// The names of the methods, in order.
    pub fn method_names(&self) -> (r: Vec<String>)
        ensures
            Seq::new(r@.len(), |k: int| r@[k]@) == self@.method_names(),
    {
        let mut out: Vec<String> = Vec::new();
        let mut i: usize = 0;
        while i < self.methods.len()
            invariant
                i <= self.methods.len(),
                out@.len() == i,
                forall|k: int| 0 <= k < i ==> (#[trigger] out@[k])@ == self.methods@[k].name@,
            decreases self.methods.len() - i,
        {
            out.push(self.methods[i].name.clone());
            i += 1;
        }
        assert(Seq::new(out@.len(), |k: int| out@[k]@) =~= self@.method_names());
        out
    }

    /// Finds what is wrong with the class.
    pub fn fault(&self) -> (r: Option<VmError>)
        ensures
            match r {
                Some(e) => class_fault(self@) == Some(e@),
                None => class_fault(self@) is None,
            },
    {
        assert(self@.attrs == Seq::new(self.attrs@.len(), |k: int| self.attrs@[k]@));
        match find_repeat(&self.attrs) {
            Some(i) => {
                return Some(VmError::DuplicateName { name: self.attrs[i].clone() });
            },
            None => {},
        }
        let names = self.method_names();
        let ghost table = Seq::new(names@.len(), |k: int| names@[k]@);
        match find_repeat(&names) {
            Some(j) => {
                assert(table[j as int] == names@[j as int]@);
                assert(self@.method_names()[j as int] == self@.methods[j as int].name);
                return Some(VmError::DuplicateName { name: names[j].clone() });
            },
            None => {},
        }
        let mut k: usize = 0;
        while k < self.methods.len()
            invariant
                k <= self.methods.len(),
                first_repeat(self@.attrs) is None,
                first_repeat(self@.method_names()) is None,
                body_fault_from(self@.methods, 0) == body_fault_from(self@.methods, k as int),
            decreases self.methods.len() - k,
        {
            assert(self@.methods[k as int].body.code == self.methods@[k as int].body.code@);
            match find_bracket_fault(&self.methods[k].body.code) {
                Some(op) => {
                    return Some(VmError::IllegalInstruction { op });
                },
                None => {},
            }
            k += 1;
        }
        None
    }
}

/// The instance of class `cls` in which no attribute was assigned yet.
pub open spec fn blank(classes: Seq<ClassView>, cls: usize) -> InstanceView {
    InstanceView {
        cls,
        attrs: Seq::new(classes[cls as int].attrs.len(), |i: int| Value::Unset),
    }
}

/// The class table. The identifier of a class is its position.
#[derive(Debug, PartialEq, Eq)]
pub struct Env {
    pub classes: Vec<Class>,
}

impl View for Env {
    type V = Seq<ClassView>;

    open spec fn view(&self) -> Seq<ClassView> {
        Seq::new(self.classes@.len(), |i: int| self.classes@[i]@)
    }
}

impl Env {
    /// An empty class table.
    pub fn new() -> (r: Env)
        ensures
            r@ == Seq::<ClassView>::empty(),
    {
        let r = Env { classes: Vec::new() };
        assert(r@ =~= Seq::<ClassView>::empty());
        r
    }

    /// Finds what is wrong with the first faulty class of the table.
    pub fn fault(&self) -> (r: Option<VmError>)
        ensures
            match r {
                Some(e) => table_fault(self@) == Some(e@),
                None => table_fault(self@) is None,
            },
    {
        let mut c: usize = 0;
        while c < self.classes.len()
            invariant
                c <= self.classes.len(),
                table_fault(self@) == table_fault_from(self@, c as int),
            decreases self.classes.len() - c,
        {
            match self.classes[c].fault() {
                Some(e) => {
                    return Some(e);
                },
                None => {},
            }
            c += 1;
        }
        None
    }

    /// The number of classes.
    pub fn len(&self) -> (r: usize)
        ensures
            r == self@.len(),
    {
        self.classes.len()
    }

    /// Appends a class and returns its identifier, which is the length of
    /// the table before.
    pub fn define(&mut self, class: Class) -> (id: usize)
        ensures
            id == old(self)@.len(),
            final(self)@ == old(self)@.push(class@),
    {
        let id = self.classes.len();
        self.classes.push(class);
        assert(self@ =~= old(self)@.push(class@));
        id
    }

    /// A new instance of class `cls` with every attribute slot unset.
    pub fn instantiate(&self, cls: usize) -> (r: Result<InstanceObj, VmError>)
        ensures
            match r {
                Ok(inst) => cls < self@.len() && inst@ == blank(self@, cls),
                Err(e) => cls >= self@.len() && e@ == (ErrorView::InvalidClassId { class: cls }),
            },
    {
        if cls >= self.classes.len() {
            return Err(VmError::InvalidClassId { class: cls });
        }
        let n = self.classes[cls].attrs.len();
        let mut attrs: Vec<Value> = Vec::new();
        while attrs.len() < n
            invariant
                attrs@.len() <= n,
                forall|k: int| 0 <= k < attrs@.len() ==> attrs@[k] == Value::Unset,
            decreases n - attrs@.len(),
        {
            attrs.push(Value::Unset);
        }
        let inst = InstanceObj { cls, attrs };
        assert(inst@.attrs =~= blank(self@, cls).attrs);
        Ok(inst)
    }
}

} // verus!
