//! The object model: references, objects and their mathematical views.

use vstd::prelude::*;
use crate::stackcode::{SCode, copy_range};

verus! {

/// A reference to an object of the arena: the index of its slot and the
/// generation of the slot at the time the object was stored.
#[derive(Clone, Copy, Debug, PartialEq, Eq, Structural)]
pub struct Handle {
    pub index: usize,
    pub generation: u64,
}

/// What a stack entry, a local or global slot, or an attribute holds.
#[derive(Clone, Copy, Debug, PartialEq, Eq, Structural)]
pub enum Value {
    /// The sentinel of a slot that was never assigned.
    Unset,
    /// A shared reference to an object.
    Ref(Handle),
}

/// The type of a value, as used in diagnostics.
#[derive(Clone, Copy, Debug, PartialEq, Eq, Structural)]
pub enum TypeTag {
    Unset,
    Integer,
    Str,
    Instance,
    Class,
    Frame,
}

impl TypeTag {
    /// The tag as text.
    pub open spec fn text(self) -> Seq<char> {
        match self {
            TypeTag::Unset => "<unset>"@,
            TypeTag::Integer => "<int>"@,
            TypeTag::Str => "<str>"@,
            TypeTag::Instance => "<instance>"@,
            TypeTag::Class => "<class>"@,
            TypeTag::Frame => "<frame>"@,
        }
    }

    /// The tag as text.
    pub fn name(&self) -> (r: String)
        ensures
            r@ == self.text(),
    {
        match self {
            TypeTag::Unset => "<unset>".to_owned(),
            TypeTag::Integer => "<int>".to_owned(),
            TypeTag::Str => "<str>".to_owned(),
            TypeTag::Instance => "<instance>".to_owned(),
            TypeTag::Class => "<class>".to_owned(),
            TypeTag::Frame => "<frame>".to_owned(),
        }
    }
}

/// A reified block of code that declares its number of globals.
#[derive(Debug, PartialEq, Eq)]
pub struct FrameObj {
    pub code: Vec<SCode>,
    pub global_count: usize,
}

/// The view of a frame.
pub struct FrameView {
    pub code: Seq<SCode>,
    pub global_count: usize,
}

impl View for FrameObj {
    type V = FrameView;

    open spec fn view(&self) -> FrameView {
        FrameView { code: self.code@, global_count: self.global_count }
    }
}

impl Clone for FrameObj {
    fn clone(&self) -> (r: Self)
        ensures
            r@ == self@,
    {
        let code = copy_range(&self.code, 0, self.code.len());
        assert(code@ =~= self.code@);
        FrameObj { code, global_count: self.global_count }
    }
}

/// A named method of a class.
#[derive(Debug, PartialEq, Eq)]
pub struct Method {
    pub name: String,
    pub body: FrameObj,
}

/// The view of a method.
pub struct MethodView {
    pub name: Seq<char>,
    pub body: FrameView,
}

impl View for Method {
    type V = MethodView;

    open spec fn view(&self) -> MethodView {
        MethodView { name: self.name@, body: self.body@ }
    }
}

impl Clone for Method {
    fn clone(&self) -> (r: Self)
        ensures
            r@ == self@,
    {
        Method { name: self.name.clone(), body: self.body.clone() }
    }
}

/// A class descriptor: the names of its attributes, in order, and its
/// methods.
#[derive(Debug, PartialEq, Eq)]
pub struct Class {
    pub attrs: Vec<String>,
    pub methods: Vec<Method>,
}

/// The view of a class descriptor.
pub struct ClassView {
    pub attrs: Seq<Seq<char>>,
    pub methods: Seq<MethodView>,
}

impl ClassView {
    /// The names of the methods, in order.
    pub open spec fn method_names(self) -> Seq<Seq<char>> {
        Seq::new(self.methods.len(), |i: int| self.methods[i].name)
    }
}

impl View for Class {
    type V = ClassView;

    open spec fn view(&self) -> ClassView {
        ClassView {
            attrs: Seq::new(self.attrs@.len(), |i: int| self.attrs@[i]@),
            methods: Seq::new(self.methods@.len(), |i: int| self.methods@[i]@),
        }
    }
}

impl Clone for Class {
    fn clone(&self) -> (r: Self)
        ensures
            r@ == self@,
    {
        let mut attrs: Vec<String> = Vec::new();
        let mut i: usize = 0;
        while i < self.attrs.len()
            invariant
                i <= self.attrs.len(),
                attrs@.len() == i,
                forall|k: int| 0 <= k < i ==> attrs@[k]@ == self.attrs@[k]@,
            decreases self.attrs.len() - i,
        {
            attrs.push(self.attrs[i].clone());
            i += 1;
        }
        let mut methods: Vec<Method> = Vec::new();
        let mut j: usize = 0;
        while j < self.methods.len()
            invariant
                j <= self.methods.len(),
                methods@.len() == j,
                forall|k: int| 0 <= k < j ==> methods@[k]@ == self.methods@[k]@,
            decreases self.methods.len() - j,
        {
            methods.push(self.methods[j].clone());
            j += 1;
        }
        let r = Class { attrs, methods };
        assert(r@.attrs =~= self@.attrs);
        assert(r@.methods =~= self@.methods);
        r
    }
}

/// An instance of a class: the identifier of the class and one slot for
/// each attribute that the class declares, in the same order.
#[derive(Debug, PartialEq, Eq)]
pub struct InstanceObj {
    pub cls: usize,
    pub attrs: Vec<Value>,
}

/// The view of an instance.
pub struct InstanceView {
    pub cls: usize,
    pub attrs: Seq<Value>,
}

impl View for InstanceObj {
    type V = InstanceView;

    open spec fn view(&self) -> InstanceView {
        InstanceView { cls: self.cls, attrs: self.attrs@ }
    }
}

/// A value of the machine.
#[derive(Debug, PartialEq, Eq)]
pub enum Object {
    Integer(i64),
    Str(String),
    Instance(InstanceObj),
    Class(Class),
    Frame(FrameObj),
}

/// The view of an object.
pub enum ObjectView {
    Integer(i64),
    Str(Seq<char>),
    Instance(InstanceView),
    Class(ClassView),
    Frame(FrameView),
}

impl ObjectView {
    /// The type of the object.
    pub open spec fn tag(self) -> TypeTag {
        match self {
            ObjectView::Integer(_) => TypeTag::Integer,
            ObjectView::Str(_) => TypeTag::Str,
            ObjectView::Instance(_) => TypeTag::Instance,
            ObjectView::Class(_) => TypeTag::Class,
            ObjectView::Frame(_) => TypeTag::Frame,
        }
    }

    /// The references that the object holds.
    pub open spec fn children(self) -> Seq<Value> {
        match self {
            ObjectView::Instance(inst) => inst.attrs,
            _ => Seq::empty(),
        }
    }
}

impl View for Object {
    type V = ObjectView;

    open spec fn view(&self) -> ObjectView {
        match self {
            Object::Integer(v) => ObjectView::Integer(*v),
            Object::Str(s) => ObjectView::Str(s@),
            Object::Instance(inst) => ObjectView::Instance(inst@),
            Object::Class(class) => ObjectView::Class(class@),
            Object::Frame(frame) => ObjectView::Frame(frame@),
        }
    }
}

impl Object {
    /// The type of the object.
    pub fn tag(&self) -> (r: TypeTag)
        ensures
            r == self@.tag(),
    {
        match self {
            Object::Integer(_) => TypeTag::Integer,
            Object::Str(_) => TypeTag::Str,
            Object::Instance(_) => TypeTag::Instance,
            Object::Class(_) => TypeTag::Class,
            Object::Frame(_) => TypeTag::Frame,
        }
    }

    /// The type tag of the object as text.
    pub fn tyof(&self) -> (r: String)
        ensures
            r@ == self@.tag().text(),
    {
        self.tag().name()
    }
}

} // verus!

verus! {

/// What the invocation of a method asks of the engine.
#[derive(Debug, PartialEq, Eq)]
pub enum Invocation {
    /// A built-in method made this object: it is to be stored, and the
    /// reference to it is the result.
    Produce(Object),
    /// A built-in method wrote this text: it goes to the output, and the
    /// result is unset.
    Emit(String),
    /// The method is code of a class: it runs as a nested execution with
    /// these arguments.
    Enter { class: usize, method: usize, args: Vec<Value> },
}

/// The view of an invocation.
pub enum InvocationView {
    Produce(ObjectView),
    Emit(Seq<char>),
    Enter { class: usize, method: usize, args: Seq<Value> },
}

impl View for Invocation {
    type V = InvocationView;

    open spec fn view(&self) -> InvocationView {
        match self {
            Invocation::Produce(obj) => InvocationView::Produce(obj@),
            Invocation::Emit(text) => InvocationView::Emit(text@),
            Invocation::Enter { class, method, args } => InvocationView::Enter {
                class: *class,
                method: *method,
                args: args@,
            },
        }
    }
}

} // verus!
