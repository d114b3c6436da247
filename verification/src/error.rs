//! The errors that end an execution.

use vstd::prelude::*;
use crate::object::TypeTag;
use crate::stackcode::Op;

verus! {

/// How an attribute was asked for.
#[derive(Debug, PartialEq, Eq)]
pub enum AttrKey {
    Name(String),
    Index(usize),
}

/// The view of an attribute key.
pub enum AttrKeyView {
    Name(Seq<char>),
    Index(usize),
}

impl View for AttrKey {
    type V = AttrKeyView;

    open spec fn view(&self) -> AttrKeyView {
        match self {
            AttrKey::Name(name) => AttrKeyView::Name(name@),
            AttrKey::Index(index) => AttrKeyView::Index(*index),
        }
    }
}

/// A fatal condition, with the operation that failed and its operand.
#[derive(Debug, PartialEq, Eq)]
pub enum VmError {
    /// The instruction needs more stack entries than the `found` ones that
    /// the stack holds.
    StackUnderflow { op: Op, found: usize },
    /// A local or global slot index is not below the capacity.
    IndexOutOfRange { op: Op, index: usize },
    /// The value has no attribute under this key.
    AttributeNotFound { ty: TypeTag, attr: AttrKey },
    /// The value has no method of this name that takes the arguments given.
    MethodNotFound { ty: TypeTag, method: String },
    /// The class identifier is not below the length of the class table.
    InvalidClassId { class: usize },
    /// A bracket without its partner.
    IllegalInstruction { op: Op },
    /// The stack does not end in the descriptors that a class definition
    /// with these numbers of attributes and methods consumes.
    DescriptorUnderflow { attrs: usize, methods: usize },
    /// A class declares this attribute or method name twice.
    DuplicateName { name: String },
}

/// The view of an error.
pub enum ErrorView {
    StackUnderflow { op: Op, found: usize },
    IndexOutOfRange { op: Op, index: usize },
    AttributeNotFound { ty: TypeTag, attr: AttrKeyView },
    MethodNotFound { ty: TypeTag, method: Seq<char> },
    InvalidClassId { class: usize },
    IllegalInstruction { op: Op },
    DescriptorUnderflow { attrs: usize, methods: usize },
    DuplicateName { name: Seq<char> },
}

impl View for VmError {
    type V = ErrorView;

    open spec fn view(&self) -> ErrorView {
        match self {
            VmError::StackUnderflow { op, found } => ErrorView::StackUnderflow {
                op: *op,
                found: *found,
            },
            VmError::IndexOutOfRange { op, index } => ErrorView::IndexOutOfRange {
                op: *op,
                index: *index,
            },
            VmError::AttributeNotFound { ty, attr } => ErrorView::AttributeNotFound {
                ty: *ty,
                attr: attr@,
            },
            VmError::MethodNotFound { ty, method } => ErrorView::MethodNotFound {
                ty: *ty,
                method: method@,
            },
            VmError::InvalidClassId { class } => ErrorView::InvalidClassId { class: *class },
            VmError::IllegalInstruction { op } => ErrorView::IllegalInstruction { op: *op },
            VmError::DescriptorUnderflow { attrs, methods } => ErrorView::DescriptorUnderflow {
                attrs: *attrs,
                methods: *methods,
            },
            VmError::DuplicateName { name } => ErrorView::DuplicateName { name: name@ },
        }
    }
}

impl Clone for AttrKey {
    fn clone(&self) -> (r: Self)
        ensures
            r == *self,
    {
        match self {
            AttrKey::Name(name) => AttrKey::Name(name.clone()),
            AttrKey::Index(index) => AttrKey::Index(*index),
        }
    }
}

impl Clone for VmError {
    fn clone(&self) -> (r: Self)
        ensures
            r == *self,
    {
        match self {
            VmError::StackUnderflow { op, found } => VmError::StackUnderflow {
                op: *op,
                found: *found,
            },
            VmError::IndexOutOfRange { op, index } => VmError::IndexOutOfRange {
                op: *op,
                index: *index,
            },
            VmError::AttributeNotFound { ty, attr } => VmError::AttributeNotFound {
                ty: *ty,
                attr: attr.clone(),
            },
            VmError::MethodNotFound { ty, method } => VmError::MethodNotFound {
                ty: *ty,
                method: method.clone(),
            },
            VmError::InvalidClassId { class } => VmError::InvalidClassId { class: *class },
            VmError::IllegalInstruction { op } => VmError::IllegalInstruction { op: *op },
            VmError::DescriptorUnderflow { attrs, methods } => VmError::DescriptorUnderflow {
                attrs: *attrs,
                methods: *methods,
            },
            VmError::DuplicateName { name } => VmError::DuplicateName { name: name.clone() },
        }
    }
}

} // verus!
