//! Instances: method lookup and attribute access through the owning class.

use vstd::prelude::*;
use crate::classty::{Env, position};
use crate::error::{AttrKey, AttrKeyView, ErrorView, VmError};
use crate::object::{
    ClassView, InstanceObj, InstanceView, Invocation, InvocationView, TypeTag, Value,
};

verus! {

/// The error of a method that the receiver does not have.
pub open spec fn no_method(ty: TypeTag, name: Seq<char>) -> ErrorView {
    ErrorView::MethodNotFound { ty, method: name }
}

/// The error of an attribute name that the receiver does not have.
pub open spec fn no_attr(ty: TypeTag, name: Seq<char>) -> ErrorView {
    ErrorView::AttributeNotFound { ty, attr: AttrKeyView::Name(name) }
}

/// The error of an attribute position that the receiver does not have.
pub open spec fn no_attr_at(ty: TypeTag, index: usize) -> ErrorView {
    ErrorView::AttributeNotFound { ty, attr: AttrKeyView::Index(index) }
}

/// Makes the error of a method that the receiver does not have.
pub fn method_not_found(ty: TypeTag, name: &str) -> (e: VmError)
    ensures
        e@ == no_method(ty, name@),
{
    VmError::MethodNotFound { ty, method: name.to_owned() }
}

/// Makes the error of an attribute name that the receiver does not have.
pub fn attribute_not_found(ty: TypeTag, name: &str) -> (e: VmError)
    ensures
        e@ == no_attr(ty, name@),
{
    VmError::AttributeNotFound { ty, attr: AttrKey::Name(name.to_owned()) }
}

/// Makes the error of an attribute position that the receiver does not have.
pub fn attribute_not_found_at(ty: TypeTag, index: usize) -> (e: VmError)
    ensures
        e@ == no_attr_at(ty, index),
{
    VmError::AttributeNotFound { ty, attr: AttrKey::Index(index) }
}

/// The slot of the attribute `name` in an instance: the first position of
/// the name in the class, where the instance has a slot there.
pub open spec fn attr_slot(inst: InstanceView, classes: Seq<ClassView>, name: Seq<char>) -> Result<
    int,
    ErrorView,
> {
    if inst.cls >= classes.len() {
        Err(ErrorView::InvalidClassId { class: inst.cls })
    } else {
        match position(classes[inst.cls as int].attrs, name) {
            Some(i) => if i < inst.attrs.len() {
                Ok(i)
            } else {
                Err(no_attr(TypeTag::Instance, name))
            },
            None => Err(no_attr(TypeTag::Instance, name)),
        }
    }
}

/// What invoking `name` on an instance asks for: the nested execution of
/// the first method of that name in its class.
pub open spec fn instance_invoke(
    inst: InstanceView,
    classes: Seq<ClassView>,
    name: Seq<char>,
    args: Seq<Value>,
) -> Result<InvocationView, ErrorView> {
    if inst.cls >= classes.len() {
        Err(ErrorView::InvalidClassId { class: inst.cls })
    } else {
        match position(classes[inst.cls as int].method_names(), name) {
            Some(m) => Ok(InvocationView::Enter { class: inst.cls, method: m as usize, args }),
            None => Err(no_method(TypeTag::Instance, name)),
        }
    }
}

/// The attribute `name` of an instance.
pub open spec fn instance_get(inst: InstanceView, classes: Seq<ClassView>, name: Seq<char>) -> Result<
    Value,
    ErrorView,
> {
    match attr_slot(inst, classes, name) {
        Ok(i) => Ok(inst.attrs[i]),
        Err(e) => Err(e),
    }
}

/// The instance after its attribute `name` was replaced by `v`.
pub open spec fn instance_set(
    inst: InstanceView,
    classes: Seq<ClassView>,
    name: Seq<char>,
    v: Value,
) -> Result<InstanceView, ErrorView> {
    match attr_slot(inst, classes, name) {
        Ok(i) => Ok(InstanceView { cls: inst.cls, attrs: inst.attrs.update(i, v) }),
        Err(e) => Err(e),
    }
}

/// The attribute at position `i` of an instance.
pub open spec fn instance_at(inst: InstanceView, i: usize) -> Result<Value, ErrorView> {
    if i < inst.attrs.len() {
        Ok(inst.attrs[i as int])
    } else {
        Err(no_attr_at(TypeTag::Instance, i))
    }
}

impl InstanceObj {
    /// Finds the slot of the attribute `name`.
    pub fn slot_of(&self, name: &str, env: &Env) -> (r: Result<usize, VmError>)
        ensures
            match r {
                Ok(i) => attr_slot(self@, env@, name@) == Ok::<int, ErrorView>(i as int),
                Err(e) => attr_slot(self@, env@, name@) == Err::<int, ErrorView>(e@),
            },
    {
        if self.cls >= env.classes.len() {
            return Err(VmError::InvalidClassId { class: self.cls });
        }
        match env.classes[self.cls].attr_index(name) {
            Some(i) => {
                if i < self.attrs.len() {
                    Ok(i)
                } else {
                    Err(attribute_not_found(TypeTag::Instance, name))
                }
            },
            None => Err(attribute_not_found(TypeTag::Instance, name)),
        }
    }

    /// Looks up the method `name` in the class of the instance.
    ///
    /// Where the class has it, the result asks for its nested execution
    /// with `args`; otherwise the method is not found.
    pub fn invoke(&self, name: &str, args: Vec<Value>, env: &Env) -> (r: Result<
        Invocation,
        VmError,
    >)
        ensures
            match r {
                Ok(inv) => instance_invoke(self@, env@, name@, args@) == Ok::<
                    InvocationView,
                    ErrorView,
                >(inv@),
                Err(e) => instance_invoke(self@, env@, name@, args@) == Err::<
                    InvocationView,
                    ErrorView,
                >(e@),
            },
    {
        if self.cls >= env.classes.len() {
            return Err(VmError::InvalidClassId { class: self.cls });
        }
        match env.classes[self.cls].method_index(name) {
            Some(m) => Ok(Invocation::Enter { class: self.cls, method: m, args }),
            None => Err(method_not_found(TypeTag::Instance, name)),
        }
    }

    /// The attribute `name`.
    pub fn get(&self, name: &str, env: &Env) -> (r: Result<Value, VmError>)
        ensures
            match r {
                Ok(v) => instance_get(self@, env@, name@) == Ok::<Value, ErrorView>(v),
                Err(e) => instance_get(self@, env@, name@) == Err::<Value, ErrorView>(e@),
            },
    {
        match self.slot_of(name, env) {
            Ok(i) => Ok(self.attrs[i]),
            Err(e) => Err(e),
        }
    }

    /// Replaces the attribute `name`. On an error the instance is unchanged.
    pub fn set(&mut self, name: &str, new_obj: &Value, env: &Env) -> (r: Result<(), VmError>)
        ensures
            match r {
                Ok(_) => instance_set(old(self)@, env@, name@, *new_obj) == Ok::<
                    InstanceView,
                    ErrorView,
                >(final(self)@),
                Err(e) => instance_set(old(self)@, env@, name@, *new_obj) == Err::<
                    InstanceView,
                    ErrorView,
                >(e@) && final(self)@ == old(self)@,
            },
    {
        match self.slot_of(name, env) {
            Ok(i) => {
                self.attrs[i] = *new_obj;
                Ok(())
            },
            Err(e) => Err(e),
        }
    }

    /// The attribute at position `i`.
    pub fn get_at(&self, i: usize) -> (r: Result<Value, VmError>)
        ensures
            match r {
                Ok(v) => instance_at(self@, i) == Ok::<Value, ErrorView>(v),
                Err(e) => instance_at(self@, i) == Err::<Value, ErrorView>(e@),
            },
    {
        if i < self.attrs.len() {
            Ok(self.attrs[i])
        } else {
            Err(attribute_not_found_at(TypeTag::Instance, i))
        }
    }

    /// The type tag of instances.
    pub fn tyof(&self) -> (r: String)
        ensures
            r@ == TypeTag::Instance.text(),
    {
        TypeTag::Instance.name()
    }
}

} // verus!
