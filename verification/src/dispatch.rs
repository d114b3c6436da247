//! The four capabilities of every value: `invoke`, `get`, `set` and `tyof`,
//! dispatched on the variant of the object.

use vstd::prelude::*;
use crate::classty::Env;
use crate::error::{ErrorView, VmError};
use crate::heap::Heap;
use crate::instance::{
    attribute_not_found, attribute_not_found_at, instance_at, instance_get, instance_invoke,
    instance_set, method_not_found, no_attr, no_attr_at, no_method,
};
use crate::object::{
    ClassView, Handle, Invocation, InvocationView, Object, ObjectView, TypeTag, Value,
};
use crate::primty::{integer_call, integer_invoke, string_call, string_invoke};

verus! {

/// What invoking `name` on an object asks for.
pub open spec fn object_invoke(
    obj: ObjectView,
    heap: Map<Handle, ObjectView>,
    classes: Seq<ClassView>,
    name: Seq<char>,
    args: Seq<Value>,
) -> Result<InvocationView, ErrorView> {
    match obj {
        ObjectView::Integer(a) => integer_invoke(a, heap, name, args),
        ObjectView::Str(s) => string_invoke(s, heap, name, args),
        ObjectView::Instance(inst) => instance_invoke(inst, classes, name, args),
        _ => Err(no_method(obj.tag(), name)),
    }
}

/// The attribute `name` of an object. Only instances have attributes.
pub open spec fn object_get(obj: ObjectView, classes: Seq<ClassView>, name: Seq<char>) -> Result<
    Value,
    ErrorView,
> {
    match obj {
        ObjectView::Instance(inst) => instance_get(inst, classes, name),
        _ => Err(no_attr(obj.tag(), name)),
    }
}

/// The attribute at position `i` of an object.
pub open spec fn object_at(obj: ObjectView, i: usize) -> Result<Value, ErrorView> {
    match obj {
        ObjectView::Instance(inst) => instance_at(inst, i),
        _ => Err(no_attr_at(obj.tag(), i)),
    }
}

/// The object after its attribute `name` was replaced by `v`.
pub open spec fn object_set(
    obj: ObjectView,
    classes: Seq<ClassView>,
    name: Seq<char>,
    v: Value,
) -> Result<ObjectView, ErrorView> {
    match obj {
        ObjectView::Instance(inst) => match instance_set(inst, classes, name, v) {
            Ok(changed) => Ok(ObjectView::Instance(changed)),
            Err(e) => Err(e),
        },
        _ => Err(no_attr(obj.tag(), name)),
    }
}

/// The object that a value refers to. The unset sentinel refers to none,
/// and neither does a reference whose object the arena no longer holds.
pub open spec fn target(heap: Map<Handle, ObjectView>, v: Value) -> Option<ObjectView> {
    match v {
        Value::Ref(h) => if heap.contains_key(h) {
            Some(heap[h])
        } else {
            None
        },
        Value::Unset => None,
    }
}

/// The type of a value.
pub open spec fn tag_of(heap: Map<Handle, ObjectView>, v: Value) -> TypeTag {
    match target(heap, v) {
        Some(obj) => obj.tag(),
        None => TypeTag::Unset,
    }
}

/// What invoking `name` on a value asks for.
pub open spec fn invoke_spec(
    heap: Map<Handle, ObjectView>,
    classes: Seq<ClassView>,
    recv: Value,
    name: Seq<char>,
    args: Seq<Value>,
) -> Result<InvocationView, ErrorView> {
    match target(heap, recv) {
        Some(obj) => object_invoke(obj, heap, classes, name, args),
        None => Err(no_method(TypeTag::Unset, name)),
    }
}

/// The attribute `name` of a value.
pub open spec fn get_spec(
    heap: Map<Handle, ObjectView>,
    classes: Seq<ClassView>,
    v: Value,
    name: Seq<char>,
) -> Result<Value, ErrorView> {
    match target(heap, v) {
        Some(obj) => object_get(obj, classes, name),
        None => Err(no_attr(TypeTag::Unset, name)),
    }
}

/// The attribute at position `i` of a value.
pub open spec fn at_spec(heap: Map<Handle, ObjectView>, v: Value, i: usize) -> Result<
    Value,
    ErrorView,
> {
    match target(heap, v) {
        Some(obj) => object_at(obj, i),
        None => Err(no_attr_at(TypeTag::Unset, i)),
    }
}

/// The arena after the attribute `name` of the object behind `v` was
/// replaced by `new_value`.
pub open spec fn set_spec(
    heap: Map<Handle, ObjectView>,
    classes: Seq<ClassView>,
    v: Value,
    name: Seq<char>,
    new_value: Value,
) -> Result<Map<Handle, ObjectView>, ErrorView> {
    match target(heap, v) {
        Some(obj) => match object_set(obj, classes, name, new_value) {
            Ok(changed) => Ok(heap.insert(v->Ref_0, changed)),
            Err(e) => Err(e),
        },
        None => Err(no_attr(TypeTag::Unset, name)),
    }
}

impl Object {
    /// Invokes the method `name` with `args`.
    pub fn invoke(&self, name: &str, args: Vec<Value>, env: &Env, heap: &Heap) -> (r: Result<
        Invocation,
        VmError,
    >)
        ensures
            match r {
                Ok(inv) => object_invoke(self@, heap@, env@, name@, args@) == Ok::<
                    InvocationView,
                    ErrorView,
                >(inv@),
                Err(e) => object_invoke(self@, heap@, env@, name@, args@) == Err::<
                    InvocationView,
                    ErrorView,
                >(e@),
            },
    {
        match self {
            Object::Integer(a) => integer_call(*a, name, &args, heap),
            Object::Str(s) => string_call(s, name, &args, heap),
            Object::Instance(inst) => inst.invoke(name, args, env),
            _ => Err(method_not_found(self.tag(), name)),
        }
    }

    /// The attribute `name`.
    pub fn get(&self, name: &str, env: &Env) -> (r: Result<Value, VmError>)
        ensures
            match r {
                Ok(v) => object_get(self@, env@, name@) == Ok::<Value, ErrorView>(v),
                Err(e) => object_get(self@, env@, name@) == Err::<Value, ErrorView>(e@),
            },
    {
        match self {
            Object::Instance(inst) => inst.get(name, env),
            _ => Err(attribute_not_found(self.tag(), name)),
        }
    }

    /// The attribute at position `i`.
    pub fn get_at(&self, i: usize) -> (r: Result<Value, VmError>)
        ensures
            match r {
                Ok(v) => object_at(self@, i) == Ok::<Value, ErrorView>(v),
                Err(e) => object_at(self@, i) == Err::<Value, ErrorView>(e@),
            },
    {
        match self {
            Object::Instance(inst) => inst.get_at(i),
            _ => Err(attribute_not_found_at(self.tag(), i)),
        }
    }

    /// Replaces the attribute `name`. On an error the object is unchanged.
    pub fn set(&mut self, name: &str, new_obj: &Value, env: &Env) -> (r: Result<(), VmError>)
        ensures
            match r {
                Ok(_) => object_set(old(self)@, env@, name@, *new_obj) == Ok::<
                    ObjectView,
                    ErrorView,
                >(final(self)@),
                Err(e) => object_set(old(self)@, env@, name@, *new_obj) == Err::<
                    ObjectView,
                    ErrorView,
                >(e@) && final(self)@ == old(self)@,
            },
    {
        match self {
            Object::Instance(inst) => inst.set(name, new_obj, env),
            _ => Err(attribute_not_found(self.tag(), name)),
        }
    }
}

} // verus!
