//! The built-in methods of integers and strings.

use vstd::prelude::*;
use crate::error::{ErrorView, VmError};
use crate::heap::Heap;
use crate::instance::{method_not_found, no_method};
use crate::object::{Handle, Invocation, InvocationView, Object, ObjectView, TypeTag, Value};

verus! {

/// The decimal digit of a number below ten.
pub open spec fn digit_char(d: int) -> char {
    if d == 0 {
        '0'
    } else if d == 1 {
        '1'
    } else if d == 2 {
        '2'
    } else if d == 3 {
        '3'
    } else if d == 4 {
        '4'
    } else if d == 5 {
        '5'
    } else if d == 6 {
        '6'
    } else if d == 7 {
        '7'
    } else if d == 8 {
        '8'
    } else {
        '9'
    }
}

/// The decimal digits of a natural number, most significant first, without
/// leading zeros.
pub open spec fn decimal(n: nat) -> Seq<char>
    decreases n,
{
    if n < 10 {
        seq![digit_char(n as int)]
    } else {
        decimal(n / 10).push(digit_char((n % 10) as int))
    }
}

/// The decimal text of an integer, with a minus sign where it is negative.
pub open spec fn int_text(v: int) -> Seq<char> {
    if v < 0 {
        seq!['-'] + decimal((-v) as nat)
    } else {
        decimal(v as nat)
    }
}

/// The integer that a list of exactly one argument refers to.
pub open spec fn integer_arg(heap: Map<Handle, ObjectView>, args: Seq<Value>) -> Option<i64> {
    if args.len() == 1 && args[0] is Ref && heap.contains_key(args[0]->Ref_0) && heap[args[0]->Ref_0] is Integer {
        Some(heap[args[0]->Ref_0]->Integer_0)
    } else {
        None
    }
}

/// The string that a list of exactly one argument refers to.
pub open spec fn string_arg(heap: Map<Handle, ObjectView>, args: Seq<Value>) -> Option<Seq<char>> {
    if args.len() == 1 && args[0] is Ref && heap.contains_key(args[0]->Ref_0) && heap[args[0]->Ref_0] is Str {
        Some(heap[args[0]->Ref_0]->Str_0)
    } else {
        None
    }
}

/// The methods of an integer: `add` with one integer makes their sum, which
/// wraps around at the bounds of 64 bits; `__print__` without arguments
/// writes the decimal text.
pub open spec fn integer_invoke(
    a: i64,
    heap: Map<Handle, ObjectView>,
    name: Seq<char>,
    args: Seq<Value>,
) -> Result<InvocationView, ErrorView> {
    if name == "add"@ && integer_arg(heap, args) is Some {
        Ok(InvocationView::Produce(ObjectView::Integer(a.wrapping_add(integer_arg(heap, args)->0))))
    } else if name == "__print__"@ && args.len() == 0 {
        Ok(InvocationView::Emit(int_text(a as int)))
    } else {
        Err(no_method(TypeTag::Integer, name))
    }
}

/// The methods of a string: `add` with one string makes the two joined;
/// `__print__` without arguments writes the text.
pub open spec fn string_invoke(
    s: Seq<char>,
    heap: Map<Handle, ObjectView>,
    name: Seq<char>,
    args: Seq<Value>,
) -> Result<InvocationView, ErrorView> {
    if name == "add"@ && string_arg(heap, args) is Some {
        Ok(InvocationView::Produce(ObjectView::Str(s + string_arg(heap, args)->0)))
    } else if name == "__print__"@ && args.len() == 0 {
        Ok(InvocationView::Emit(s))
    } else {
        Err(no_method(TypeTag::Str, name))
    }
}

/// Tells whether two texts are the same.
pub fn same_text(a: &str, b: &str) -> (r: bool)
    ensures
        r == (a@ == b@),
{
    let x = a.to_owned();
    let y = b.to_owned();
    x == y
}

fn digit_text(d: u64) -> (r: &'static str)
    requires
        d < 10,
    ensures
        r@ == seq![digit_char(d as int)],
{
    proof {
        reveal_strlit("0");
        reveal_strlit("1");
        reveal_strlit("2");
        reveal_strlit("3");
        reveal_strlit("4");
        reveal_strlit("5");
        reveal_strlit("6");
        reveal_strlit("7");
        reveal_strlit("8");
        reveal_strlit("9");
    }
    let r = if d == 0 {
        "0"
    } else if d == 1 {
        "1"
    } else if d == 2 {
        "2"
    } else if d == 3 {
        "3"
    } else if d == 4 {
        "4"
    } else if d == 5 {
        "5"
    } else if d == 6 {
        "6"
    } else if d == 7 {
        "7"
    } else if d == 8 {
        "8"
    } else {
        "9"
    };
    assert(r@ =~= seq![digit_char(d as int)]);
    r
}

/// The decimal digits of `n`.
pub fn decimal_text(n: u64) -> (r: String)
    ensures
        r@ == decimal(n as nat),
    decreases n,
{
    if n < 10 {
        digit_text(n).to_owned()
    } else {
        let mut s = decimal_text(n / 10);
        s.append(digit_text(n % 10));
        assert(s@ =~= decimal(n as nat));
        s
    }
}

/// The decimal text of `v`.
pub fn integer_text(v: i64) -> (r: String)
    ensures
        r@ == int_text(v as int),
{
    if v < 0 {
        let m: u64 = if v == i64::MIN {
            9223372036854775808u64
        } else {
            (-v) as u64
        };
        proof {
            reveal_strlit("-");
        }
        let mut s = "-".to_owned();
        let digits = decimal_text(m);
        s.append(digits.as_str());
        assert(s@ =~= int_text(v as int));
        s
    } else {
        decimal_text(v as u64)
    }
}

/// Reads the integer that a list of exactly one argument refers to.
fn read_integer_arg(args: &Vec<Value>, heap: &Heap) -> (r: Option<i64>)
    ensures
        r == integer_arg(heap@, args@),
{
    if args.len() != 1 {
        return None;
    }
    match args[0] {
        Value::Ref(h) => match heap.get(h) {
            Some(Object::Integer(b)) => Some(*b),
            _ => None,
        },
        Value::Unset => None,
    }
}

/// Invokes a built-in method of the integer `a`.
pub fn integer_call(a: i64, name: &str, args: &Vec<Value>, heap: &Heap) -> (r: Result<
    Invocation,
    VmError,
>)
    ensures
        match r {
            Ok(inv) => integer_invoke(a, heap@, name@, args@) == Ok::<InvocationView, ErrorView>(
                inv@,
            ),
            Err(e) => integer_invoke(a, heap@, name@, args@) == Err::<InvocationView, ErrorView>(
                e@,
            ),
        },
{
    if same_text(name, "add") {
        if let Some(b) = read_integer_arg(args, heap) {
            return Ok(Invocation::Produce(Object::Integer(a.wrapping_add(b))));
        }
    }
    if same_text(name, "__print__") && args.len() == 0 {
        return Ok(Invocation::Emit(integer_text(a)));
    }
    Err(method_not_found(TypeTag::Integer, name))
}

/// Invokes a built-in method of the string `s`.
pub fn string_call(s: &String, name: &str, args: &Vec<Value>, heap: &Heap) -> (r: Result<
    Invocation,
    VmError,
>)
    ensures
        match r {
            Ok(inv) => string_invoke(s@, heap@, name@, args@) == Ok::<InvocationView, ErrorView>(
                inv@,
            ),
            Err(e) => string_invoke(s@, heap@, name@, args@) == Err::<InvocationView, ErrorView>(
                e@,
            ),
        },
{
    if same_text(name, "add") && args.len() == 1 {
        if let Value::Ref(h) = args[0] {
            if let Some(Object::Str(t)) = heap.get(h) {
                let mut joined = s.clone();
                joined.append(t.as_str());
                return Ok(Invocation::Produce(Object::Str(joined)));
            }
        }
    }
    if same_text(name, "__print__") && args.len() == 0 {
        return Ok(Invocation::Emit(s.clone()));
    }
    Err(method_not_found(TypeTag::Str, name))
}

} // verus!
