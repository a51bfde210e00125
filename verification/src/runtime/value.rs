//! Script values.

use vstd::prelude::*;

verus! {

/// A value on the script stack or in an argument list.
#[derive(Debug)]
pub enum Value {
    Int(i64),
    Str(String),
    List(Vec<Value>),
    /// A path of element numbers that names a place in the engine's state.
    Element(Vec<i32>),
    /// A value that was given under the number of a named argument.
    NamedArg { id: i32, value: Box<Value> },
}

impl Value {
    /// The number that a value stands for; a named argument stands for its
    /// value.
    pub open spec fn number(self) -> Option<i64>
        decreases self,
    {
        match self {
            Value::Int(v) => Some(v),
            Value::NamedArg { id: _, value } => (*value).number(),
            _ => None,
        }
    }

    /// The text that a value stands for.
    pub open spec fn text(self) -> Option<Seq<char>>
        decreases self,
    {
        match self {
            Value::Str(s) => Some(s@),
            Value::NamedArg { id: _, value } => (*value).text(),
            _ => None,
        }
    }

    pub fn as_i64(&self) -> (r: Option<i64>)
        ensures
            r == self.number(),
        decreases self,
    {
        match self {
            Value::Int(v) => Some(*v),
            Value::NamedArg { id: _, value } => value.as_i64(),
            _ => None,
        }
    }

    pub fn as_str(&self) -> (r: Option<&str>)
        ensures
            match r {
                Some(s) => self.text() == Some(s@),
                None => self.text() is None,
            },
        decreases self,
    {
        match self {
            Value::Str(s) => Some(s.as_str()),
            Value::NamedArg { id: _, value } => value.as_str(),
            _ => None,
        }
    }
}

/// The number at place `i` of an argument list.
pub open spec fn int_at(args: Seq<Value>, i: int) -> Option<i64> {
    if 0 <= i < args.len() {
        args[i].number()
    } else {
        None
    }
}

/// The text at place `i` of an argument list.
pub open spec fn text_at(args: Seq<Value>, i: int) -> Option<Seq<char>> {
    if 0 <= i < args.len() {
        args[i].text()
    } else {
        None
    }
}

/// The number at place `i`, or `default`.
pub open spec fn int_or(args: Seq<Value>, i: int, default: int) -> int {
    match int_at(args, i) {
        Some(v) => v as int,
        None => default,
    }
}

/// The text at place `i`, or the empty text.
pub open spec fn text_or_empty(args: Seq<Value>, i: int) -> Seq<char> {
    match text_at(args, i) {
        Some(s) => s,
        None => Seq::empty(),
    }
}

pub fn arg_i64(args: &[Value], i: usize) -> (r: Option<i64>)
    ensures
        r == int_at(args@, i as int),
{
    if i < args.len() {
        args[i].as_i64()
    } else {
        None
    }
}

pub fn arg_i64_or(args: &[Value], i: usize, default: i64) -> (r: i64)
    ensures
        r == int_or(args@, i as int, default as int),
{
    match arg_i64(args, i) {
        Some(v) => v,
        None => default,
    }
}

pub fn arg_text(args: &[Value], i: usize) -> (r: Option<&str>)
    ensures
        match r {
            Some(s) => text_at(args@, i as int) == Some(s@),
            None => text_at(args@, i as int) is None,
        },
{
    if i < args.len() {
        args[i].as_str()
    } else {
        None
    }
}

/// A copy of the text at place `i`, empty where there is none.
pub fn arg_string(args: &[Value], i: usize) -> (r: String)
    ensures
        r@ == text_or_empty(args@, i as int),
{
    match arg_text(args, i) {
        Some(s) => s.to_owned(),
        None => String::new(),
    }
}

/// Whether `new` is `old` with the number `v` on top.
pub open spec fn pushed_int(old_stack: Seq<Value>, new_stack: Seq<Value>, v: int) -> bool {
    &&& new_stack.len() == old_stack.len() + 1
    &&& new_stack.drop_last() == old_stack
    &&& new_stack.last() matches Value::Int(n) && n == v
}

/// Whether `new` is `old` with a text on top.
pub open spec fn pushed_text(old_stack: Seq<Value>, new_stack: Seq<Value>, s: Seq<char>) -> bool {
    &&& new_stack.len() == old_stack.len() + 1
    &&& new_stack.drop_last() == old_stack
    &&& new_stack.last() matches Value::Str(t) && t@ == s
}

pub fn push_int(stack: &mut Vec<Value>, v: i64)
    ensures
        pushed_int(old(stack)@, final(stack)@, v as int),
{
    stack.push(Value::Int(v));
    proof {
        assert(stack@.drop_last() =~= old(stack)@);
    }
}

pub fn push_text(stack: &mut Vec<Value>, s: String)
    ensures
        pushed_text(old(stack)@, final(stack)@, s@),
{
    stack.push(Value::Str(s));
    proof {
        assert(stack@.drop_last() =~= old(stack)@);
    }
}

} // verus!
