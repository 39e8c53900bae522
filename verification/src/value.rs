use vstd::prelude::*;
use crate::object::Object;

verus! {

/// A constant of the language as the compiler produces it. A number keeps
/// the text of its literal; turning that text into a floating-point value
/// is left to the program that runs the code.
#[derive(Debug)]
pub enum Value {
    Nil,
    Boolean(bool),
    Number(String),
    Object(Box<Object>),
}

/// What a [`Value`] holds, with strings as character sequences.
pub enum ValueView {
    Nil,
    Boolean(bool),
    Number(Seq<char>),
    Object(Seq<char>),
}

impl View for Value {
    type V = ValueView;

    open spec fn view(&self) -> ValueView {
        match self {
            Value::Nil => ValueView::Nil,
            Value::Boolean(b) => ValueView::Boolean(*b),
            Value::Number(s) => ValueView::Number(s@),
            Value::Object(o) => ValueView::Object((**o)@),
        }
    }
}

/// The text a value prints as, except for a number, whose text comes from
/// floating-point formatting and is left to the caller (`None`).
pub open spec fn value_text(v: ValueView) -> Option<Seq<char>> {
    match v {
        ValueView::Nil => Some("nil"@),
        ValueView::Boolean(b) => if b {
            Some("true"@)
        } else {
            Some("false"@)
        },
        ValueView::Number(_) => None,
        ValueView::Object(t) => Some(t),
    }
}

impl Value {
    /// The text the value prints as: `nil`, `true`, `false`, or the
    /// characters of a string. A number gives `None`: its text comes from
    /// floating-point formatting, which the caller does.
    pub fn to_string(&self) -> (r: Option<String>)
        ensures
            r matches Some(t) ==> value_text(self@) == Some(t@),
            r is None ==> value_text(self@) is None,
    {
        match self {
            Value::Nil => {
                let mut t = String::new();
                t.append("nil");
                Some(t)
            },
            Value::Boolean(b) => {
                let mut t = String::new();
                if *b {
                    t.append("true");
                } else {
                    t.append("false");
                }
                Some(t)
            },
            Value::Number(_) => None,
            Value::Object(o) => Some(o.to_string()),
        }
    }
}

impl Default for Value {
    fn default() -> (r: Value)
        ensures
            r@ == ValueView::Nil,
    {
        Value::Nil
    }
}

impl Clone for Value {
    fn clone(&self) -> (r: Self)
        ensures
            r@ == self@,
    {
        match self {
            Value::Nil => Value::Nil,
            Value::Boolean(b) => Value::Boolean(*b),
            Value::Number(s) => Value::Number(s.clone()),
            Value::Object(o) => Value::Object(Box::new((**o).clone())),
        }
    }
}

} // verus!
