use std::rc::Rc;
use vstd::prelude::*;
use crate::chunk::Chunk;

verus! {

/// A heap object of the language; for now the only kind is a string.
#[derive(Debug, Eq, Hash)]
pub enum Object {
    String(Rc<str>),
}

impl View for Object {
    type V = Seq<char>;

    /// The characters of the string.
    open spec fn view(&self) -> Seq<char> {
        match self {
            Object::String(s) => (**s)@,
        }
    }
}

/// Calls `Rc::clone`, which std documents as making another pointer to the
/// same allocation: the new pointer sees the same string.
#[verifier::external_body]
pub(crate) fn rc_str_clone(s: &Rc<str>) -> (r: Rc<str>)
    ensures
        (*r)@ == (**s)@,
{
    Rc::clone(s)
}

/// Calls `Rc::<str>::from(&str)`, which std documents as copying the string
/// into a new allocation.
#[verifier::external_body]
pub(crate) fn rc_str_from(s: &str) -> (r: Rc<str>)
    ensures
        (*r)@ == s@,
{
    Rc::from(s)
}

/// Calls `<Rc<str> as AsRef<str>>::as_ref`, which borrows the string the
/// pointer points to.
#[verifier::external_body]
pub(crate) fn rc_str_as_str(s: &Rc<str>) -> (r: &str)
    ensures
        r@ == (**s)@,
{
    s.as_ref()
}

/// Calls `<str as PartialEq>::eq`, which std documents as comparing the two
/// strings byte for byte: equal bytes are equal characters.
#[verifier::external_body]
pub(crate) fn str_eq(a: &str, b: &str) -> (r: bool)
    ensures
        r == (a@ == b@),
{
    a == b
}

impl Object {
    /// The string held by the object.
    pub fn to_string(&self) -> (r: String)
        ensures
            r@ == self@,
    {
        match self {
            Object::String(string) => rc_str_as_str(string).to_owned(),
        }
    }
}

impl Clone for Object {
    fn clone(&self) -> (r: Self)
        ensures
            r@ == self@,
    {
        match self {
            Object::String(string) => Object::String(rc_str_clone(string)),
        }
    }
}

impl PartialEq for Object {
    fn eq(&self, other: &Self) -> (r: bool) {
        match self {
            Object::String(a) => match other {
                Object::String(b) => str_eq(rc_str_as_str(a), rc_str_as_str(b)),
            },
        }
    }

    fn ne(&self, other: &Self) -> (r: bool) {
        !self.eq(other)
    }
}

impl vstd::std_specs::cmp::PartialEqSpecImpl for Object {
    open spec fn obeys_eq_spec() -> bool {
        true
    }

    /// Two objects are equal when they hold the same string.
    open spec fn eq_spec(&self, other: &Self) -> bool {
        self@ == other@
    }
}

/// A compiled function: its arity, its captured variables and its code.
#[derive(Debug)]
pub struct Function {
    pub arity: u8,
    pub upvalue_count: u8,
    pub chunks: Vec<Chunk>,
    pub name: String,
}

impl Function {
    /// A function with no parameters, no captures, no code, named `<no name>`.
    pub fn new() -> (r: Function)
        ensures
            r.arity == 0,
            r.upvalue_count == 0,
            r.chunks@ == Seq::<Chunk>::empty(),
            r.name@ == "<no name>"@,
    {
        let mut name = String::new();
        name.append("<no name>");
        Function { arity: 0, upvalue_count: 0, chunks: Vec::new(), name }
    }
}

} // verus!
