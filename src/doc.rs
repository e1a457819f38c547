//! A document of named nodes with entries and children, as the manifest and
//! index formats hold it, and the lookups the readers make in it.
use vstd::prelude::*;
use crate::text::str_eq;

verus! {

/// The value of an entry.
#[derive(Debug, Clone)]
pub enum Value {
    Str(String),
    Int(i128),
    /// Any other kind of value (a float, a boolean, null).
    Other,
}

/// An entry of a node: a positional argument (no name) or a property.
#[derive(Debug, Clone)]
pub struct Entry {
    pub name: Option<String>,
    pub value: Value,
}

/// A node one level below the top: its name, its entries in order, and the
/// names of its own children if it has a block.
#[derive(Debug, Clone)]
pub struct Child {
    pub name: String,
    pub entries: Vec<Entry>,
    pub children: Option<Vec<String>>,
}

/// A top-level node: its name, its entries in order, and its children if it
/// has a block. The readers look no deeper than the children's names.
#[derive(Debug, Clone)]
pub struct Node {
    pub name: String,
    pub entries: Vec<Entry>,
    pub children: Option<Vec<Child>>,
}

/// Errors of reading a document.
#[derive(Debug, Clone, Copy, PartialEq, Eq, Structural)]
pub enum DocError {
    /// A required property is absent.
    MissingProperty,
    /// A required argument is absent.
    MissingArgument,
    /// A value that must be a string is not one.
    NotAString,
    /// A value that must be an integer is not one.
    NotAnInteger,
    /// An integer does not fit in `u64`.
    OutOfRange,
    /// A user declaration has fewer than six values.
    NotEnoughEntries,
}

/// The value of the last property named `key`, as a property lookup finds it.
pub open spec fn prop(es: Seq<Entry>, key: Seq<char>) -> Option<Value>
    decreases es.len(),
{
    if es.len() == 0 {
        None
    } else if es.last().name matches Some(n) && n@ == key {
        Some(es.last().value)
    } else {
        prop(es.drop_last(), key)
    }
}

/// The value of the first positional argument.
pub open spec fn first_arg(es: Seq<Entry>) -> Option<Value>
    decreases es.len(),
{
    if es.len() == 0 {
        None
    } else if es[0].name is None {
        Some(es[0].value)
    } else {
        first_arg(es.drop_first())
    }
}

/// The value of the property `key`, found as the last one of that name.
pub fn get_prop<'a>(es: &'a Vec<Entry>, key: &str) -> (r: Option<&'a Value>)
    ensures
        match prop(es@, key@) {
            Some(v) => r matches Some(x) && *x == v,
            None => r is None,
        },
{
    let mut i: usize = es.len();
    assert(es@.take(es@.len() as int) =~= es@);
    while i > 0
        invariant
            i <= es.len(),
            prop(es@, key@) == prop(es@.take(i as int), key@),
        decreases i,
    {
        let e = &es[i - 1];
        let ghost t = es@.take(i as int);
        assert(t.drop_last() =~= es@.take(i as int - 1));
        match &e.name {
            Some(n) => {
                if str_eq(n.as_str(), key) {
                    return Some(&e.value);
                }
            },
            None => {},
        }
        i -= 1;
    }
    None
}

/// The value of the first positional argument.
pub fn get_first_arg(es: &Vec<Entry>) -> (r: Option<&Value>)
    ensures
        match first_arg(es@) {
            Some(v) => r matches Some(x) && *x == v,
            None => r is None,
        },
{
    let mut i: usize = 0;
    assert(es@.skip(0) =~= es@);
    while i < es.len()
        invariant
            i <= es.len(),
            first_arg(es@) == first_arg(es@.skip(i as int)),
        decreases es.len() - i,
    {
        assert(es@.skip(i as int).drop_first() =~= es@.skip(i as int + 1));
        if es[i].name.is_none() {
            return Some(&es[i].value);
        }
        i += 1;
    }
    None
}

/// A value read as a string.
pub open spec fn as_string(v: Value) -> Result<Seq<char>, DocError> {
    match v {
        Value::Str(s) => Ok(s@),
        _ => Err(DocError::NotAString),
    }
}

/// Reads a value as a string.
pub fn value_as_string(v: &Value) -> (r: Result<String, DocError>)
    ensures
        match as_string(*v) {
            Ok(s) => r matches Ok(x) && x@ == s,
            Err(e) => r == Err::<String, DocError>(e),
        },
{
    match v {
        Value::Str(s) => Ok(s.clone()),
        _ => Err(DocError::NotAString),
    }
}

/// A value read as a `u64`.
pub open spec fn as_u64(v: Value) -> Result<u64, DocError> {
    match v {
        Value::Int(i) => if 0 <= i <= u64::MAX {
            Ok(i as u64)
        } else {
            Err(DocError::OutOfRange)
        },
        _ => Err(DocError::NotAnInteger),
    }
}

/// Reads a value as a `u64`.
pub fn value_as_u64(v: &Value) -> (r: Result<u64, DocError>)
    ensures
        r == as_u64(*v),
{
    match v {
        Value::Int(i) => if 0 <= *i && *i <= u64::MAX as i128 {
            Ok(*i as u64)
        } else {
            Err(DocError::OutOfRange)
        },
        _ => Err(DocError::NotAnInteger),
    }
}

/// Index of the first node named `name`, or the length.
pub open spec fn first_named(ns: Seq<Node>, name: Seq<char>) -> int
    decreases ns.len(),
{
    if ns.len() == 0 {
        0
    } else if ns[0].name@ == name {
        0
    } else {
        1 + first_named(ns.drop_first(), name)
    }
}

/// Finds the first node named `name`.
pub fn find_node<'a>(ns: &'a Vec<Node>, name: &str) -> (r: Option<&'a Node>)
    ensures
        first_named(ns@, name@) < ns@.len() ==> r == Some(&ns@[first_named(ns@, name@)]),
        first_named(ns@, name@) >= ns@.len() ==> r is None,
{
    let mut i: usize = 0;
    assert(ns@.skip(0) =~= ns@);
    while i < ns.len()
        invariant
            i <= ns.len(),
            first_named(ns@, name@) == i + first_named(ns@.skip(i as int), name@),
        decreases ns.len() - i,
    {
        assert(ns@.skip(i as int).drop_first() =~= ns@.skip(i as int + 1));
        if str_eq(ns[i].name.as_str(), name) {
            return Some(&ns[i]);
        }
        i += 1;
    }
    None
}

} // verus!
