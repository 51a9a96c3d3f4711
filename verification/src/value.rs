//! A generic document tree and safe navigation over it.
//!
//! The tree mirrors what a configuration-format parser hands back:
//! tables of key/value pairs, arrays, strings, numbers and booleans.
//! Numeric timing samples appear only in output rows, so a float is
//! carried as the decimal rendering the caller produced for it.

use vstd::prelude::*;

verus! {

/// One node of a parsed document.
pub enum Value {
    /// A table: key/value pairs in document order.
    Table(Vec<(String, Value)>),
    /// An ordered sequence of values.
    Array(Vec<Value>),
    /// A string value.
    Text(String),
    /// A floating-point value, carried as its decimal rendering.
    Float(String),
    /// An integer value.
    Int(i64),
    /// A boolean value.
    Bool(bool),
    /// A value of a kind none of the coercions accept (a datetime, say).
    Other,
}

/// The value under `key` in `pairs`: the first pair whose key matches.
pub open spec fn spec_lookup(pairs: Seq<(String, Value)>, key: Seq<char>) -> Option<Value>
    decreases pairs.len(),
{
    if pairs.len() == 0 {
        None
    } else if pairs[0].0@ == key {
        Some(pairs[0].1)
    } else {
        spec_lookup(pairs.drop_first(), key)
    }
}

/// Field lookup: the value under `key` if `v` is a table holding it.
pub open spec fn spec_get(v: Value, key: Seq<char>) -> Option<Value> {
    match v {
        Value::Table(pairs) => spec_lookup(pairs@, key),
        _ => None,
    }
}

/// Element lookup: the `i`-th element if `v` is an array and `i` is in range.
pub open spec fn spec_index(v: Value, i: int) -> Option<Value> {
    match v {
        Value::Array(items) => if 0 <= i < items@.len() {
            Some(items@[i])
        } else {
            None
        },
        _ => None,
    }
}

/// The elements if `v` is an array.
pub open spec fn spec_as_array(v: Value) -> Option<Seq<Value>> {
    match v {
        Value::Array(items) => Some(items@),
        _ => None,
    }
}

/// The characters if `v` is a string.
pub open spec fn spec_as_str(v: Value) -> Option<Seq<char>> {
    match v {
        Value::Text(s) => Some(s@),
        _ => None,
    }
}

/// The rendering if `v` is a float.
pub open spec fn spec_as_float(v: Value) -> Option<Seq<char>> {
    match v {
        Value::Float(s) => Some(s@),
        _ => None,
    }
}

impl Value {
    /// The value under `key`, if this is a table that holds it.
    pub fn get<'a>(&'a self, key: &str) -> (r: Option<&'a Value>)
        ensures
            match r {
                Some(v) => spec_get(*self, key@) == Some(*v),
                None => spec_get(*self, key@) is None,
            },
    {
        match self {
            Value::Table(pairs) => {
                let key_string = String::from_str(key);
                let n = pairs.len();
                let mut i: usize = 0;
                assert(pairs@.skip(0) =~= pairs@);
                while i < n
                    invariant
                        n == pairs@.len(),
                        i <= n,
                        key_string@ == key@,
                        spec_get(*self, key@) == spec_lookup(pairs@, key@),
                        spec_lookup(pairs@, key@) == spec_lookup(pairs@.skip(i as int), key@),
                    decreases n - i,
                {
                    if pairs[i].0 == key_string {
                        proof {
                            let rest = pairs@.skip(i as int);
                            assert(rest[0] == pairs@[i as int]);
                            assert(spec_lookup(rest, key@) == Some(rest[0].1));
                        }
                        return Some(&pairs[i].1);
                    }
                    assert(pairs@.skip(i as int).drop_first() =~= pairs@.skip(i + 1));
                    i = i + 1;
                }
                assert(pairs@.skip(n as int) =~= Seq::<(String, Value)>::empty());
                None
            },
            _ => None,
        }
    }

    /// The `i`-th element, if this is an array and `i` is in range.
    pub fn index<'a>(&'a self, i: usize) -> (r: Option<&'a Value>)
        ensures
            match r {
                Some(v) => spec_index(*self, i as int) == Some(*v),
                None => spec_index(*self, i as int) is None,
            },
    {
        match self {
            Value::Array(items) => if i < items.len() {
                Some(&items[i])
            } else {
                None
            },
            _ => None,
        }
    }

    /// The elements, if this is an array.
    pub fn as_array<'a>(&'a self) -> (r: Option<&'a Vec<Value>>)
        ensures
            match r {
                Some(items) => spec_as_array(*self) == Some(items@),
                None => spec_as_array(*self) is None,
            },
    {
        match self {
            Value::Array(items) => Some(items),
            _ => None,
        }
    }

    /// Whether this is a table.
    pub fn is_table(&self) -> (r: bool)
        ensures
            r == (*self matches Value::Table(_)),
    {
        match self {
            Value::Table(_) => true,
            _ => false,
        }
    }

    /// The string, if this is a string value.
    pub fn as_str<'a>(&'a self) -> (r: Option<&'a String>)
        ensures
            match r {
                Some(s) => spec_as_str(*self) == Some(s@),
                None => spec_as_str(*self) is None,
            },
    {
        match self {
            Value::Text(s) => Some(s),
            _ => None,
        }
    }

    /// The decimal rendering, if this is a float value.
    pub fn as_float<'a>(&'a self) -> (r: Option<&'a String>)
        ensures
            match r {
                Some(s) => spec_as_float(*self) == Some(s@),
                None => spec_as_float(*self) is None,
            },
    {
        match self {
            Value::Float(s) => Some(s),
            _ => None,
        }
    }

    /// The integer, if this is an integer value.
    pub fn as_int(&self) -> (r: Option<i64>)
        ensures
            match r {
                Some(n) => *self == Value::Int(n),
                None => !(*self matches Value::Int(_)),
            },
    {
        match self {
            Value::Int(n) => Some(*n),
            _ => None,
        }
    }

    /// The boolean, if this is a boolean value.
    pub fn as_bool(&self) -> (r: Option<bool>)
        ensures
            match r {
                Some(b) => *self == Value::Bool(b),
                None => !(*self matches Value::Bool(_)),
            },
    {
        match self {
            Value::Bool(b) => Some(*b),
            _ => None,
        }
    }
}

} // verus!
