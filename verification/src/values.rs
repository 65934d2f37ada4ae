//! The tagged values the codec works on, the target-type tags a decode
//! call names, and the encoding hints that refine integer and string
//! handling.
use vstd::prelude::*;
use crate::errors::CodecError;

verus! {

/// A primitive value: the only shapes accepted as encoder input or
/// produced as decoder output. "No value" is the explicit `Nil` variant.
#[derive(Debug)]
pub enum Value {
    Nil,
    Bool(bool),
    Int(i64),
    Bytes(Vec<u8>),
    Text(String),
}

/// The mathematical shape of a `Value`.
pub enum ValueSpec {
    Nil,
    Bool(bool),
    Int(int),
    Bytes(Seq<u8>),
    Text(Seq<char>),
}

impl View for Value {
    type V = ValueSpec;

    open spec fn view(&self) -> ValueSpec {
        match self {
            Value::Nil => ValueSpec::Nil,
            Value::Bool(b) => ValueSpec::Bool(*b),
            Value::Int(i) => ValueSpec::Int(*i as int),
            Value::Bytes(v) => ValueSpec::Bytes(v@),
            Value::Text(s) => ValueSpec::Text(s@),
        }
    }
}

/// True when `a` and `b` hold equal bytes.
pub fn bytes_eq(a: &Vec<u8>, b: &Vec<u8>) -> (r: bool)
    ensures
        r == (a@ == b@),
{
    if a.len() != b.len() {
        return false;
    }
    let mut i: usize = 0;
    while i < a.len()
        invariant
            i <= a@.len(),
            a@.len() == b@.len(),
            forall|j: int| 0 <= j < i ==> a@[j] == b@[j],
        decreases a@.len() - i,
    {
        if a[i] != b[i] {
            return false;
        }
        i = i + 1;
    }
    proof {
        assert(a@ =~= b@);
    }
    true
}

impl PartialEq for Value {
    fn eq(&self, other: &Value) -> (r: bool) {
        match (self, other) {
            (Value::Nil, Value::Nil) => true,
            (Value::Bool(a), Value::Bool(b)) => *a == *b,
            (Value::Int(a), Value::Int(b)) => *a == *b,
            (Value::Bytes(a), Value::Bytes(b)) => bytes_eq(a, b),
            (Value::Text(a), Value::Text(b)) => a.eq(b),
            _ => false,
        }
    }
}

impl vstd::std_specs::cmp::PartialEqSpecImpl for Value {
    open spec fn obeys_eq_spec() -> bool {
        true
    }

    open spec fn eq_spec(&self, other: &Value) -> bool {
        self@ == other@
    }
}

/// A target-type tag: which primitive shape the decoder reads next.
#[derive(Clone, Copy, Debug, PartialEq, Eq, Structural)]
pub enum Tag {
    Nil,
    Bool,
    Int,
    Bytes,
    Text,
}

/// The numeric tag codes a caller supplies: 0, 2, 3, 16 and 17 name the
/// five shapes; every other code is invalid.
pub open spec fn tag_of_code(c: int) -> Option<Tag> {
    if c == 0 {
        Option::Some(Tag::Nil)
    } else if c == 2 {
        Option::Some(Tag::Bool)
    } else if c == 3 {
        Option::Some(Tag::Int)
    } else if c == 16 {
        Option::Some(Tag::Bytes)
    } else if c == 17 {
        Option::Some(Tag::Text)
    } else {
        Option::None
    }
}

/// Resolves a numeric target-type code once, at call entry.
pub fn tag_from_code(c: i64) -> (r: Result<Tag, CodecError>)
    ensures
        match tag_of_code(c as int) {
            Option::Some(t) => r == Ok::<Tag, CodecError>(t),
            Option::None => r == Err::<Tag, CodecError>(CodecError::UnknownTag),
        },
{
    if c == 0 {
        Ok(Tag::Nil)
    } else if c == 2 {
        Ok(Tag::Bool)
    } else if c == 3 {
        Ok(Tag::Int)
    } else if c == 16 {
        Ok(Tag::Bytes)
    } else if c == 17 {
        Ok(Tag::Text)
    } else {
        Err(CodecError::UnknownTag)
    }
}

/// An encoding hint, resolved once from its short selector string.
#[derive(Clone, Copy, Debug, PartialEq, Eq, Structural)]
pub enum Hint {
    /// No hint: strings are length-prefixed UTF-8, other shapes use
    /// their natural fixed encoding.
    Plain,
    U8,
    U16,
    U32,
    U64,
    U128,
    I8,
    I16,
    I32,
    I64,
    I128,
    /// Compact unsigned integer.
    Compact,
    /// Treat a string as an account identifier rather than opaque text.
    Account,
}

/// The hint a selector string names, or nothing for an unrecognized one.
pub open spec fn hint_of_str(s: Seq<char>) -> Option<Hint> {
    if s == "u8"@ {
        Option::Some(Hint::U8)
    } else if s == "u16"@ {
        Option::Some(Hint::U16)
    } else if s == "u32"@ {
        Option::Some(Hint::U32)
    } else if s == "u64"@ {
        Option::Some(Hint::U64)
    } else if s == "u128"@ {
        Option::Some(Hint::U128)
    } else if s == "i8"@ {
        Option::Some(Hint::I8)
    } else if s == "i16"@ {
        Option::Some(Hint::I16)
    } else if s == "i32"@ {
        Option::Some(Hint::I32)
    } else if s == "i64"@ {
        Option::Some(Hint::I64)
    } else if s == "i128"@ {
        Option::Some(Hint::I128)
    } else if s == "c"@ {
        Option::Some(Hint::Compact)
    } else if s == "a"@ {
        Option::Some(Hint::Account)
    } else {
        Option::None
    }
}

/// Resolves an optional selector string to a hint once, at call entry;
/// an absent selector means default handling.
pub fn parse_hint(h: Option<&str>) -> (r: Result<Hint, CodecError>)
    ensures
        match h {
            Option::None => r == Ok::<Hint, CodecError>(Hint::Plain),
            Option::Some(s) => match hint_of_str(s@) {
                Option::Some(x) => r == Ok::<Hint, CodecError>(x),
                Option::None => r == Err::<Hint, CodecError>(CodecError::UnknownHint),
            },
        },
{
    match h {
        Option::None => Ok(Hint::Plain),
        Option::Some(s) => {
            let t = String::from_str(s);
            if t == String::from_str("u8") {
                Ok(Hint::U8)
            } else if t == String::from_str("u16") {
                Ok(Hint::U16)
            } else if t == String::from_str("u32") {
                Ok(Hint::U32)
            } else if t == String::from_str("u64") {
                Ok(Hint::U64)
            } else if t == String::from_str("u128") {
                Ok(Hint::U128)
            } else if t == String::from_str("i8") {
                Ok(Hint::I8)
            } else if t == String::from_str("i16") {
                Ok(Hint::I16)
            } else if t == String::from_str("i32") {
                Ok(Hint::I32)
            } else if t == String::from_str("i64") {
                Ok(Hint::I64)
            } else if t == String::from_str("i128") {
                Ok(Hint::I128)
            } else if t == String::from_str("c") {
                Ok(Hint::Compact)
            } else if t == String::from_str("a") {
                Ok(Hint::Account)
            } else {
                Err(CodecError::UnknownHint)
            }
        },
    }
}

/// The tag a value's own shape answers to.
pub open spec fn tag_for(v: ValueSpec) -> Tag {
    match v {
        ValueSpec::Nil => Tag::Nil,
        ValueSpec::Bool(_) => Tag::Bool,
        ValueSpec::Int(_) => Tag::Int,
        ValueSpec::Bytes(_) => Tag::Bytes,
        ValueSpec::Text(_) => Tag::Text,
    }
}

} // verus!
