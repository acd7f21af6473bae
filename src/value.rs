//! Handles to values owned by the runtime, and symbols.
use vstd::prelude::*;
use vstd::utf8::{decode_utf8, valid_utf8};

use crate::error::JlrsError;

verus! {

/// A value owned by the runtime, by its address; the word a root slot holds.
#[derive(Clone, Copy, Debug, PartialEq, Eq)]
pub struct Value {
    pub ptr: usize,
}

/// An iterated union of types, by its address.
#[derive(Clone, Copy, Debug, PartialEq, Eq)]
pub struct UnionAll {
    pub ptr: usize,
}

impl UnionAll {
    /// The same object, seen as a value.
    pub fn as_value(self) -> (r: Value)
        ensures
            r.ptr == self.ptr,
    {
        Value { ptr: self.ptr }
    }
}

/// An interned name: its bytes, without the trailing nul, and the hash the runtime gave it.
#[derive(Debug)]
pub struct Symbol {
    name: Vec<u8>,
    hash: usize,
}

/// Relies on std::str::from_utf8: the bytes are accepted exactly when they are valid UTF-8,
/// and then read as the characters they encode.
#[verifier::external_body]
fn utf8_to_string(bytes: &[u8]) -> (r: Option<String>)
    ensures
        r is Some <==> valid_utf8(bytes@),
        r matches Some(s) ==> s@ == decode_utf8(bytes@),
{
    match std::str::from_utf8(bytes) {
        Ok(s) => Some(String::from(s)),
        Err(_) => None,
    }
}

impl Symbol {
    pub closed spec fn name_spec(&self) -> Seq<u8> {
        self.name@
    }

    pub closed spec fn hash_spec(&self) -> usize {
        self.hash
    }

    /// A symbol with the given name and hash, as the runtime reports them.
    pub fn from_parts(name: Vec<u8>, hash: usize) -> (r: Self)
        ensures
            r.name_spec() == name@,
            r.hash_spec() == hash,
    {
        Symbol { name, hash }
    }

    /// The hash the runtime gave this symbol.
    pub fn hash(&self) -> (r: usize)
        ensures
            r == self.hash_spec(),
    {
        self.hash
    }

    /// The bytes of the name.
    pub fn as_bytes(&self) -> (r: &[u8])
        ensures
            r@ == self.name_spec(),
    {
        self.name.as_slice()
    }

    /// The name as a string; an error if it is not valid UTF-8.
    pub fn as_string(&self) -> (r: Result<String, JlrsError>)
        ensures
            r is Ok <==> valid_utf8(self.name_spec()),
            r matches Ok(s) ==> s@ == decode_utf8(self.name_spec()),
            r matches Err(e) ==> e == JlrsError::NotUtf8,
    {
        match utf8_to_string(self.name.as_slice()) {
            Some(s) => Ok(s),
            None => Err(JlrsError::NotUtf8),
        }
    }
}

} // verus!
