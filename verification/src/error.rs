//! The failures the cache and the codec can report.
//!
//! Structural failures surface to the caller and leave the cache untouched;
//! value-space failures during extraction are captured into the offending
//! variable's value as [`crate::types::VariableValue::Error`] text instead.

use vstd::prelude::*;
use vstd::string::StringExecFns;

verus! {

/// Why a cache or codec operation could not be carried out.
#[derive(Debug)]
pub enum DebugError {
    /// The supplied parent key resolves to no cache entry.
    BadParent(i64),
    /// A fresh key collided with an existing entry on insert.
    DuplicateKey(i64),
    /// An update or removal named a key that is not in the cache.
    UnknownKey(i64),
    /// An entry that was expected to be present could not be removed.
    RemoveFailed(i64),
    /// The codec could not read or parse the target bytes.
    DecodeFailed(String),
    /// The preconditions of a value write-back were not met.
    Unwritable,
    /// A write was requested for a type outside the supported scalar set.
    UnsupportedType(String),
    /// A write through a pointer variable was requested.
    UnsupportedPointerWrite,
    /// A write to a read-only string variable was requested.
    UnsupportedWrite,
    /// The transport to the target failed while reading or writing.
    MemoryIO(String),
}

impl Clone for DebugError {
    fn clone(&self) -> (r: Self)
        ensures
            r == *self,
    {
        match self {
            DebugError::BadParent(k) => DebugError::BadParent(*k),
            DebugError::DuplicateKey(k) => DebugError::DuplicateKey(*k),
            DebugError::UnknownKey(k) => DebugError::UnknownKey(*k),
            DebugError::RemoveFailed(k) => DebugError::RemoveFailed(*k),
            DebugError::DecodeFailed(s) => DebugError::DecodeFailed(s.clone()),
            DebugError::Unwritable => DebugError::Unwritable,
            DebugError::UnsupportedType(s) => DebugError::UnsupportedType(s.clone()),
            DebugError::UnsupportedPointerWrite => DebugError::UnsupportedPointerWrite,
            DebugError::UnsupportedWrite => DebugError::UnsupportedWrite,
            DebugError::MemoryIO(s) => DebugError::MemoryIO(s.clone()),
        }
    }
}

/// The user-visible message of a [`DebugError`].
pub open spec fn error_text_spec(e: DebugError) -> Seq<char> {
    match e {
        DebugError::BadParent(k) => "BadParent: no cache entry has the parent key "@
            + crate::numfmt::dec_str_signed(k as int),
        DebugError::DuplicateKey(k) => "DuplicateKey: a cache entry already has the key "@
            + crate::numfmt::dec_str_signed(k as int),
        DebugError::UnknownKey(k) => "UnknownKey: no cache entry has the key "@
            + crate::numfmt::dec_str_signed(k as int),
        DebugError::RemoveFailed(k) => "RemoveFailed: no cache entry has the key "@
            + crate::numfmt::dec_str_signed(k as int),
        DebugError::DecodeFailed(s) => "DecodeFailed: "@ + s@,
        DebugError::Unwritable => "Unwritable: the variable's value, type and location do not allow an update"@,
        DebugError::UnsupportedType(s) => "UnsupportedType: only base data types can be updated, not "@
            + s@,
        DebugError::UnsupportedPointerWrite => "UnsupportedPointerWrite: updating pointer variables is not supported"@,
        DebugError::UnsupportedWrite => "UnsupportedWrite: string variables are read-only"@,
        DebugError::MemoryIO(s) => "MemoryIO: "@ + s@,
    }
}

impl DebugError {
    /// Renders the message as [`error_text_spec`] describes.
    pub fn message(&self) -> (r: String)
        ensures
            r@ == error_text_spec(*self),
    {
        match self {
            DebugError::BadParent(k) => {
                let mut s = "BadParent: no cache entry has the parent key ".to_owned();
                let t = crate::numfmt::i64_to_decimal(*k);
                s.append(t.as_str());
                s
            },
            DebugError::DuplicateKey(k) => {
                let mut s = "DuplicateKey: a cache entry already has the key ".to_owned();
                let t = crate::numfmt::i64_to_decimal(*k);
                s.append(t.as_str());
                s
            },
            DebugError::UnknownKey(k) => {
                let mut s = "UnknownKey: no cache entry has the key ".to_owned();
                let t = crate::numfmt::i64_to_decimal(*k);
                s.append(t.as_str());
                s
            },
            DebugError::RemoveFailed(k) => {
                let mut s = "RemoveFailed: no cache entry has the key ".to_owned();
                let t = crate::numfmt::i64_to_decimal(*k);
                s.append(t.as_str());
                s
            },
            DebugError::DecodeFailed(m) => {
                let mut s = "DecodeFailed: ".to_owned();
                s.append(m.as_str());
                s
            },
            DebugError::Unwritable => {
                "Unwritable: the variable's value, type and location do not allow an update".to_owned()
            },
            DebugError::UnsupportedType(m) => {
                let mut s = "UnsupportedType: only base data types can be updated, not ".to_owned();
                s.append(m.as_str());
                s
            },
            DebugError::UnsupportedPointerWrite => {
                "UnsupportedPointerWrite: updating pointer variables is not supported".to_owned()
            },
            DebugError::UnsupportedWrite => {
                "UnsupportedWrite: string variables are read-only".to_owned()
            },
            DebugError::MemoryIO(m) => {
                let mut s = "MemoryIO: ".to_owned();
                s.append(m.as_str());
                s
            },
        }
    }
}

} // verus!
