//! Where the value of a variable lives on the target.

use vstd::prelude::*;
use vstd::string::StringExecFns;

use crate::error::DebugError;
use crate::numfmt::{dec_str, hex_str_fixed, u64_to_decimal, u64_to_hex_fixed, usize_to_decimal};

verus! {

/// The location of a variable's value.
#[derive(Debug)]
pub enum VariableLocation {
    /// The location has not been evaluated yet.
    Unknown,
    /// The variable currently has no location, typically because of
    /// optimisations.
    Unavailable,
    /// The value lives in target memory at this address.
    Address(u32),
    /// The value lives in this register.
    Register(usize),
    /// The value is directly available; no memory read is required.
    Value,
    /// Evaluating the location failed with this message.
    Error(String),
    /// This kind of location is not supported, for the stated reason.
    Unsupported(String),
}

impl Default for VariableLocation {
    fn default() -> (r: Self)
        ensures
            r is Unknown,
    {
        VariableLocation::Unknown
    }
}

impl Clone for VariableLocation {
    fn clone(&self) -> (r: Self)
        ensures
            r == *self,
    {
        match self {
            VariableLocation::Unknown => VariableLocation::Unknown,
            VariableLocation::Unavailable => VariableLocation::Unavailable,
            VariableLocation::Address(a) => VariableLocation::Address(*a),
            VariableLocation::Register(i) => VariableLocation::Register(*i),
            VariableLocation::Value => VariableLocation::Value,
            VariableLocation::Error(e) => VariableLocation::Error(e.clone()),
            VariableLocation::Unsupported(s) => VariableLocation::Unsupported(s.clone()),
        }
    }
}

/// The diagnostic text of a location, integers rendered in decimal.
pub open spec fn location_debug_spec(loc: VariableLocation) -> Seq<char> {
    match loc {
        VariableLocation::Unknown => "Unknown"@,
        VariableLocation::Unavailable => "Unavailable"@,
        VariableLocation::Address(a) => "Address("@ + dec_str(a as nat) + ")"@,
        VariableLocation::Register(i) => "Register("@ + dec_str(i as nat) + ")"@,
        VariableLocation::Value => "Value"@,
        VariableLocation::Error(e) => "Error(\""@ + e@ + "\")"@,
        VariableLocation::Unsupported(s) => "Unsupported(\""@ + s@ + "\")"@,
    }
}

/// The diagnostic text of a location with a memory address rendered as
/// eight lower-case hexadecimal digits.
pub open spec fn location_hex_debug_spec(loc: VariableLocation) -> Seq<char> {
    match loc {
        VariableLocation::Address(a) => "Address("@ + hex_str_fixed(a as nat, 8, false) + ")"@,
        _ => location_debug_spec(loc),
    }
}

/// The message given when an operation needs a memory address but the
/// location holds none.
pub open spec fn no_address_text_spec(loc: VariableLocation) -> Seq<char> {
    "Variable does not have a memory location: location="@ + location_debug_spec(loc)
}

impl VariableLocation {
    /// The location can in principle yield a value: it is neither an error,
    /// unsupported, nor unavailable.
    pub open spec fn valid_spec(&self) -> bool {
        match self {
            VariableLocation::Address(_) => true,
            VariableLocation::Register(_) => true,
            VariableLocation::Value => true,
            VariableLocation::Unknown => true,
            _ => false,
        }
    }

    /// The location can in principle yield a value: it is neither an error,
    /// unsupported, nor unavailable.
    pub fn valid(&self) -> (r: bool)
        ensures
            r == self.valid_spec(),
    {
        match self {
            VariableLocation::Address(_)
            | VariableLocation::Register(_)
            | VariableLocation::Value
            | VariableLocation::Unknown => true,
            _ => false,
        }
    }

    /// Returns the memory address, or a decode failure naming the location
    /// when the value does not live at an address.
    pub fn memory_address(&self) -> (r: Result<u32, DebugError>)
        ensures
            match self {
                VariableLocation::Address(a) => r is Ok && r.unwrap() == a,
                _ => match r {
                    Result::Err(DebugError::DecodeFailed(m)) => m@ == no_address_text_spec(*self),
                    _ => false,
                },
            },
    {
        match self {
            VariableLocation::Address(address) => Ok(*address),
            _ => {
                let mut s = "Variable does not have a memory location: location=".to_owned();
                let d = self.debug_text();
                s.append(d.as_str());
                Err(DebugError::DecodeFailed(s))
            },
        }
    }

    /// Renders the location as [`location_debug_spec`] describes.
    pub fn debug_text(&self) -> (r: String)
        ensures
            r@ == location_debug_spec(*self),
    {
        match self {
            VariableLocation::Unknown => "Unknown".to_owned(),
            VariableLocation::Unavailable => "Unavailable".to_owned(),
            VariableLocation::Address(a) => {
                let mut s = "Address(".to_owned();
                let d = u64_to_decimal(*a as u64);
                s.append(d.as_str());
                s.append(")");
                s
            },
            VariableLocation::Register(i) => {
                let mut s = "Register(".to_owned();
                let d = usize_to_decimal(*i);
                s.append(d.as_str());
                s.append(")");
                s
            },
            VariableLocation::Value => "Value".to_owned(),
            VariableLocation::Error(e) => {
                let mut s = "Error(\"".to_owned();
                s.append(e.as_str());
                s.append("\")");
                s
            },
            VariableLocation::Unsupported(u) => {
                let mut s = "Unsupported(\"".to_owned();
                s.append(u.as_str());
                s.append("\")");
                s
            },
        }
    }

    /// Renders the location as [`location_hex_debug_spec`] describes.
    pub fn hex_debug_text(&self) -> (r: String)
        ensures
            r@ == location_hex_debug_spec(*self),
    {
        match self {
            VariableLocation::Address(a) => {
                let mut s = "Address(".to_owned();
                let d = u64_to_hex_fixed(*a as u64, 8, false);
                s.append(d.as_str());
                s.append(")");
                s
            },
            _ => self.debug_text(),
        }
    }
}

} // verus!
