//! The kind of type a variable has, and how that type is shown to the user.

use vstd::prelude::*;
use vstd::string::StringExecFns;

use crate::numfmt::{dec_str, usize_to_decimal};
use crate::strutil::{is_prefix_of, str_starts_with};
use crate::types::{name_debug_spec, name_text_spec, VariableName};

verus! {

/// The type of a variable, as the debug information describes it.
#[derive(Debug)]
pub enum VariableType {
    /// A base data type with this name, e.g. `u32` or `bool`.
    Base(String),
    /// A structure with this name.
    Struct(String),
    /// An enumeration with this name.
    Enum(String),
    /// A namespace node.
    Namespace,
    /// A pointer, optionally with the name of its type.
    Pointer(Option<String>),
    /// An array of `count` entries of the named entry type.
    Array {
        /// The name of the entry type.
        entry_type: VariableName,
        /// The number of entries.
        count: usize,
    },
    /// A type without a name.
    Unnamed,
    /// The type could not be determined.
    Unknown,
    /// Any other kind of type, carried by name.
    Other(String),
}

impl Default for VariableType {
    fn default() -> (r: Self)
        ensures
            r is Unknown,
    {
        VariableType::Unknown
    }
}

impl Clone for VariableType {
    fn clone(&self) -> (r: Self)
        ensures
            r == *self,
    {
        match self {
            VariableType::Base(n) => VariableType::Base(n.clone()),
            VariableType::Struct(n) => VariableType::Struct(n.clone()),
            VariableType::Enum(n) => VariableType::Enum(n.clone()),
            VariableType::Namespace => VariableType::Namespace,
            VariableType::Pointer(p) => VariableType::Pointer(
                match p {
                    Some(n) => Some(n.clone()),
                    None => None,
                },
            ),
            VariableType::Array { entry_type, count } => VariableType::Array {
                entry_type: entry_type.clone(),
                count: *count,
            },
            VariableType::Unnamed => VariableType::Unnamed,
            VariableType::Unknown => VariableType::Unknown,
            VariableType::Other(n) => VariableType::Other(n.clone()),
        }
    }
}

/// The pretty name of a type as it is shown to the user.
pub open spec fn type_display_spec(t: VariableType) -> Seq<char> {
    match t {
        VariableType::Base(name) => name@,
        VariableType::Struct(name) => name@,
        VariableType::Enum(name) => name@,
        VariableType::Namespace => "<namespace>"@,
        VariableType::Pointer(Some(name)) => name@,
        VariableType::Pointer(None) => "<unnamed>"@,
        VariableType::Array { entry_type, count } => "["@ + name_text_spec(entry_type) + "; "@
            + dec_str(count as nat) + "]"@,
        VariableType::Unnamed => "<unnamed>"@,
        VariableType::Unknown => "<unknown>"@,
        VariableType::Other(name) => name@,
    }
}

/// The diagnostic text of a type, the variant spelled out and carried text
/// quoted.
pub open spec fn type_debug_spec(t: VariableType) -> Seq<char> {
    match t {
        VariableType::Base(name) => "Base(\""@ + name@ + "\")"@,
        VariableType::Struct(name) => "Struct(\""@ + name@ + "\")"@,
        VariableType::Enum(name) => "Enum(\""@ + name@ + "\")"@,
        VariableType::Namespace => "Namespace"@,
        VariableType::Pointer(Some(name)) => "Pointer(Some(\""@ + name@ + "\"))"@,
        VariableType::Pointer(None) => "Pointer(None)"@,
        VariableType::Array { entry_type, count } => "Array { entry_type: "@ + name_debug_spec(
            entry_type,
        ) + ", count: "@ + dec_str(count as nat) + " }"@,
        VariableType::Unnamed => "Unnamed"@,
        VariableType::Unknown => "Unknown"@,
        VariableType::Other(name) => "Other(\""@ + name@ + "\")"@,
    }
}

impl VariableType {
    /// The type is a `PhantomData` marker structure.
    pub open spec fn is_phantom_data_spec(&self) -> bool {
        match self {
            VariableType::Struct(name) => is_prefix_of("PhantomData"@, name@),
            _ => false,
        }
    }

    /// The type is a `PhantomData` marker structure.
    pub fn is_phantom_data(&self) -> (r: bool)
        ensures
            r == self.is_phantom_data_spec(),
    {
        match self {
            VariableType::Struct(name) => str_starts_with(name.as_str(), "PhantomData"),
            _ => false,
        }
    }

    /// The type is a named reference: a pointer whose type name starts with
    /// `&`.
    pub open spec fn is_reference_spec(&self) -> bool {
        match self {
            VariableType::Pointer(Some(name)) => is_prefix_of("&"@, name@),
            _ => false,
        }
    }

    /// The type is a named reference: a pointer whose type name starts with
    /// `&`.
    pub fn is_reference(&self) -> (r: bool)
        ensures
            r == self.is_reference_spec(),
    {
        match self {
            VariableType::Pointer(Some(name)) => str_starts_with(name.as_str(), "&"),
            _ => false,
        }
    }

    /// The type is an array.
    pub fn is_array(&self) -> (r: bool)
        ensures
            r == (self is Array),
    {
        matches!(self, VariableType::Array { .. })
    }

    /// The type is a structure with exactly this name.
    pub fn is_struct_named(&self, wanted: &str) -> (r: bool)
        ensures
            r == match self {
                VariableType::Struct(name) => name@ == wanted@,
                _ => false,
            },
    {
        match self {
            VariableType::Struct(name) => crate::strutil::str_eq(name.as_str(), wanted),
            _ => false,
        }
    }

    /// Renders the pretty name as [`type_display_spec`] describes.
    pub fn display(&self) -> (r: String)
        ensures
            r@ == type_display_spec(*self),
    {
        match self {
            VariableType::Base(name) => name.clone(),
            VariableType::Struct(name) => name.clone(),
            VariableType::Enum(name) => name.clone(),
            VariableType::Namespace => "<namespace>".to_owned(),
            VariableType::Pointer(Some(name)) => name.clone(),
            VariableType::Pointer(None) => "<unnamed>".to_owned(),
            VariableType::Array { entry_type, count } => {
                let mut s = "[".to_owned();
                let n = entry_type.display_text();
                s.append(n.as_str());
                s.append("; ");
                let c = usize_to_decimal(*count);
                s.append(c.as_str());
                s.append("]");
                s
            },
            VariableType::Unnamed => "<unnamed>".to_owned(),
            VariableType::Unknown => "<unknown>".to_owned(),
            VariableType::Other(name) => name.clone(),
        }
    }

    /// Renders the diagnostic text as [`type_debug_spec`] describes.
    pub fn debug_text(&self) -> (r: String)
        ensures
            r@ == type_debug_spec(*self),
    {
        match self {
            VariableType::Base(name) => {
                let mut s = "Base(\"".to_owned();
                s.append(name.as_str());
                s.append("\")");
                s
            },
            VariableType::Struct(name) => {
                let mut s = "Struct(\"".to_owned();
                s.append(name.as_str());
                s.append("\")");
                s
            },
            VariableType::Enum(name) => {
                let mut s = "Enum(\"".to_owned();
                s.append(name.as_str());
                s.append("\")");
                s
            },
            VariableType::Namespace => "Namespace".to_owned(),
            VariableType::Pointer(Some(name)) => {
                let mut s = "Pointer(Some(\"".to_owned();
                s.append(name.as_str());
                s.append("\"))");
                s
            },
            VariableType::Pointer(None) => "Pointer(None)".to_owned(),
            VariableType::Array { entry_type, count } => {
                let mut s = "Array { entry_type: ".to_owned();
                let n = entry_type.debug_text();
                s.append(n.as_str());
                s.append(", count: ");
                let c = usize_to_decimal(*count);
                s.append(c.as_str());
                s.append(" }");
                s
            },
            VariableType::Unnamed => "Unnamed".to_owned(),
            VariableType::Unknown => "Unknown".to_owned(),
            VariableType::Other(name) => {
                let mut s = "Other(\"".to_owned();
                s.append(name.as_str());
                s.append("\")");
                s
            },
        }
    }
}

} // verus!
