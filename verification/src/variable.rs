//! The record describing one program variable of the halted target.

use vstd::prelude::*;
use vstd::string::StringExecFns;

use crate::location::VariableLocation;
use crate::numfmt::is_dec_digit;
use crate::strutil::str_starts_with;
use crate::types::{value_view_text, SourceLocation, ValueView, VariableName, VariableNodeType,
    VariableValue, VariantRole};
use crate::vtype::VariableType;

verus! {

/// One program variable, as the cache stores it.
///
/// A variable is created by the debug-information walker with
/// `variable_key == 0`, interned by the cache (which assigns the key),
/// mutated only through cache operations, and removed recursively. The
/// `value` field should be changed through [`Variable::set_value`], which
/// keeps earlier error text; every other field is plain data.
#[derive(Debug)]
pub struct Variable {
    /// The unique key of this variable within its cache; `0` until the
    /// variable is interned.
    pub variable_key: i64,
    /// The key of the parent variable; `None` for a root of the tree.
    pub parent_key: Option<i64>,
    /// The name of the variable.
    pub name: VariableName,
    /// The resolved value. Use [`Variable::set_value`] to change it and
    /// [`Variable::get_value`] to read a user-visible form.
    pub value: VariableValue,
    /// Where the variable was declared, when known.
    pub source_location: Option<SourceLocation>,
    /// The type of the variable.
    pub variable_type: VariableType,
    /// Offset of the compilation-unit header in the debug information; an
    /// opaque handle stored for the walker, never dereferenced here.
    pub unit_header_offset: Option<u64>,
    /// Offset of the variable's entry in the compilation unit; an opaque
    /// handle stored for the walker, never dereferenced here.
    pub variable_unit_offset: Option<u64>,
    /// How children of this variable are resolved.
    pub variable_node_type: VariableNodeType,
    /// Where the variable's value lives on the target.
    pub memory_location: VariableLocation,
    /// The size of the variable in bytes.
    pub byte_size: u64,
    /// The ordinal position of this variable within an array or vector, if
    /// it is a member of one.
    pub member_index: Option<i64>,
    /// The lower bound of the subrange, for array and vector variables.
    pub range_lower_bound: i64,
    /// The upper bound of the subrange, for array and vector variables.
    pub range_upper_bound: i64,
    /// The role this variable plays in a variant relation.
    pub role: VariantRole,
}

impl Clone for Variable {
    fn clone(&self) -> (r: Self)
        ensures
            r == *self,
    {
        Variable {
            variable_key: self.variable_key,
            parent_key: match self.parent_key {
                Some(k) => Some(k),
                None => None,
            },
            name: self.name.clone(),
            value: self.value.clone(),
            source_location: match &self.source_location {
                Some(l) => Some(l.clone()),
                None => None,
            },
            variable_type: self.variable_type.clone(),
            unit_header_offset: match self.unit_header_offset {
                Some(o) => Some(o),
                None => None,
            },
            variable_unit_offset: match self.variable_unit_offset {
                Some(o) => Some(o),
                None => None,
            },
            variable_node_type: self.variable_node_type,
            memory_location: self.memory_location.clone(),
            byte_size: self.byte_size,
            member_index: match self.member_index {
                Some(m) => Some(m),
                None => None,
            },
            range_lower_bound: self.range_lower_bound,
            range_upper_bound: self.range_upper_bound,
            role: self.role,
        }
    }
}

impl Default for Variable {
    fn default() -> (r: Self)
        ensures
            r.variable_key == 0,
            r.parent_key is None,
            r.name is Unknown,
            r.value is Empty,
            r.source_location is None,
            r.variable_type is Unknown,
            r.unit_header_offset is None,
            r.variable_unit_offset is None,
            r.variable_node_type is RecurseToBaseType,
            r.memory_location is Unknown,
            r.byte_size == 0,
            r.member_index is None,
            r.range_lower_bound == 0,
            r.range_upper_bound == 0,
            r.role is NonVariant,
    {
        Variable::new(None, None)
    }
}

/// The policy by which a new value replaces the current one: a valid value
/// always replaces, an error replaces a valid value, and an error arriving
/// on top of a non-valid value concatenates both messages.
pub open spec fn set_value_spec(current: ValueView, new_value: ValueView) -> ValueView {
    if !(new_value is Error) {
        new_value
    } else if !(current is Error) {
        new_value
    } else {
        ValueView::Error(value_view_text(current) + " : "@ + value_view_text(new_value))
    }
}

/// The variable `v` with only its value replaced by `val`.
pub open spec fn with_value(v: Variable, val: VariableValue) -> Variable {
    Variable { value: val, ..v }
}

/// `a` and `b` agree on every attribute except possibly the value.
pub open spec fn same_but_value(a: Variable, b: Variable) -> bool {
    with_value(a, VariableValue::Empty) == with_value(b, VariableValue::Empty)
}

impl Variable {
    /// A bare variable carrying only its debug-information offsets; every
    /// other attribute starts at its default.
    pub fn new(header_offset: Option<u64>, entries_offset: Option<u64>) -> (r: Variable)
        ensures
            r.variable_key == 0,
            r.parent_key is None,
            r.name is Unknown,
            r.value is Empty,
            r.source_location is None,
            r.variable_type is Unknown,
            r.unit_header_offset == header_offset,
            r.variable_unit_offset == entries_offset,
            r.variable_node_type is RecurseToBaseType,
            r.memory_location is Unknown,
            r.byte_size == 0,
            r.member_index is None,
            r.range_lower_bound == 0,
            r.range_upper_bound == 0,
            r.role is NonVariant,
    {
        Variable {
            variable_key: 0,
            parent_key: None,
            name: VariableName::Unknown,
            value: VariableValue::Empty,
            source_location: None,
            variable_type: VariableType::Unknown,
            unit_header_offset: header_offset,
            variable_unit_offset: entries_offset,
            variable_node_type: VariableNodeType::RecurseToBaseType,
            memory_location: VariableLocation::Unknown,
            byte_size: 0,
            member_index: None,
            range_lower_bound: 0,
            range_upper_bound: 0,
            role: VariantRole::NonVariant,
        }
    }

    /// Stores `new_value` as [`set_value_spec`] describes, so that error
    /// text already recorded on the variable is kept.
    pub fn set_value(&mut self, new_value: VariableValue)
        ensures
            same_but_value(*old(self), *final(self)),
            final(self).value@ == set_value_spec(old(self).value@, new_value@),
    {
        if new_value.is_valid() {
            self.value = new_value;
        } else if self.value.is_valid() {
            self.value = new_value;
        } else {
            let mut text = self.value.render();
            text.append(" : ");
            let new_text = new_value.render();
            text.append(new_text.as_str());
            self.value = VariableValue::Error(text);
        }
    }

    /// The variable's name marks it as a tuple member: `Named` text that
    /// begins with two underscores followed by a decimal digit.
    pub open spec fn is_indexed_spec(&self) -> bool {
        match self.name {
            VariableName::Named(n) => n@.len() >= 3 && n@[0] == '_' && n@[1] == '_' && is_dec_digit(
                n@[2],
            ),
            _ => false,
        }
    }

    /// The variable's name marks it as a tuple member: `Named` text that
    /// begins with two underscores followed by a decimal digit.
    pub fn is_indexed(&self) -> (r: bool)
        ensures
            r == self.is_indexed_spec(),
    {
        match &self.name {
            VariableName::Named(n) => {
                proof {
                    reveal_strlit("__");
                }
                if str_starts_with(n.as_str(), "__") {
                    let len = vstd::string::StrSliceExecFns::unicode_len(n.as_str());
                    if len >= 3 {
                        let c = vstd::string::StrSliceExecFns::get_char(n.as_str(), 2);
                        let code = c as u32;
                        proof {
                            assert(n@.subrange(0, 2)[0] == n@[0]);
                            assert(n@.subrange(0, 2)[1] == n@[1]);
                        }
                        48 <= code && code <= 57
                    } else {
                        false
                    }
                } else {
                    proof {
                        if n@.len() >= 3 && n@[0] == '_' && n@[1] == '_' {
                            assert(n@.subrange(0, 2) =~= "__"@);
                        }
                    }
                    false
                }
            },
            _ => false,
        }
    }

    /// The variable's value is valid or still empty, not an error.
    pub fn is_valid(&self) -> (r: bool)
        ensures
            r == self.value.is_valid_spec(),
    {
        self.value.is_valid()
    }
}

} // verus!
