//! The value extractor: how a variable's value is read from target memory
//! through the scalar codec, how edited values are written back, and how the
//! cache stores the result.

use vstd::prelude::*;
use vstd::string::{StrSliceExecFns, StringExecFns};
use vstd::utf8::{decode_utf8, valid_utf8};

use crate::cache::{cache_contains_key, children_of, index_of_key, VariableCache};
use crate::error::DebugError;
use crate::location::{location_debug_spec, no_address_text_spec, VariableLocation};
use crate::memory::{bytes_at, range_in_mem, MemoryInterface};
use crate::numfmt::{hex_str_fixed, parse_unsigned, u64_to_hex_fixed};
use crate::scalar::{decode_text_spec, scalar_from_name_spec, ScalarType};
use crate::types::{ValueView, VariableName, VariableValue};
use crate::variable::{same_but_value, Variable};
use crate::vtype::{type_display_spec, VariableType};

verus! {

/// `n` is the `Named` tag carrying exactly the text `text`.
pub open spec fn name_is_named(n: VariableName, text: Seq<char>) -> bool {
    match n {
        VariableName::Named(s) => s@ == text,
        _ => false,
    }
}

/// The first variable of `children` whose name is `Named(text)`, if any.
pub open spec fn first_named(children: Seq<Variable>, text: Seq<char>) -> Option<Variable>
    decreases children.len(),
{
    if children.len() == 0 {
        None
    } else if name_is_named(children.first().name, text) {
        Some(children.first())
    } else {
        first_named(children.drop_first(), text)
    }
}

/// Skipping children that do not match leaves the first match unchanged.
proof fn lemma_first_named_skip(children: Seq<Variable>, text: Seq<char>, i: int)
    requires
        0 <= i <= children.len(),
        forall|j: int| 0 <= j < i ==> !name_is_named(#[trigger] children[j].name, text),
    ensures
        first_named(children, text) == first_named(children.skip(i), text),
    decreases i,
{
    if i > 0 {
        lemma_first_named_skip(children, text, i - 1);
        let rest = children.skip(i - 1);
        assert(rest.first() == children[i - 1]);
        assert(rest.drop_first() =~= children.skip(i));
    } else {
        assert(children.skip(0) =~= children);
    }
}

/// The placeholder text of a variable whose children are loaded lazily: its
/// type's pretty name, an `@` sign, and its location (a memory address in
/// upper-case hexadecimal).
pub open spec fn deferred_text_spec(v: Variable) -> Seq<char> {
    type_display_spec(v.variable_type) + " @ "@ + (match v.memory_location {
        VariableLocation::Address(a) => "0x"@ + hex_str_fixed(a as nat, 8, true),
        other => location_debug_spec(other),
    })
}

/// What extracting a scalar of type `t` at `loc` from the memory `m`
/// yields: the decoded text, a decode failure for a location without an
/// address, or `None` when the memory range cannot be read (the value then
/// records the transport failure).
pub open spec fn scalar_read_outcome(t: ScalarType, loc: VariableLocation, m: Map<u32, u8>) -> Option<ValueView> {
    match loc {
        VariableLocation::Address(a) => {
            if range_in_mem(m, a, t.width_spec()) {
                Some(ValueView::Valid(decode_text_spec(t, bytes_at(m, a, t.width_spec()))))
            } else {
                None
            }
        },
        other => Some(ValueView::Error("DecodeFailed: "@ + no_address_text_spec(other))),
    }
}

/// What extracting a `&str` yields. The codec reads two already-interned
/// children: `length` gives the byte count (zero if absent or unparsable)
/// and the first child of `data_ptr` gives the address. At most 200 bytes
/// are read and decoded as UTF-8.
pub open spec fn str_read_outcome(v: Variable, m: Map<u32, u8>, entries: Seq<Variable>) -> Option<ValueView> {
    let children = children_of(entries, Some(v.variable_key));
    if children.len() == 0 {
        Some(ValueView::Valid("Error: Failed to evaluate &str value"@))
    } else {
        let length = match first_named(children, "length"@) {
            Some(lc) => match lc.value@ {
                ValueView::Valid(t) => match parse_unsigned(t, usize::MAX as nat) {
                    Some(n) => n,
                    None => 0,
                },
                _ => 0,
            },
            None => 0,
        };
        let address_or_failure: Result<u32, VariableLocation> = match first_named(
            children,
            "data_ptr"@,
        ) {
            Some(pc) => {
                let pointees = children_of(entries, Some(pc.variable_key));
                if pointees.len() == 0 {
                    Ok(0u32)
                } else {
                    match pointees.first().memory_location {
                        VariableLocation::Address(a) => Ok(a),
                        other => Err(other),
                    }
                }
            },
            None => Ok(0u32),
        };
        match address_or_failure {
            Err(bad_location) => Some(
                ValueView::Error("DecodeFailed: "@ + no_address_text_spec(bad_location)),
            ),
            Ok(address) => {
                if address == 0 {
                    Some(ValueView::Valid("Error: Failed to determine &str memory location"@))
                } else {
                    let count: nat = if length > 200 {
                        200
                    } else {
                        length
                    };
                    if range_in_mem(m, address, count) {
                        let bytes = bytes_at(m, address, count);
                        if valid_utf8(bytes) {
                            Some(ValueView::Valid(decode_utf8(bytes)))
                        } else {
                            Some(
                                ValueView::Error(
                                    "DecodeFailed: the string bytes are not valid UTF-8"@,
                                ),
                            )
                        }
                    } else {
                        None
                    }
                }
            },
        }
    }
}

/// What extracting the value of `v` from the memory `m` yields, with the
/// cache entries `entries` available for child lookups. `Some` pins the
/// value exactly; `None` means a transport read failed and the value records
/// the failure text the transport returned.
pub open spec fn extract_outcome(v: Variable, m: Map<u32, u8>, entries: Seq<Variable>) -> Option<ValueView> {
    if !(v.value@ is Empty) || v.memory_location is Value || !v.memory_location.valid_spec()
        || v.variable_type is Unknown {
        Some(v.value@)
    } else if v.variable_node_type.is_deferred_spec() {
        Some(ValueView::Valid(deferred_text_spec(v)))
    } else {
        match v.variable_type {
            VariableType::Base(name) => {
                if v.memory_location is Unknown {
                    Some(ValueView::Empty)
                } else if name@ == "!"@ {
                    Some(ValueView::Valid("<Never returns>"@))
                } else if name@ == "()"@ {
                    Some(ValueView::Valid("()"@))
                } else {
                    match scalar_from_name_spec(name@) {
                        Some(t) => scalar_read_outcome(t, v.memory_location, m),
                        None => {
                            if name@ == "None"@ {
                                Some(ValueView::Valid("None"@))
                            } else {
                                Some(ValueView::Empty)
                            }
                        },
                    }
                }
            },
            VariableType::Struct(struct_name) => {
                if struct_name@ == "&str"@ {
                    str_read_outcome(v, m, entries)
                } else {
                    Some(ValueView::Empty)
                }
            },
            _ => Some(ValueView::Empty),
        }
    }
}

/// The user-visible rendering of one variable, nested `indentation` levels
/// deep. A nested call opens with a newline and one tab per level; a
/// top-level call (indentation zero) opens bare. `fuel` bounds the
/// recursion through the parent/child tree; one more than the number of
/// cache entries is enough for every tree, and an exhausted fuel renders
/// nothing (reachable only through a parent cycle, on which rendering
/// could not terminate at all).
pub open spec fn formatted_spec(
    entries: Seq<Variable>,
    v: Variable,
    indentation: nat,
    show_name: bool,
    fuel: nat,
) -> Seq<char>
    decreases fuel, 1int,
{
    let lf: Seq<char> = if indentation == 0 {
        Seq::empty()
    } else {
        seq!['\n']
    };
    let pad = crate::strutil::tab_seq(indentation);
    if fuel == 0 {
        Seq::empty()
    } else if !(v.value@ is Empty) {
        if show_name {
            lf + pad + crate::types::name_text_spec(v.name) + ": "@ + type_display_spec(
                v.variable_type,
            ) + " = "@ + crate::types::value_view_text(v.value@)
        } else {
            lf + pad + crate::types::value_view_text(v.value@)
        }
    } else if v.name is AnonymousNamespace || v.name is Namespace {
        Seq::empty()
    } else {
        let children = children_of(entries, Some(v.variable_key));
        match v.variable_type {
            VariableType::Pointer(_) => lf + pad + (
            if children.len() > 0 {
                formatted_spec(entries, children.first(), indentation + 1, true, (fuel - 1) as nat)
            } else {
                "Unable to resolve referenced variable value"@
            }),
            VariableType::Array { entry_type, count } => lf + pad + crate::types::name_text_spec(
                v.name,
            ) + ": "@ + type_display_spec(v.variable_type) + " = ["@ + format_list_spec(
                entries,
                children,
                indentation + 1,
                false,
                (fuel - 1) as nat,
                true,
            ) + lf + pad + "]"@,
            VariableType::Struct(struct_name) => {
                if crate::strutil::is_prefix_of("Ok"@, struct_name@) || crate::strutil::is_prefix_of(
                    "Err"@,
                    struct_name@,
                ) {
                    lf + pad + crate::types::name_text_spec(v.name) + ": "@ + type_display_spec(
                        v.variable_type,
                    ) + " = "@ + type_display_spec(v.variable_type) + "("@ + format_list_spec(
                        entries,
                        children,
                        indentation + 1,
                        false,
                        (fuel - 1) as nat,
                        false,
                    ) + lf + pad + ")"@
                } else {
                    formatted_generic_spec(entries, v, indentation, show_name, fuel)
                }
            },
            _ => formatted_generic_spec(entries, v, indentation, show_name, fuel),
        }
    }
}

/// The rendering of a structured variable without special treatment: just
/// the name when it has no children (the idiomatic `None`), a tuple form
/// when its first child is named `__0…`, and a braced struct form with
/// named members otherwise.
pub open spec fn formatted_generic_spec(
    entries: Seq<Variable>,
    v: Variable,
    indentation: nat,
    show_name: bool,
    fuel: nat,
) -> Seq<char>
    decreases fuel, 0int,
{
    let lf: Seq<char> = if indentation == 0 {
        Seq::empty()
    } else {
        seq!['\n']
    };
    let pad = crate::strutil::tab_seq(indentation);
    let disp = type_display_spec(v.variable_type);
    let children = children_of(entries, Some(v.variable_key));
    if fuel == 0 {
        Seq::empty()
    } else if children.len() == 0 {
        lf + pad + crate::types::name_text_spec(v.name)
    } else {
        let tuple_like = match children.first().name {
            VariableName::Named(n) => crate::strutil::is_prefix_of("__0"@, n@),
            _ => false,
        };
        if tuple_like {
            lf + pad + crate::types::name_text_spec(v.name) + ": "@ + disp + "("@
                + type_display_spec(children.first().variable_type) + ") = "@ + disp + "("@
                + format_list_spec(entries, children, indentation + 1, false, (fuel - 1) as nat, true)
                + lf + pad + ")"@
        } else {
            (if show_name {
                lf + pad + crate::types::name_text_spec(v.name) + ": "@ + disp + " = "@ + disp
                    + " {"@
            } else {
                lf + pad + disp + " {"@
            }) + format_list_spec(entries, children, indentation + 1, true, (fuel - 1) as nat, true)
                + lf + pad + "}"@
        }
    }
}

/// The renderings of a run of children, one after the other, separated by
/// `", "` when `commas` is set and by nothing otherwise (no separator
/// follows the last).
pub open spec fn format_list_spec(
    entries: Seq<Variable>,
    children: Seq<Variable>,
    indentation: nat,
    show_names: bool,
    fuel: nat,
    commas: bool,
) -> Seq<char>
    decreases fuel, children.len() + 2,
{
    if children.len() == 0 {
        Seq::empty()
    } else if children.len() == 1 {
        formatted_spec(entries, children.first(), indentation, show_names, fuel)
    } else {
        formatted_spec(entries, children.first(), indentation, show_names, fuel) + (
        if commas {
            ", "@
        } else {
            Seq::<char>::empty()
        }) + format_list_spec(entries, children.drop_first(), indentation, show_names, fuel, commas)
    }
}

/// The user-visible string for a variable: its own value when one is set,
/// nothing for namespaces, a compound rendering built from its children,
/// and diagnostic text when none of these applies.
pub open spec fn get_value_spec(entries: Seq<Variable>, v: Variable) -> Seq<char> {
    if !(v.value@ is Empty) {
        crate::types::value_view_text(v.value@)
    } else if v.name is AnonymousNamespace || v.name is Namespace {
        Seq::empty()
    } else {
        let children = children_of(entries, Some(v.variable_key));
        if children.len() != 0 {
            formatted_spec(entries, v, 0, false, entries.len() + 1)
        } else if v.variable_type is Unknown || !v.memory_location.valid_spec() {
            if v.variable_node_type.is_deferred_spec() {
                crate::vtype::type_debug_spec(v.variable_type)
            } else {
                "Error: This is a bug! Attempted to evaluate a Variable with no type or no memory location"@
            }
        } else if (match v.variable_type {
            VariableType::Struct(n) => n@ == "None"@,
            _ => false,
        }) {
            "None"@
        } else {
            "Unimplemented: Evaluate type "@ + crate::vtype::type_debug_spec(v.variable_type)
                + " of ("@ + crate::numfmt::dec_str(v.byte_size as nat) + " bytes) at location 0x"@
                + crate::location::location_hex_debug_spec(v.memory_location)
        }
    }
}

/// Relies on `String::from_utf8`: it accepts exactly the byte strings that
/// are valid UTF-8 and decodes them to the scalar values they encode.
#[verifier::external_body]
fn string_from_utf8(bytes: Vec<u8>) -> (r: Option<String>)
    ensures
        r is Some <==> valid_utf8(bytes@),
        r is Some ==> r.unwrap()@ == decode_utf8(bytes@),
{
    match String::from_utf8(bytes) {
        Ok(s) => Some(s),
        Err(_) => None,
    }
}

/// Finds the position of the first child whose name is `Named(wanted)`.
fn find_named(children: &Vec<Variable>, wanted: &str) -> (r: Option<usize>)
    ensures
        match r {
            Some(i) => i < children@.len() && first_named(children@, wanted@) == Some(
                children@[i as int],
            ),
            None => first_named(children@, wanted@) is None,
        },
{
    let n = children.len();
    let mut i: usize = 0;
    while i < n
        invariant
            0 <= i <= n,
            n == children@.len(),
            forall|j: int| 0 <= j < i ==> !name_is_named(#[trigger] children@[j].name, wanted@),
        decreases n - i,
    {
        let hit = match &children[i].name {
            VariableName::Named(s) => crate::strutil::str_eq(s.as_str(), wanted),
            _ => false,
        };
        if hit {
            proof {
                lemma_first_named_skip(children@, wanted@, i as int);
                assert(children@.skip(i as int).first() == children@[i as int]);
            }
            return Some(i);
        }
        i = i + 1;
    }
    proof {
        lemma_first_named_skip(children@, wanted@, n as int);
        assert(children@.skip(n as int).len() == 0);
    }
    None
}

impl Variable {
    /// Resolves this variable's value from target memory: decodes base
    /// types and `&str` through the codec, shows a placeholder for deferred
    /// nodes, and records any failure as error text on the value itself, as
    /// [`extract_outcome`] describes.
    pub(crate) fn extract_value<M: MemoryInterface>(
        &mut self,
        core: &mut M,
        variable_cache: &VariableCache,
    )
        ensures
            final(core).mem() == old(core).mem(),
            same_but_value(*old(self), *final(self)),
            match extract_outcome(*old(self), old(core).mem(), variable_cache@) {
                Some(val) => final(self).value@ == val,
                None => final(self).value@ is Error,
            },
    {
        if !self.value.is_empty() {
            return;
        }
        if matches!(self.memory_location, VariableLocation::Value) {
            return;
        }
        if !self.memory_location.valid() {
            return;
        }
        if matches!(self.variable_type, VariableType::Unknown) {
            return;
        }
        if self.variable_node_type.is_deferred() {
            let mut text = self.variable_type.display();
            text.append(" @ ");
            match &self.memory_location {
                VariableLocation::Address(a) => {
                    text.append("0x");
                    let h = u64_to_hex_fixed(*a as u64, 8, true);
                    text.append(h.as_str());
                },
                other => {
                    let d = other.debug_text();
                    text.append(d.as_str());
                },
            }
            proof {
                assert(text@ =~= deferred_text_spec(*self));
            }
            self.value = VariableValue::Valid(text);
            return;
        }
        let outcome = match &self.variable_type {
            VariableType::Base(name) => {
                if matches!(self.memory_location, VariableLocation::Unknown) {
                    Some(VariableValue::Empty)
                } else if crate::strutil::str_eq(name.as_str(), "!") {
                    Some(VariableValue::Valid("<Never returns>".to_owned()))
                } else if crate::strutil::str_eq(name.as_str(), "()") {
                    Some(VariableValue::Valid("()".to_owned()))
                } else {
                    match ScalarType::from_type_name(name.as_str()) {
                        Some(t) => Some(read_scalar_value(t, &self.memory_location, core)),
                        None => {
                            if crate::strutil::str_eq(name.as_str(), "None") {
                                Some(VariableValue::Valid("None".to_owned()))
                            } else {
                                Some(VariableValue::Empty)
                            }
                        },
                    }
                }
            },
            VariableType::Struct(struct_name) => {
                if crate::strutil::str_eq(struct_name.as_str(), "&str") {
                    None
                } else {
                    Some(VariableValue::Empty)
                }
            },
            _ => Some(VariableValue::Empty),
        };
        match outcome {
            Some(value) => {
                self.value = value;
            },
            None => {
                let value = read_str_value(self, core, variable_cache);
                self.value = value;
            },
        }
    }
}

impl Variable {
    /// Renders this variable for the user, as [`formatted_spec`]
    /// describes: its value when one is set, otherwise a compound form
    /// built from its children, nested lines indented by one tab per
    /// level.
    pub fn formatted_variable_value(
        &self,
        variable_cache: &VariableCache,
        indentation: usize,
        show_name: bool,
    ) -> (r: String)
        requires
            indentation as nat + variable_cache@.len() + 1 <= usize::MAX as nat,
        ensures
            r@ == formatted_spec(
                variable_cache@,
                *self,
                indentation as nat,
                show_name,
                variable_cache@.len() + 1,
            ),
    {
        let fuel: u128 = variable_cache.entry_count() as u128 + 1;
        self.formatted_with_fuel(variable_cache, indentation, show_name, fuel)
    }

    /// Renders this variable with an explicit recursion budget.
    fn formatted_with_fuel(
        &self,
        variable_cache: &VariableCache,
        indentation: usize,
        show_name: bool,
        fuel: u128,
    ) -> (r: String)
        requires
            indentation as nat + fuel as nat <= usize::MAX as nat,
        ensures
            r@ == formatted_spec(
                variable_cache@,
                *self,
                indentation as nat,
                show_name,
                fuel as nat,
            ),
        decreases fuel, 1int,
    {
        if fuel == 0 {
            return String::new();
        }
        let mut out = String::new();
        if indentation > 0 {
            out.append("\n");
            proof {
                reveal_strlit("\n");
            }
        }
        let pad = crate::strutil::tabs(indentation);
        out.append(pad.as_str());
        let ghost lf: Seq<char> = if indentation == 0 {
            Seq::empty()
        } else {
            seq!['\n']
        };
        proof {
            assert(out@ =~= lf + crate::strutil::tab_seq(indentation as nat));
        }
        if !self.value.is_empty() {
            if show_name {
                let name = self.name.display_text();
                out.append(name.as_str());
                out.append(": ");
                let disp = self.variable_type.display();
                out.append(disp.as_str());
                out.append(" = ");
                let value = self.value.render();
                out.append(value.as_str());
            } else {
                let value = self.value.render();
                out.append(value.as_str());
            }
            proof {
                assert(out@ =~= formatted_spec(
                    variable_cache@,
                    *self,
                    indentation as nat,
                    show_name,
                    fuel as nat,
                ));
            }
            return out;
        }
        if matches!(self.name, VariableName::AnonymousNamespace) || matches!(
            self.name,
            VariableName::Namespace(_),
        ) {
            return String::new();
        }
        let children = match variable_cache.get_children(Some(self.variable_key)) {
            Ok(c) => c,
            Err(_) => {
                proof {
                    assert(false);
                }
                Vec::new()
            },
        };
        match &self.variable_type {
            VariableType::Pointer(_) => {
                if children.len() > 0 {
                    let nested = children[0].formatted_with_fuel(
                        variable_cache,
                        indentation + 1,
                        true,
                        fuel - 1,
                    );
                    out.append(nested.as_str());
                } else {
                    out.append("Unable to resolve referenced variable value");
                }
                proof {
                    assert(out@ =~= formatted_spec(
                        variable_cache@,
                        *self,
                        indentation as nat,
                        show_name,
                        fuel as nat,
                    ));
                }
                out
            },
            VariableType::Array { .. } => {
                let name = self.name.display_text();
                out.append(name.as_str());
                out.append(": ");
                let disp = self.variable_type.display();
                out.append(disp.as_str());
                out.append(" = [");
                let body = format_children(
                    variable_cache,
                    &children,
                    0,
                    indentation + 1,
                    false,
                    fuel - 1,
                    true,
                );
                out.append(body.as_str());
                if indentation > 0 {
                    out.append("\n");
                    proof {
                        reveal_strlit("\n");
                    }
                }
                out.append(pad.as_str());
                out.append("]");
                proof {
                    assert(children@.skip(0) =~= children@);
                    assert(out@ =~= formatted_spec(
                        variable_cache@,
                        *self,
                        indentation as nat,
                        show_name,
                        fuel as nat,
                    ));
                }
                out
            },
            VariableType::Struct(struct_name) => {
                let ok_like = crate::strutil::str_starts_with(struct_name.as_str(), "Ok");
                let err_like = crate::strutil::str_starts_with(struct_name.as_str(), "Err");
                if ok_like || err_like {
                    let name = self.name.display_text();
                    out.append(name.as_str());
                    out.append(": ");
                    let disp = self.variable_type.display();
                    out.append(disp.as_str());
                    out.append(" = ");
                    out.append(disp.as_str());
                    out.append("(");
                    let body = format_children(
                        variable_cache,
                        &children,
                        0,
                        indentation + 1,
                        false,
                        fuel - 1,
                        false,
                    );
                    out.append(body.as_str());
                    if indentation > 0 {
                        out.append("\n");
                        proof {
                            reveal_strlit("\n");
                        }
                    }
                    out.append(pad.as_str());
                    out.append(")");
                    proof {
                        assert(children@.skip(0) =~= children@);
                        assert(out@ =~= formatted_spec(
                            variable_cache@,
                            *self,
                            indentation as nat,
                            show_name,
                            fuel as nat,
                        ));
                    }
                    out
                } else {
                    self.formatted_generic(variable_cache, &children, indentation, show_name, fuel)
                }
            },
            _ => self.formatted_generic(variable_cache, &children, indentation, show_name, fuel),
        }
    }

    /// Renders a structured variable without special treatment, as
    /// [`formatted_generic_spec`] describes.
    fn formatted_generic(
        &self,
        variable_cache: &VariableCache,
        children: &Vec<Variable>,
        indentation: usize,
        show_name: bool,
        fuel: u128,
    ) -> (r: String)
        requires
            children@ == children_of(variable_cache@, Some(self.variable_key)),
            indentation as nat + fuel as nat <= usize::MAX as nat,
            fuel >= 1,
        ensures
            r@ == formatted_generic_spec(
                variable_cache@,
                *self,
                indentation as nat,
                show_name,
                fuel as nat,
            ),
        decreases fuel, 0int,
    {
        let mut out = String::new();
        if indentation > 0 {
            out.append("\n");
            proof {
                reveal_strlit("\n");
            }
        }
        let pad = crate::strutil::tabs(indentation);
        out.append(pad.as_str());
        let ghost lf: Seq<char> = if indentation == 0 {
            Seq::empty()
        } else {
            seq!['\n']
        };
        proof {
            assert(out@ =~= lf + crate::strutil::tab_seq(indentation as nat));
        }
        if children.len() == 0 {
            let name = self.name.display_text();
            out.append(name.as_str());
            proof {
                assert(out@ =~= formatted_generic_spec(
                    variable_cache@,
                    *self,
                    indentation as nat,
                    show_name,
                    fuel as nat,
                ));
            }
            return out;
        }
        let tuple_like = match &children[0].name {
            VariableName::Named(n) => crate::strutil::str_starts_with(n.as_str(), "__0"),
            _ => false,
        };
        let disp = self.variable_type.display();
        if tuple_like {
            let name = self.name.display_text();
            out.append(name.as_str());
            out.append(": ");
            out.append(disp.as_str());
            out.append("(");
            let child_disp = children[0].variable_type.display();
            out.append(child_disp.as_str());
            out.append(") = ");
            out.append(disp.as_str());
            out.append("(");
            let body = format_children(
                variable_cache,
                children,
                0,
                indentation + 1,
                false,
                fuel - 1,
                true,
            );
            out.append(body.as_str());
            if indentation > 0 {
                out.append("\n");
                proof {
                    reveal_strlit("\n");
                }
            }
            out.append(pad.as_str());
            out.append(")");
        } else {
            if show_name {
                let name = self.name.display_text();
                out.append(name.as_str());
                out.append(": ");
                out.append(disp.as_str());
                out.append(" = ");
                out.append(disp.as_str());
                out.append(" {");
            } else {
                out.append(disp.as_str());
                out.append(" {");
            }
            let body = format_children(
                variable_cache,
                children,
                0,
                indentation + 1,
                true,
                fuel - 1,
                true,
            );
            out.append(body.as_str());
            if indentation > 0 {
                out.append("\n");
                proof {
                    reveal_strlit("\n");
                }
            }
            out.append(pad.as_str());
            out.append("}");
        }
        proof {
            assert(children@.skip(0) =~= children@);
            assert(out@ =~= formatted_generic_spec(
                variable_cache@,
                *self,
                indentation as nat,
                show_name,
                fuel as nat,
            ));
        }
        out
    }

    /// The user-visible string for this variable, as [`get_value_spec`]
    /// describes.
    pub fn get_value(&self, variable_cache: &VariableCache) -> (r: String)
        requires
            variable_cache@.len() + 1 <= usize::MAX as nat,
        ensures
            r@ == get_value_spec(variable_cache@, *self),
    {
        if !self.value.is_empty() {
            return self.value.render();
        }
        if matches!(self.name, VariableName::AnonymousNamespace) || matches!(
            self.name,
            VariableName::Namespace(_),
        ) {
            return String::new();
        }
        let has_children = match variable_cache.has_children(self) {
            Ok(h) => h,
            Err(_) => {
                proof {
                    assert(false);
                }
                false
            },
        };
        if has_children {
            self.formatted_variable_value(variable_cache, 0, false)
        } else if matches!(self.variable_type, VariableType::Unknown)
            || !self.memory_location.valid() {
            if self.variable_node_type.is_deferred() {
                self.variable_type.debug_text()
            } else {
                "Error: This is a bug! Attempted to evaluate a Variable with no type or no memory location".to_owned()
            }
        } else if self.variable_type.is_struct_named("None") {
            "None".to_owned()
        } else {
            let mut out = "Unimplemented: Evaluate type ".to_owned();
            let dbg = self.variable_type.debug_text();
            out.append(dbg.as_str());
            out.append(" of (");
            let size = crate::numfmt::u64_to_decimal(self.byte_size);
            out.append(size.as_str());
            out.append(" bytes) at location 0x");
            let loc = self.memory_location.hex_debug_text();
            out.append(loc.as_str());
            proof {
                assert(out@ =~= get_value_spec(variable_cache@, *self));
            }
            out
        }
    }
}

/// The variable's name is `Named` text beginning with `*`: the
/// dereferenced form of a pointer, whose write-back is not supported.
pub open spec fn name_starts_star(v: Variable) -> bool {
    match v.name {
        VariableName::Named(n) => crate::strutil::is_prefix_of("*"@, n@),
        _ => false,
    }
}

/// The up-front requirements of a value write-back: a value that is not an
/// error, a known type, and a valid location.
pub open spec fn update_preconditions(v: Variable) -> bool {
    &&& !(v.value@ is Error)
    &&& !(v.variable_type is Unknown)
    &&& v.memory_location.valid_spec()
}

/// What [`Variable::update_value`] promises, relating the memory and the
/// cache before and after to the variable `v`, the entered text
/// `new_value` and the result.
///
/// Failed preconditions give [`DebugError::Unwritable`]; a pointer
/// dereference gives [`DebugError::UnsupportedPointerWrite`]; a type
/// outside the registry gives [`DebugError::UnsupportedType`] (a string,
/// being read-only, gives [`DebugError::UnsupportedWrite`]); text that
/// does not parse gives [`DebugError::DecodeFailed`]; a location without
/// an address gives [`DebugError::Unwritable`]; a failed transport write
/// gives [`DebugError::MemoryIO`]. All of these leave memory and cache
/// unchanged. Otherwise the encoded bytes are written to the variable's
/// address and the variable is re-interned carrying `Valid(new_value)`, so
/// that readers see the write immediately; no partial update ever reaches
/// the cache.
pub open spec fn update_value_post(
    v: Variable,
    new_value: Seq<char>,
    pre_mem: Map<u32, u8>,
    post_mem: Map<u32, u8>,
    pre_cache: Seq<Variable>,
    pre_mark: i64,
    post_cache: Seq<Variable>,
    post_mark: i64,
    r: Result<String, DebugError>,
) -> bool {
    let unchanged = post_mem == pre_mem && post_cache == pre_cache && post_mark == pre_mark;
    if !update_preconditions(v) {
        r == Result::<String, DebugError>::Err(DebugError::Unwritable) && unchanged
    } else if name_starts_star(v) {
        r == Result::<String, DebugError>::Err(DebugError::UnsupportedPointerWrite) && unchanged
    } else {
        match v.variable_type {
            VariableType::Base(name) => {
                match scalar_from_name_spec(name@) {
                    Some(t) => {
                        match crate::scalar::encode_bytes_spec(t, new_value) {
                            Some(bytes) => {
                                match v.memory_location {
                                    VariableLocation::Address(a) => {
                                        if range_in_mem(pre_mem, a, bytes.len()) {
                                            &&& post_mem == crate::memory::mem_written(
                                                pre_mem,
                                                a,
                                                bytes,
                                            )
                                            &&& update_cache_post(
                                                v,
                                                new_value,
                                                pre_cache,
                                                pre_mark,
                                                post_cache,
                                                post_mark,
                                                r,
                                            )
                                        } else {
                                            (match r {
                                                Result::Err(DebugError::MemoryIO(_)) => true,
                                                _ => false,
                                            }) && unchanged
                                        }
                                    },
                                    _ => r == Result::<String, DebugError>::Err(
                                        DebugError::Unwritable,
                                    ) && unchanged,
                                }
                            },
                            None => (match r {
                                Result::Err(DebugError::DecodeFailed(m)) => m@
                                    == "could not parse the supplied value: "@ + new_value,
                                _ => false,
                            }) && unchanged,
                        }
                    },
                    None => (match r {
                        Result::Err(DebugError::UnsupportedType(m)) => m@ == name@,
                        _ => false,
                    }) && unchanged,
                }
            },
            VariableType::Struct(struct_name) => {
                if struct_name@ == "&str"@ {
                    r == Result::<String, DebugError>::Err(DebugError::UnsupportedWrite)
                        && unchanged
                } else {
                    (match r {
                        Result::Err(DebugError::UnsupportedType(m)) => m@ == type_display_spec(
                            v.variable_type,
                        ),
                        _ => false,
                    }) && unchanged
                }
            },
            _ => (match r {
                Result::Err(DebugError::UnsupportedType(m)) => m@ == type_display_spec(
                    v.variable_type,
                ),
                _ => false,
            }) && unchanged,
        }
    }
}

/// How the cache changes when a write-back re-interns the variable: the
/// stored entry keeps every attribute of `v` and carries exactly
/// `Valid(new_value)`; structural failures of the re-intern surface and
/// leave the cache unchanged (the memory write has already happened).
pub open spec fn update_cache_post(
    v: Variable,
    new_value: Seq<char>,
    pre_cache: Seq<Variable>,
    pre_mark: i64,
    post_cache: Seq<Variable>,
    post_mark: i64,
    r: Result<String, DebugError>,
) -> bool {
    let parent_ok = match v.parent_key {
        Some(p) => cache_contains_key(pre_cache, p),
        None => true,
    };
    let is_update = v.variable_key != 0;
    let known = !is_update || cache_contains_key(pre_cache, v.variable_key);
    if !parent_ok {
        &&& r == Result::<String, DebugError>::Err(DebugError::BadParent(v.parent_key.unwrap()))
        &&& post_cache == pre_cache
        &&& post_mark == pre_mark
    } else if !known {
        &&& r == Result::<String, DebugError>::Err(DebugError::UnknownKey(v.variable_key))
        &&& post_cache == pre_cache
        &&& post_mark == pre_mark
    } else if !is_update {
        &&& post_mark == pre_mark + 1
        &&& r is Ok && r.unwrap()@ == new_value
        &&& exists|stored: Variable|
            {
                &&& same_but_value(
                    Variable { variable_key: pre_mark, parent_key: v.parent_key, ..v },
                    stored,
                )
                &&& stored.value@ == crate::types::ValueView::Valid(new_value)
                &&& post_cache == #[trigger] pre_cache.push(stored)
            }
    } else {
        &&& post_mark == pre_mark
        &&& r is Ok && r.unwrap()@ == new_value
        &&& exists|stored: Variable|
            {
                &&& same_but_value(v, stored)
                &&& stored.value@ == crate::types::ValueView::Valid(new_value)
                &&& post_cache == #[trigger] pre_cache.update(
                    index_of_key(pre_cache, v.variable_key),
                    stored,
                )
            }
    }
}

/// Law: a value written back through the codec reads back as itself. When
/// `text` encodes under the scalar type registered for the variable's base
/// type and the encoded bytes are written at the variable's address, a
/// fresh extraction of that variable from the written memory yields a
/// valid value again: the canonical decimal text of the number that was
/// parsed, and for booleans and characters the entered text itself.
pub proof fn lemma_update_then_extract(
    t: ScalarType,
    text: Seq<char>,
    v: Variable,
    m: Map<u32, u8>,
    address: u32,
    entries: Seq<Variable>,
    name: Seq<char>,
)
    requires
        scalar_from_name_spec(name) == Some(t),
        crate::scalar::encode_bytes_spec(t, text) is Some,
        v.value@ is Empty,
        (match v.variable_type {
            VariableType::Base(n) => n@ == name,
            _ => false,
        }),
        v.memory_location == VariableLocation::Address(address),
        !v.variable_node_type.is_deferred_spec(),
        range_in_mem(m, address, crate::scalar::encode_bytes_spec(t, text).unwrap().len()),
    ensures
        ({
            let bytes = crate::scalar::encode_bytes_spec(t, text).unwrap();
            let written = crate::memory::mem_written(m, address, bytes);
            &&& extract_outcome(v, written, entries) == Some(
                ValueView::Valid(decode_text_spec(t, bytes)),
            )
            &&& (t is Bool || t is Char) ==> decode_text_spec(t, bytes) == text
            &&& t.is_unsigned_spec() ==> decode_text_spec(t, bytes) == crate::numfmt::dec_str(
                parse_unsigned(text, t.umax_spec()).unwrap(),
            )
            &&& t.is_signed_spec() ==> decode_text_spec(t, bytes)
                == crate::numfmt::dec_str_signed(
                crate::numfmt::parse_signed(text, t.smin_spec(), t.smax_spec()).unwrap(),
            )
        }),
{
    let bytes = crate::scalar::encode_bytes_spec(t, text).unwrap();
    let written = crate::memory::mem_written(m, address, bytes);
    crate::scalar::lemma_scalar_value_round_trip(t, text);
    crate::memory::lemma_write_read_back(m, address, bytes);
    reveal_strlit("!");
    reveal_strlit("()");
    reveal_strlit("bool");
    reveal_strlit("char");
    reveal_strlit("i8");
    reveal_strlit("i16");
    reveal_strlit("i32");
    reveal_strlit("i64");
    reveal_strlit("i128");
    reveal_strlit("isize");
    reveal_strlit("u8");
    reveal_strlit("u16");
    reveal_strlit("u32");
    reveal_strlit("u64");
    reveal_strlit("u128");
    reveal_strlit("usize");
    assert(name == "bool"@ || name == "char"@ || name == "i8"@ || name == "i16"@ || name
        == "i32"@ || name == "i64"@ || name == "i128"@ || name == "isize"@ || name == "u8"@ || name
        == "u16"@ || name == "u32"@ || name == "u64"@ || name == "u128"@ || name == "usize"@);
    assert("!"@.len() == 1 && "()"@.len() == 2);
    assert("()"@[0] == '(' && "i8"@[0] == 'i' && "u8"@[0] == 'u');
    assert(name != "!"@ && name != "()"@);
    assert(extract_outcome(v, written, entries) == scalar_read_outcome(
        t,
        v.memory_location,
        written,
    ));
}

impl Variable {
    /// Writes an edited value back to target memory and re-interns the
    /// variable, as [`update_value_post`] describes. Only base data types
    /// of the scalar registry can be written; on success the entered text
    /// is returned and readers of the cache see it immediately.
    pub fn update_value<M: MemoryInterface>(
        &self,
        core: &mut M,
        variable_cache: &mut VariableCache,
        new_value: String,
    ) -> (r: Result<String, DebugError>)
        requires
            old(variable_cache).wf(),
            self.variable_key == 0 ==> old(variable_cache).next_key_spec() < i64::MAX,
        ensures
            final(variable_cache).wf(),
            update_value_post(
                *self,
                new_value@,
                old(core).mem(),
                final(core).mem(),
                old(variable_cache)@,
                old(variable_cache).next_key_spec(),
                final(variable_cache)@,
                final(variable_cache).next_key_spec(),
                r,
            ),
    {
        if !self.is_valid() || matches!(self.variable_type, VariableType::Unknown)
            || !self.memory_location.valid() {
            return Err(DebugError::Unwritable);
        }
        let starred = match &self.name {
            VariableName::Named(n) => crate::strutil::str_starts_with(n.as_str(), "*"),
            _ => false,
        };
        if starred {
            return Err(DebugError::UnsupportedPointerWrite);
        }
        match &self.variable_type {
            VariableType::Base(name) => {
                match ScalarType::from_type_name(name.as_str()) {
                    Some(t) => {
                        match crate::scalar::encode_scalar(t, new_value.as_str()) {
                            Some(bytes) => {
                                match &self.memory_location {
                                    VariableLocation::Address(a) => {
                                        match core.write_bytes(*a, &bytes) {
                                            Ok(_) => {
                                                let mut to_cache = self.clone();
                                                to_cache.value = VariableValue::Valid(
                                                    new_value.clone(),
                                                );
                                                let ghost candidate = to_cache;
                                                match variable_cache.cache_variable(
                                                    self.parent_key,
                                                    to_cache,
                                                    core,
                                                ) {
                                                    Ok(stored) => {
                                                        proof {
                                                            assert(same_but_value(
                                                                candidate,
                                                                *self,
                                                            ));
                                                        }
                                                        Ok(new_value)
                                                    },
                                                    Err(e) => Err(e),
                                                }
                                            },
                                            Err(transport) => Err(DebugError::MemoryIO(transport)),
                                        }
                                    },
                                    _ => Err(DebugError::Unwritable),
                                }
                            },
                            None => {
                                let mut m = "could not parse the supplied value: ".to_owned();
                                m.append(new_value.as_str());
                                Err(DebugError::DecodeFailed(m))
                            },
                        }
                    },
                    None => Err(DebugError::UnsupportedType(name.clone())),
                }
            },
            VariableType::Struct(struct_name) => {
                if crate::strutil::str_eq(struct_name.as_str(), "&str") {
                    Err(DebugError::UnsupportedWrite)
                } else {
                    Err(DebugError::UnsupportedType(self.variable_type.display()))
                }
            },
            _ => Err(DebugError::UnsupportedType(self.variable_type.display())),
        }
    }
}

/// Renders the children of a variable from position `from` on, as
/// [`format_list_spec`] describes.
fn format_children(
    variable_cache: &VariableCache,
    children: &Vec<Variable>,
    from: usize,
    indentation: usize,
    show_names: bool,
    fuel: u128,
    commas: bool,
) -> (r: String)
    requires
        from <= children@.len(),
        indentation as nat + fuel as nat <= usize::MAX as nat,
    ensures
        r@ == format_list_spec(
            variable_cache@,
            children@.skip(from as int),
            indentation as nat,
            show_names,
            fuel as nat,
            commas,
        ),
    decreases fuel, children@.len() - from + 2,
{
    if from == children.len() {
        proof {
            assert(children@.skip(from as int).len() == 0);
        }
        return String::new();
    }
    let mut out = children[from].formatted_with_fuel(variable_cache, indentation, show_names, fuel);
    proof {
        assert(children@.skip(from as int).first() == children@[from as int]);
    }
    if from + 1 == children.len() {
        proof {
            assert(children@.skip(from as int).len() == 1);
        }
        return out;
    }
    if commas {
        out.append(", ");
    }
    let rest = format_children(
        variable_cache,
        children,
        from + 1,
        indentation,
        show_names,
        fuel,
        commas,
    );
    out.append(rest.as_str());
    proof {
        assert(children@.skip(from as int).drop_first() =~= children@.skip(from + 1));
        assert(out@ =~= format_list_spec(
            variable_cache@,
            children@.skip(from as int),
            indentation as nat,
            show_names,
            fuel as nat,
            commas,
        ));
    }
    out
}

/// Reads and decodes one scalar of type `t` from the variable's location,
/// as [`scalar_read_outcome`] describes; a failed transport read yields the
/// transport's failure text as an error value.
fn read_scalar_value<M: MemoryInterface>(
    t: ScalarType,
    loc: &VariableLocation,
    core: &mut M,
) -> (r: VariableValue)
    ensures
        final(core).mem() == old(core).mem(),
        match scalar_read_outcome(t, *loc, old(core).mem()) {
            Some(val) => r@ == val,
            None => r@ is Error,
        },
{
    match loc.memory_address() {
        Ok(address) => {
            match core.read_bytes(address, t.width()) {
                Ok(bytes) => VariableValue::Valid(crate::scalar::decode_scalar(t, &bytes)),
                Err(transport) => {
                    let e = DebugError::MemoryIO(transport);
                    VariableValue::Error(e.message())
                },
            }
        },
        Err(e) => VariableValue::Error(e.message()),
    }
}

/// Reads and decodes a `&str` through its `length` and `data_ptr` children,
/// as [`str_read_outcome`] describes; a failed transport read yields the
/// transport's failure text as an error value.
fn read_str_value<M: MemoryInterface>(
    v: &Variable,
    core: &mut M,
    variable_cache: &VariableCache,
) -> (r: VariableValue)
    ensures
        final(core).mem() == old(core).mem(),
        match str_read_outcome(*v, old(core).mem(), variable_cache@) {
            Some(val) => r@ == val,
            None => r@ is Error,
        },
{
    let children = match variable_cache.get_children(Some(v.variable_key)) {
        Ok(c) => c,
        Err(_) => {
            proof {
                assert(false);
            }
            Vec::new()
        },
    };
    if children.len() == 0 {
        return VariableValue::Valid("Error: Failed to evaluate &str value".to_owned());
    }
    let length: usize = match find_named(&children, "length") {
        Some(i) => {
            match &children[i].value {
                VariableValue::Valid(t) => {
                    match crate::numfmt::parse_unsigned_str(t.as_str(), usize::MAX as u128) {
                        Some(n) => n as usize,
                        None => 0,
                    }
                },
                _ => 0,
            }
        },
        None => 0,
    };
    let address: u32 = match find_named(&children, "data_ptr") {
        Some(i) => {
            let pointees = match variable_cache.get_children(Some(children[i].variable_key)) {
                Ok(c) => c,
                Err(_) => {
                    proof {
                        assert(false);
                    }
                    Vec::new()
                },
            };
            if pointees.len() == 0 {
                0
            } else {
                match pointees[0].memory_location.memory_address() {
                    Ok(a) => a,
                    Err(e) => {
                        return VariableValue::Error(e.message());
                    },
                }
            }
        },
        None => 0,
    };
    if address == 0 {
        return VariableValue::Valid("Error: Failed to determine &str memory location".to_owned());
    }
    let count: usize = if length > 200 {
        200
    } else {
        length
    };
    match core.read_bytes(address, count) {
        Ok(bytes) => {
            match string_from_utf8(bytes) {
                Some(text) => VariableValue::Valid(text),
                None => VariableValue::Error(
                    "DecodeFailed: the string bytes are not valid UTF-8".to_owned(),
                ),
            }
        },
        Err(transport) => {
            let e = DebugError::MemoryIO(transport);
            VariableValue::Error(e.message())
        },
    }
}

} // verus!
