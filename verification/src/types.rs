//! The tagged attributes of a program variable: its name, its value, the
//! role it plays in a variant relation, and how its children are resolved.

use vstd::prelude::*;
use vstd::string::{StrSliceExecFns, StringExecFns};

verus! {

/// The role a variable plays in a variant (tagged-union) relation.
#[derive(Debug, Clone, Copy)]
pub enum VariantRole {
    /// A parent variable whose value is one of several variants.
    VariantPart(u64),
    /// A child variable holding one of the possible variants, tagged with its
    /// discriminant.
    Variant(u64),
    /// The variable plays no role in a variant relation.
    NonVariant,
}

impl Default for VariantRole {
    fn default() -> (r: Self)
        ensures
            r is NonVariant,
    {
        VariantRole::NonVariant
    }
}

/// The source position where a variable was declared.
#[derive(Debug)]
pub struct SourceLocation {
    /// Path of the source file.
    pub file: String,
    /// Line in the source file, when known.
    pub line: Option<u64>,
    /// Column on that line, when known.
    pub column: Option<u64>,
}

impl Clone for SourceLocation {
    fn clone(&self) -> (r: Self)
        ensures
            r == *self,
    {
        SourceLocation {
            file: self.file.clone(),
            line: match self.line {
                Some(l) => Some(l),
                None => None,
            },
            column: match self.column {
                Some(c) => Some(c),
                None => None,
            },
        }
    }
}

/// A variable either carries a readable value, the reason why none could be
/// resolved, or nothing yet.
#[derive(Debug)]
pub enum VariableValue {
    /// A value that was successfully resolved.
    Valid(String),
    /// A problem was met while resolving the value; the text is shown to the
    /// user in place of a value.
    Error(String),
    /// No value has been set: either resolution has not happened yet, or the
    /// variable is an aggregate whose rendering is derived from its children.
    Empty,
}

impl Default for VariableValue {
    fn default() -> (r: Self)
        ensures
            r is Empty,
    {
        VariableValue::Empty
    }
}

impl Clone for VariableValue {
    fn clone(&self) -> (r: Self)
        ensures
            r == *self,
    {
        match self {
            VariableValue::Valid(v) => VariableValue::Valid(v.clone()),
            VariableValue::Error(e) => VariableValue::Error(e.clone()),
            VariableValue::Empty => VariableValue::Empty,
        }
    }
}

/// The mathematical model of a [`VariableValue`]: the same three tags with
/// the carried text abstracted to its characters.
pub enum ValueView {
    /// Model of [`VariableValue::Valid`].
    Valid(Seq<char>),
    /// Model of [`VariableValue::Error`].
    Error(Seq<char>),
    /// Model of [`VariableValue::Empty`].
    Empty,
}

impl View for VariableValue {
    type V = ValueView;

    open spec fn view(&self) -> ValueView {
        match self {
            VariableValue::Valid(text) => ValueView::Valid(text@),
            VariableValue::Error(e) => ValueView::Error(e@),
            VariableValue::Empty => ValueView::Empty,
        }
    }
}

/// The user-visible text of a value: a valid value prints as itself, an
/// error prints between angle brackets.
pub open spec fn value_view_text(v: ValueView) -> Seq<char> {
    match v {
        ValueView::Valid(text) => text,
        ValueView::Error(e) => "< "@ + e + " >"@,
        ValueView::Empty => "Value not set. Please use Variable::get_value() to infer a human readable variable value"@,
    }
}

/// The user-visible text of a [`VariableValue`].
pub open spec fn value_text_spec(v: VariableValue) -> Seq<char> {
    value_view_text(v@)
}

impl VariableValue {
    /// The value is not an error (a still-empty value counts as valid).
    pub open spec fn is_valid_spec(&self) -> bool {
        !(self is Error)
    }

    /// Neither a value nor an error is present.
    pub open spec fn is_empty_spec(&self) -> bool {
        self is Empty
    }

    /// The value is not an error (a still-empty value counts as valid).
    pub fn is_valid(&self) -> (r: bool)
        ensures
            r == self.is_valid_spec(),
    {
        !matches!(self, VariableValue::Error(_))
    }

    /// Neither a value nor an error is present.
    pub fn is_empty(&self) -> (r: bool)
        ensures
            r == self.is_empty_spec(),
    {
        matches!(self, VariableValue::Empty)
    }

    /// Renders the value as [`value_text_spec`] describes.
    pub fn render(&self) -> (r: String)
        ensures
            r@ == value_text_spec(*self),
    {
        match self {
            VariableValue::Valid(text) => text.clone(),
            VariableValue::Error(e) => {
                let mut s = "< ".to_owned();
                s.append(e.as_str());
                s.append(" >");
                s
            },
            VariableValue::Empty => {
                "Value not set. Please use Variable::get_value() to infer a human readable variable value".to_owned()
            },
        }
    }
}

/// The kind of name a variable carries.
#[derive(Debug)]
pub enum VariableName {
    /// Root for the static variables visible to a stack frame.
    StaticScopeRoot,
    /// Root for the platform registers of a stack frame.
    RegistersRoot,
    /// Root for the local variables of a stack frame.
    LocalScopeRoot,
    /// Compiler-generated variable without a name, e.g. an enum
    /// discriminant.
    Artificial,
    /// An anonymous namespace.
    AnonymousNamespace,
    /// A namespace with this name.
    Namespace(String),
    /// A program variable with this name.
    Named(String),
    /// The name could not be determined.
    Unknown,
}

impl Default for VariableName {
    fn default() -> (r: Self)
        ensures
            r is Unknown,
    {
        VariableName::Unknown
    }
}

impl Clone for VariableName {
    fn clone(&self) -> (r: Self)
        ensures
            r == *self,
    {
        match self {
            VariableName::StaticScopeRoot => VariableName::StaticScopeRoot,
            VariableName::RegistersRoot => VariableName::RegistersRoot,
            VariableName::LocalScopeRoot => VariableName::LocalScopeRoot,
            VariableName::Artificial => VariableName::Artificial,
            VariableName::AnonymousNamespace => VariableName::AnonymousNamespace,
            VariableName::Namespace(n) => VariableName::Namespace(n.clone()),
            VariableName::Named(n) => VariableName::Named(n.clone()),
            VariableName::Unknown => VariableName::Unknown,
        }
    }
}

/// Structural equality of two names; names carrying text compare by their
/// characters.
pub open spec fn name_eq_spec(a: VariableName, b: VariableName) -> bool {
    match (a, b) {
        (VariableName::StaticScopeRoot, VariableName::StaticScopeRoot) => true,
        (VariableName::RegistersRoot, VariableName::RegistersRoot) => true,
        (VariableName::LocalScopeRoot, VariableName::LocalScopeRoot) => true,
        (VariableName::Artificial, VariableName::Artificial) => true,
        (VariableName::AnonymousNamespace, VariableName::AnonymousNamespace) => true,
        (VariableName::Namespace(x), VariableName::Namespace(y)) => x@ == y@,
        (VariableName::Named(x), VariableName::Named(y)) => x@ == y@,
        (VariableName::Unknown, VariableName::Unknown) => true,
        _ => false,
    }
}

impl PartialEq for VariableName {
    fn eq(&self, other: &Self) -> (r: bool) {
        match (self, other) {
            (VariableName::StaticScopeRoot, VariableName::StaticScopeRoot) => true,
            (VariableName::RegistersRoot, VariableName::RegistersRoot) => true,
            (VariableName::LocalScopeRoot, VariableName::LocalScopeRoot) => true,
            (VariableName::Artificial, VariableName::Artificial) => true,
            (VariableName::AnonymousNamespace, VariableName::AnonymousNamespace) => true,
            (VariableName::Namespace(x), VariableName::Namespace(y)) => crate::strutil::str_eq(
                x.as_str(),
                y.as_str(),
            ),
            (VariableName::Named(x), VariableName::Named(y)) => crate::strutil::str_eq(
                x.as_str(),
                y.as_str(),
            ),
            (VariableName::Unknown, VariableName::Unknown) => true,
            _ => false,
        }
    }
}

impl vstd::std_specs::cmp::PartialEqSpecImpl for VariableName {
    open spec fn obeys_eq_spec() -> bool {
        true
    }

    open spec fn eq_spec(&self, other: &Self) -> bool {
        name_eq_spec(*self, *other)
    }
}

/// The user-visible text of a [`VariableName`].
pub open spec fn name_text_spec(n: VariableName) -> Seq<char> {
    match n {
        VariableName::StaticScopeRoot => "Static Variable"@,
        VariableName::RegistersRoot => "Platform Register"@,
        VariableName::LocalScopeRoot => "Function Variable"@,
        VariableName::Artificial => "<artifical>"@,
        VariableName::AnonymousNamespace => "<anonymous_namespace>"@,
        VariableName::Namespace(name) => name@,
        VariableName::Named(name) => name@,
        VariableName::Unknown => "<unknown>"@,
    }
}

/// The diagnostic text of a [`VariableName`], the variant spelled out and
/// carried text quoted.
pub open spec fn name_debug_spec(n: VariableName) -> Seq<char> {
    match n {
        VariableName::StaticScopeRoot => "StaticScopeRoot"@,
        VariableName::RegistersRoot => "RegistersRoot"@,
        VariableName::LocalScopeRoot => "LocalScopeRoot"@,
        VariableName::Artificial => "Artificial"@,
        VariableName::AnonymousNamespace => "AnonymousNamespace"@,
        VariableName::Namespace(name) => "Namespace(\""@ + name@ + "\")"@,
        VariableName::Named(name) => "Named(\""@ + name@ + "\")"@,
        VariableName::Unknown => "Unknown"@,
    }
}

impl VariableName {
    /// Renders the name as [`name_debug_spec`] describes.
    pub fn debug_text(&self) -> (r: String)
        ensures
            r@ == name_debug_spec(*self),
    {
        match self {
            VariableName::StaticScopeRoot => "StaticScopeRoot".to_owned(),
            VariableName::RegistersRoot => "RegistersRoot".to_owned(),
            VariableName::LocalScopeRoot => "LocalScopeRoot".to_owned(),
            VariableName::Artificial => "Artificial".to_owned(),
            VariableName::AnonymousNamespace => "AnonymousNamespace".to_owned(),
            VariableName::Namespace(name) => {
                let mut s = "Namespace(\"".to_owned();
                s.append(name.as_str());
                s.append("\")");
                s
            },
            VariableName::Named(name) => {
                let mut s = "Named(\"".to_owned();
                s.append(name.as_str());
                s.append("\")");
                s
            },
            VariableName::Unknown => "Unknown".to_owned(),
        }
    }

    /// Renders the name as [`name_text_spec`] describes.
    pub fn display_text(&self) -> (r: String)
        ensures
            r@ == name_text_spec(*self),
    {
        match self {
            VariableName::StaticScopeRoot => "Static Variable".to_owned(),
            VariableName::RegistersRoot => "Platform Register".to_owned(),
            VariableName::LocalScopeRoot => "Function Variable".to_owned(),
            VariableName::Artificial => "<artifical>".to_owned(),
            VariableName::AnonymousNamespace => "<anonymous_namespace>".to_owned(),
            VariableName::Namespace(name) => name.clone(),
            VariableName::Named(name) => name.clone(),
            VariableName::Unknown => "<unknown>".to_owned(),
        }
    }
}

/// How the children of a variable are resolved from the debug information.
/// The first three tags are "deferred": children exist logically but are
/// materialized only when the user expands the variable.
#[derive(Debug, Clone, Copy)]
pub enum VariableNodeType {
    /// A pointer whose referenced variable lives at this offset of the debug
    /// information; resolved on demand so that self-referencing structures
    /// cannot recurse without bound.
    ReferenceOffset(u64),
    /// A structured variable whose type description lives at this offset of
    /// the debug information; expanded on demand.
    TypeOffset(u64),
    /// A scope root whose children are looked up directly on demand.
    DirectLookup,
    /// The children of this node are never resolved.
    DoNotRecurse,
    /// Children are resolved eagerly until a base data type is reached.
    RecurseToBaseType,
}

impl Default for VariableNodeType {
    fn default() -> (r: Self)
        ensures
            r is RecurseToBaseType,
    {
        VariableNodeType::RecurseToBaseType
    }
}

impl VariableNodeType {
    /// Children of this node are materialized lazily, on external request.
    pub open spec fn is_deferred_spec(&self) -> bool {
        match self {
            VariableNodeType::ReferenceOffset(_) => true,
            VariableNodeType::TypeOffset(_) => true,
            VariableNodeType::DirectLookup => true,
            _ => false,
        }
    }

    /// Children of this node are materialized lazily, on external request.
    pub fn is_deferred(&self) -> (r: bool)
        ensures
            r == self.is_deferred_spec(),
    {
        match self {
            VariableNodeType::ReferenceOffset(_)
            | VariableNodeType::TypeOffset(_)
            | VariableNodeType::DirectLookup => true,
            _ => false,
        }
    }
}

} // verus!
