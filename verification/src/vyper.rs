//! Vyper artifact types: compilation errors, settings and AST annotations.

use crate::text::{dec, push_decimal, push_str, string_push};
use vstd::prelude::*;

verus! {

/// The severity of a compiler diagnostic.
#[derive(Clone, Copy, Debug, PartialEq, Eq, Hash, Structural)]
pub enum Severity {
    Error,
    Warning,
    Info,
}

/// Where in a Vyper source file a diagnostic points.
#[derive(Debug, Clone, PartialEq, Eq)]
pub struct VyperSourceLocation {
    file: String,
    line: Option<u64>,
    offset: Option<u64>,
}

impl VyperSourceLocation {
    /// A location in `file`, with an optional line and column offset.
    pub fn new(file: String, line: Option<u64>, offset: Option<u64>) -> (r: Self)
        ensures
            r.file_view() == file@,
            r.line_view() == line,
            r.offset_view() == offset,
    {
        VyperSourceLocation { file, line, offset }
    }

    /// The file of the location.
    pub closed spec fn file_view(&self) -> Seq<char> {
        self.file@
    }

    /// The line of the location.
    pub closed spec fn line_view(&self) -> Option<u64> {
        self.line
    }

    /// The column offset of the location.
    pub closed spec fn offset_view(&self) -> Option<u64> {
        self.offset
    }
}

/// A diagnostic reported by the Vyper compiler.
#[derive(Debug, Clone, PartialEq, Eq)]
pub struct VyperCompilationError {
    pub message: String,
    pub severity: Severity,
    pub source_location: Option<VyperSourceLocation>,
    pub formatted_message: Option<String>,
}

/// `:<n>` where a number is present.
pub open spec fn colon_number(v: Option<u64>) -> Seq<char> {
    match v {
        Some(n) => seq![':'] + dec(n as nat),
        None => Seq::empty(),
    }
}

/// The text of a diagnostic: a `Location: <file>:<line>:<offset>` line where
/// the location is known, then the formatted message, or the message.
pub open spec fn vyper_error_text(e: VyperCompilationError) -> Seq<char> {
    (match e.source_location {
        Some(l) => "Location: "@ + l.file_view() + colon_number(l.line_view()) + colon_number(
            l.offset_view(),
        ) + seq!['\n'],
        None => Seq::empty(),
    }) + match e.formatted_message {
        Some(m) => m@,
        None => e.message@,
    }
}

impl VyperCompilationError {
    /// The diagnostic as text.
    pub fn to_string(&self) -> (r: String)
        ensures
            r@ == vyper_error_text(*self),
    {
        let mut s = String::new();
        if let Some(location) = &self.source_location {
            push_str(&mut s, "Location: ");
            push_str(&mut s, location.file.as_str());
            if let Some(line) = location.line {
                string_push(&mut s, ':');
                push_decimal(&mut s, line);
            }
            if let Some(offset) = location.offset {
                string_push(&mut s, ':');
                push_decimal(&mut s, offset);
            }
            string_push(&mut s, '\n');
        }
        match &self.formatted_message {
            Some(m) => push_str(&mut s, m.as_str()),
            None => push_str(&mut s, self.message.as_str()),
        }
        assert(s@ =~= vyper_error_text(*self));
        s
    }
}

/// Vyper optimization mode.
#[derive(Clone, Copy, Debug, PartialEq, Eq, Structural)]
pub enum VyperOptimizationMode {
    Gas,
    Codesize,
    /// No optimization (`none` in settings files).
    Off,
}

/// Settings recorded in a Vyper AST.
#[derive(Clone, Debug, PartialEq, Eq)]
pub struct Settings {}

/// An access to a variable in a Vyper AST.
#[derive(Clone, Debug, PartialEq, Eq)]
pub struct VariableAccess {
    pub name: String,
    pub decl_node: DeclNode,
    pub access_path: Vec<String>,
}

/// The node that declares a variable.
#[derive(Clone, Debug, PartialEq, Eq)]
pub struct DeclNode {
    pub node_id: i32,
    pub source_id: i32,
}

/// The type annotation of a Vyper AST node.
#[derive(Debug)]
pub struct Type {
    pub name: Option<String>,
    pub value_type: Option<Box<Type>>,
    pub m: Option<u32>,
    pub typeclass: Option<String>,
    pub is_signed: Option<bool>,
    pub length: Option<u32>,
    pub bits: Option<u32>,
    pub type_t: Option<TypedType>,
}

/// The type of a type expression.
#[derive(Clone, Debug, PartialEq, Eq)]
pub struct TypedType {
    pub name: String,
    pub type_decl_node: Option<TypeDeclNode>,
    pub typeclass: Option<String>,
}

/// The node that declares a type.
#[derive(Clone, Debug, PartialEq, Eq)]
pub struct TypeDeclNode {
    pub node_id: i32,
    pub source_id: i32,
}

/// Information on an imported module.
#[derive(Clone, Debug, PartialEq, Eq)]
pub struct ImportInfo {
    alias: Option<String>,
    qualified_module_name: String,
    source_id: i32,
    path: String,
    resolved_path: String,
    file_sha256sum: String,
}

} // verus!
