//! Bindings for the low-fidelity `ast` output of solc: source locations and node types.

use crate::text::{
    digits_value, is_digit, lemma_dec, lemma_digits_exclude, lemma_split_on_cons,
    lemma_split_on_single, chars_eq, chars_of, dec, owned, parse_isize, parse_usize, push_decimal, push_str,
    signed_value, split_chars, split_on, string_push, unsigned_value,
};
use vstd::prelude::*;

verus! {

/// Represents the source location of a node: `<start byte>:<length>:<source index>`.
///
/// The `length` and `index` can be -1 which is represented as `None`
#[derive(Clone, Copy, Debug, PartialEq, Eq, Hash, Structural)]
pub struct SourceLocation {
    pub start: usize,
    pub length: Option<usize>,
    pub index: Option<usize>,
}

/// A non-negative value, or none for a negative one.
pub open spec fn non_negative(v: int) -> Option<usize> {
    if v < 0 {
        None
    } else {
        Some(v as usize)
    }
}

/// Whether a signed piece of a location reads as an `isize`.
pub open spec fn isize_piece(t: Seq<char>) -> bool {
    signed_value(t) matches Some(v) && isize::MIN <= v <= isize::MAX
}

/// The location written as `s`: the first three `:`-separated pieces are the
/// start (an unsigned integer), then the length and source index (signed
/// integers, negative meaning none); further pieces are ignored.
pub open spec fn parse_source_location(s: Seq<char>) -> Option<SourceLocation> {
    let pieces = split_on(s, ':');
    if pieces.len() < 3 {
        None
    } else {
        match (unsigned_value(pieces[0]), signed_value(pieces[1]), signed_value(pieces[2])) {
            (Some(start), Some(length), Some(index)) => if start <= usize::MAX && isize_piece(
                pieces[1],
            ) && isize_piece(pieces[2]) {
                Some(
                    SourceLocation {
                        start: start as usize,
                        length: non_negative(length),
                        index: non_negative(index),
                    },
                )
            } else {
                None
            },
            _ => None,
        }
    }
}

/// The text of an optional part: its value, or `-1`.
pub open spec fn optional_text(v: Option<usize>) -> Seq<char> {
    match v {
        Some(x) => dec(x as nat),
        None => seq!['-', '1'],
    }
}

/// The text of a location: `<start>:<length>:<index>`, -1 standing for none.
pub open spec fn source_location_text(l: SourceLocation) -> Seq<char> {
    dec(l.start as nat) + seq![':'] + optional_text(l.length) + seq![':'] + optional_text(l.index)
}

impl SourceLocation {
    /// Parses `<start>:<length>:<index>`; the error names the input.
    pub fn parse(s: &str) -> (r: Result<Self, String>)
        ensures
            match parse_source_location(s@) {
                Some(l) => r == Ok::<SourceLocation, String>(l),
                None => r matches Err(e) && e@ == s@ + " invalid source location"@,
            },
    {
        let v = chars_of(s);
        let pieces = split_chars(v.as_slice(), ':');
        let mut err = owned(s);
        push_str(&mut err, " invalid source location");
        if pieces.len() < 3 {
            return Err(err);
        }
        let start = match parse_usize(pieces[0].as_slice()) {
            Some(x) => x,
            None => return Err(err),
        };
        let length = match parse_isize(pieces[1].as_slice()) {
            Some(x) => x,
            None => return Err(err),
        };
        let index = match parse_isize(pieces[2].as_slice()) {
            Some(x) => x,
            None => return Err(err),
        };
        Ok(
            SourceLocation {
                start,
                length: if length < 0 {
                    None
                } else {
                    Some(length as usize)
                },
                index: if index < 0 {
                    None
                } else {
                    Some(index as usize)
                },
            },
        )
    }

    /// The location as `<start>:<length>:<index>`, -1 standing for none.
    pub fn to_string(&self) -> (r: String)
        ensures
            r@ == source_location_text(*self),
    {
        let mut s = String::new();
        push_decimal(&mut s, self.start as u64);
        string_push(&mut s, ':');
        match self.length {
            Some(x) => push_decimal(&mut s, x as u64),
            None => {
                string_push(&mut s, '-');
                string_push(&mut s, '1');
            },
        }
        string_push(&mut s, ':');
        match self.index {
            Some(x) => push_decimal(&mut s, x as u64),
            None => {
                string_push(&mut s, '-');
                string_push(&mut s, '1');
            },
        }
        assert(s@ =~= source_location_text(*self));
        s
    }
}

proof fn lemma_optional_text(v: Option<usize>)
    requires
        v matches Some(x) ==> x <= isize::MAX,
    ensures
        !optional_text(v).contains(':'),
        signed_value(optional_text(v)) == Some(match v {
            Some(x) => x as int,
            None => -1int,
        }),
        isize_piece(optional_text(v)),
{
    match v {
        Some(x) => {
            lemma_dec(x as nat);
            lemma_digits_exclude(dec(x as nat), ':');
            lemma_digits_exclude(dec(x as nat), '+');
            assert(dec(x as nat)[0] != '-') by {
                assert(is_digit(dec(x as nat)[0]));
            }
        },
        None => {
            let t = seq!['-', '1'];
            assert(t.skip(1) =~= seq!['1']);
            assert(seq!['1'].drop_last() =~= Seq::<char>::empty());
            assert('1' as u32 == 49);
            assert('0' as u32 == 48);
            assert(seq!['1'].last() == '1');
            assert(digits_value(Seq::<char>::empty()) == 0);
            assert(digits_value(seq!['1']) == 1);
            if t.contains(':') {
                let i = choose|i: int| 0 <= i < t.len() && t[i] == ':';
            }
        },
    }
}

/// Printing a location and parsing it back gives the same location, when its
/// length and index fit in an `isize`.
pub proof fn lemma_source_location_roundtrip(l: SourceLocation)
    requires
        l.length matches Some(x) ==> x <= isize::MAX,
        l.index matches Some(x) ==> x <= isize::MAX,
    ensures
        parse_source_location(source_location_text(l)) == Some(l),
{
    let a = dec(l.start as nat);
    let b = optional_text(l.length);
    let c = optional_text(l.index);
    lemma_dec(l.start as nat);
    lemma_digits_exclude(a, ':');
    lemma_digits_exclude(a, '+');
    assert(a[0] != '+');
    lemma_optional_text(l.length);
    lemma_optional_text(l.index);
    assert(source_location_text(l) =~= a + seq![':'] + (b + seq![':'] + c));
    lemma_split_on_cons(a, b + seq![':'] + c, ':');
    lemma_split_on_cons(b, c, ':');
    lemma_split_on_single(c, ':');
    let pieces = split_on(source_location_text(l), ':');
    assert(pieces =~= seq![a, b, c]);
}

impl std::str::FromStr for SourceLocation {
    type Err = String;

    fn from_str(s: &str) -> (r: Result<Self, Self::Err>)
        ensures
            match parse_source_location(s@) {
                Some(l) => r == Ok::<SourceLocation, String>(l),
                None => r matches Err(e) && e@ == s@ + " invalid source location"@,
            },
    {
        Self::parse(s)
    }
}

/// The type of an AST node.
#[derive(Clone, Debug, PartialEq, Eq)]
pub enum NodeType {
    // Expressions
    Assignment,
    BinaryOperation,
    Conditional,
    ElementaryTypeNameExpression,
    FunctionCall,
    FunctionCallOptions,
    Identifier,
    IndexAccess,
    IndexRangeAccess,
    Literal,
    MemberAccess,
    NewExpression,
    TupleExpression,
    UnaryOperation,

    // Statements
    Block,
    Break,
    Continue,
    DoWhileStatement,
    EmitStatement,
    ExpressionStatement,
    ForStatement,
    IfStatement,
    InlineAssembly,
    PlaceholderStatement,
    Return,
    RevertStatement,
    TryStatement,
    UncheckedBlock,
    VariableDeclarationStatement,
    VariableDeclaration,
    WhileStatement,

    // Yul statements
    YulAssignment,
    YulBlock,
    YulBreak,
    YulCase,
    YulContinue,
    YulExpressionStatement,
    YulLeave,
    YulForLoop,
    YulFunctionDefinition,
    YulIf,
    YulSwitch,
    YulVariableDeclaration,

    // Yul expressions
    YulFunctionCall,
    YulIdentifier,
    YulLiteral,

    // Yul literals
    YulLiteralValue,
    YulHexValue,
    YulTypedName,

    // Definitions
    ContractDefinition,
    FunctionDefinition,
    EventDefinition,
    ErrorDefinition,
    ModifierDefinition,
    StructDefinition,
    EnumDefinition,
    UserDefinedValueTypeDefinition,

    // Directives
    PragmaDirective,
    ImportDirective,
    UsingForDirective,

    // Misc
    SourceUnit,
    InheritanceSpecifier,
    ElementaryTypeName,
    FunctionTypeName,
    ParameterList,
    TryCatchClause,
    ModifierInvocation,

    /// An unknown AST node type.
    Other(String),
}

/// The name of a node type in the AST.
pub open spec fn node_type_name(t: NodeType) -> Seq<char> {
    match t {
        NodeType::Assignment => "Assignment"@,
        NodeType::BinaryOperation => "BinaryOperation"@,
        NodeType::Conditional => "Conditional"@,
        NodeType::ElementaryTypeNameExpression => "ElementaryTypeNameExpression"@,
        NodeType::FunctionCall => "FunctionCall"@,
        NodeType::FunctionCallOptions => "FunctionCallOptions"@,
        NodeType::Identifier => "Identifier"@,
        NodeType::IndexAccess => "IndexAccess"@,
        NodeType::IndexRangeAccess => "IndexRangeAccess"@,
        NodeType::Literal => "Literal"@,
        NodeType::MemberAccess => "MemberAccess"@,
        NodeType::NewExpression => "NewExpression"@,
        NodeType::TupleExpression => "TupleExpression"@,
        NodeType::UnaryOperation => "UnaryOperation"@,
        NodeType::Block => "Block"@,
        NodeType::Break => "Break"@,
        NodeType::Continue => "Continue"@,
        NodeType::DoWhileStatement => "DoWhileStatement"@,
        NodeType::EmitStatement => "EmitStatement"@,
        NodeType::ExpressionStatement => "ExpressionStatement"@,
        NodeType::ForStatement => "ForStatement"@,
        NodeType::IfStatement => "IfStatement"@,
        NodeType::InlineAssembly => "InlineAssembly"@,
        NodeType::PlaceholderStatement => "PlaceholderStatement"@,
        NodeType::Return => "Return"@,
        NodeType::RevertStatement => "RevertStatement"@,
        NodeType::TryStatement => "TryStatement"@,
        NodeType::UncheckedBlock => "UncheckedBlock"@,
        NodeType::VariableDeclarationStatement => "VariableDeclarationStatement"@,
        NodeType::VariableDeclaration => "VariableDeclaration"@,
        NodeType::WhileStatement => "WhileStatement"@,
        NodeType::YulAssignment => "YulAssignment"@,
        NodeType::YulBlock => "YulBlock"@,
        NodeType::YulBreak => "YulBreak"@,
        NodeType::YulCase => "YulCase"@,
        NodeType::YulContinue => "YulContinue"@,
        NodeType::YulExpressionStatement => "YulExpressionStatement"@,
        NodeType::YulLeave => "YulLeave"@,
        NodeType::YulForLoop => "YulForLoop"@,
        NodeType::YulFunctionDefinition => "YulFunctionDefinition"@,
        NodeType::YulIf => "YulIf"@,
        NodeType::YulSwitch => "YulSwitch"@,
        NodeType::YulVariableDeclaration => "YulVariableDeclaration"@,
        NodeType::YulFunctionCall => "YulFunctionCall"@,
        NodeType::YulIdentifier => "YulIdentifier"@,
        NodeType::YulLiteral => "YulLiteral"@,
        NodeType::YulLiteralValue => "YulLiteralValue"@,
        NodeType::YulHexValue => "YulHexValue"@,
        NodeType::YulTypedName => "YulTypedName"@,
        NodeType::ContractDefinition => "ContractDefinition"@,
        NodeType::FunctionDefinition => "FunctionDefinition"@,
        NodeType::EventDefinition => "EventDefinition"@,
        NodeType::ErrorDefinition => "ErrorDefinition"@,
        NodeType::ModifierDefinition => "ModifierDefinition"@,
        NodeType::StructDefinition => "StructDefinition"@,
        NodeType::EnumDefinition => "EnumDefinition"@,
        NodeType::UserDefinedValueTypeDefinition => "UserDefinedValueTypeDefinition"@,
        NodeType::PragmaDirective => "PragmaDirective"@,
        NodeType::ImportDirective => "ImportDirective"@,
        NodeType::UsingForDirective => "UsingForDirective"@,
        NodeType::SourceUnit => "SourceUnit"@,
        NodeType::InheritanceSpecifier => "InheritanceSpecifier"@,
        NodeType::ElementaryTypeName => "ElementaryTypeName"@,
        NodeType::FunctionTypeName => "FunctionTypeName"@,
        NodeType::ParameterList => "ParameterList"@,
        NodeType::TryCatchClause => "TryCatchClause"@,
        NodeType::ModifierInvocation => "ModifierInvocation"@,
        NodeType::Other(s) => s@,
    }
}

/// The node type of a known name.
pub open spec fn known_node_type(s: Seq<char>) -> Option<NodeType> {
    if s == "Assignment"@ {
        Some(NodeType::Assignment)
    } else if s == "BinaryOperation"@ {
        Some(NodeType::BinaryOperation)
    } else if s == "Conditional"@ {
        Some(NodeType::Conditional)
    } else if s == "ElementaryTypeNameExpression"@ {
        Some(NodeType::ElementaryTypeNameExpression)
    } else if s == "FunctionCall"@ {
        Some(NodeType::FunctionCall)
    } else if s == "FunctionCallOptions"@ {
        Some(NodeType::FunctionCallOptions)
    } else if s == "Identifier"@ {
        Some(NodeType::Identifier)
    } else if s == "IndexAccess"@ {
        Some(NodeType::IndexAccess)
    } else if s == "IndexRangeAccess"@ {
        Some(NodeType::IndexRangeAccess)
    } else if s == "Literal"@ {
        Some(NodeType::Literal)
    } else if s == "MemberAccess"@ {
        Some(NodeType::MemberAccess)
    } else if s == "NewExpression"@ {
        Some(NodeType::NewExpression)
    } else if s == "TupleExpression"@ {
        Some(NodeType::TupleExpression)
    } else if s == "UnaryOperation"@ {
        Some(NodeType::UnaryOperation)
    } else if s == "Block"@ {
        Some(NodeType::Block)
    } else if s == "Break"@ {
        Some(NodeType::Break)
    } else if s == "Continue"@ {
        Some(NodeType::Continue)
    } else if s == "DoWhileStatement"@ {
        Some(NodeType::DoWhileStatement)
    } else if s == "EmitStatement"@ {
        Some(NodeType::EmitStatement)
    } else if s == "ExpressionStatement"@ {
        Some(NodeType::ExpressionStatement)
    } else if s == "ForStatement"@ {
        Some(NodeType::ForStatement)
    } else if s == "IfStatement"@ {
        Some(NodeType::IfStatement)
    } else if s == "InlineAssembly"@ {
        Some(NodeType::InlineAssembly)
    } else if s == "PlaceholderStatement"@ {
        Some(NodeType::PlaceholderStatement)
    } else if s == "Return"@ {
        Some(NodeType::Return)
    } else if s == "RevertStatement"@ {
        Some(NodeType::RevertStatement)
    } else if s == "TryStatement"@ {
        Some(NodeType::TryStatement)
    } else if s == "UncheckedBlock"@ {
        Some(NodeType::UncheckedBlock)
    } else if s == "VariableDeclarationStatement"@ {
        Some(NodeType::VariableDeclarationStatement)
    } else if s == "VariableDeclaration"@ {
        Some(NodeType::VariableDeclaration)
    } else if s == "WhileStatement"@ {
        Some(NodeType::WhileStatement)
    } else if s == "YulAssignment"@ {
        Some(NodeType::YulAssignment)
    } else if s == "YulBlock"@ {
        Some(NodeType::YulBlock)
    } else if s == "YulBreak"@ {
        Some(NodeType::YulBreak)
    } else if s == "YulCase"@ {
        Some(NodeType::YulCase)
    } else if s == "YulContinue"@ {
        Some(NodeType::YulContinue)
    } else if s == "YulExpressionStatement"@ {
        Some(NodeType::YulExpressionStatement)
    } else if s == "YulLeave"@ {
        Some(NodeType::YulLeave)
    } else if s == "YulForLoop"@ {
        Some(NodeType::YulForLoop)
    } else if s == "YulFunctionDefinition"@ {
        Some(NodeType::YulFunctionDefinition)
    } else if s == "YulIf"@ {
        Some(NodeType::YulIf)
    } else if s == "YulSwitch"@ {
        Some(NodeType::YulSwitch)
    } else if s == "YulVariableDeclaration"@ {
        Some(NodeType::YulVariableDeclaration)
    } else if s == "YulFunctionCall"@ {
        Some(NodeType::YulFunctionCall)
    } else if s == "YulIdentifier"@ {
        Some(NodeType::YulIdentifier)
    } else if s == "YulLiteral"@ {
        Some(NodeType::YulLiteral)
    } else if s == "YulLiteralValue"@ {
        Some(NodeType::YulLiteralValue)
    } else if s == "YulHexValue"@ {
        Some(NodeType::YulHexValue)
    } else if s == "YulTypedName"@ {
        Some(NodeType::YulTypedName)
    } else if s == "ContractDefinition"@ {
        Some(NodeType::ContractDefinition)
    } else if s == "FunctionDefinition"@ {
        Some(NodeType::FunctionDefinition)
    } else if s == "EventDefinition"@ {
        Some(NodeType::EventDefinition)
    } else if s == "ErrorDefinition"@ {
        Some(NodeType::ErrorDefinition)
    } else if s == "ModifierDefinition"@ {
        Some(NodeType::ModifierDefinition)
    } else if s == "StructDefinition"@ {
        Some(NodeType::StructDefinition)
    } else if s == "EnumDefinition"@ {
        Some(NodeType::EnumDefinition)
    } else if s == "UserDefinedValueTypeDefinition"@ {
        Some(NodeType::UserDefinedValueTypeDefinition)
    } else if s == "PragmaDirective"@ {
        Some(NodeType::PragmaDirective)
    } else if s == "ImportDirective"@ {
        Some(NodeType::ImportDirective)
    } else if s == "UsingForDirective"@ {
        Some(NodeType::UsingForDirective)
    } else if s == "SourceUnit"@ {
        Some(NodeType::SourceUnit)
    } else if s == "InheritanceSpecifier"@ {
        Some(NodeType::InheritanceSpecifier)
    } else if s == "ElementaryTypeName"@ {
        Some(NodeType::ElementaryTypeName)
    } else if s == "FunctionTypeName"@ {
        Some(NodeType::FunctionTypeName)
    } else if s == "ParameterList"@ {
        Some(NodeType::ParameterList)
    } else if s == "TryCatchClause"@ {
        Some(NodeType::TryCatchClause)
    } else if s == "ModifierInvocation"@ {
        Some(NodeType::ModifierInvocation)
    } else {
        None
    }
}

impl NodeType {
    /// The name of the node type, as written in the AST.
    pub fn name(&self) -> (r: String)
        ensures
            r@ == node_type_name(*self),
    {
        match self {
            NodeType::Assignment => owned("Assignment"),
            NodeType::BinaryOperation => owned("BinaryOperation"),
            NodeType::Conditional => owned("Conditional"),
            NodeType::ElementaryTypeNameExpression => owned("ElementaryTypeNameExpression"),
            NodeType::FunctionCall => owned("FunctionCall"),
            NodeType::FunctionCallOptions => owned("FunctionCallOptions"),
            NodeType::Identifier => owned("Identifier"),
            NodeType::IndexAccess => owned("IndexAccess"),
            NodeType::IndexRangeAccess => owned("IndexRangeAccess"),
            NodeType::Literal => owned("Literal"),
            NodeType::MemberAccess => owned("MemberAccess"),
            NodeType::NewExpression => owned("NewExpression"),
            NodeType::TupleExpression => owned("TupleExpression"),
            NodeType::UnaryOperation => owned("UnaryOperation"),
            NodeType::Block => owned("Block"),
            NodeType::Break => owned("Break"),
            NodeType::Continue => owned("Continue"),
            NodeType::DoWhileStatement => owned("DoWhileStatement"),
            NodeType::EmitStatement => owned("EmitStatement"),
            NodeType::ExpressionStatement => owned("ExpressionStatement"),
            NodeType::ForStatement => owned("ForStatement"),
            NodeType::IfStatement => owned("IfStatement"),
            NodeType::InlineAssembly => owned("InlineAssembly"),
            NodeType::PlaceholderStatement => owned("PlaceholderStatement"),
            NodeType::Return => owned("Return"),
            NodeType::RevertStatement => owned("RevertStatement"),
            NodeType::TryStatement => owned("TryStatement"),
            NodeType::UncheckedBlock => owned("UncheckedBlock"),
            NodeType::VariableDeclarationStatement => owned("VariableDeclarationStatement"),
            NodeType::VariableDeclaration => owned("VariableDeclaration"),
            NodeType::WhileStatement => owned("WhileStatement"),
            NodeType::YulAssignment => owned("YulAssignment"),
            NodeType::YulBlock => owned("YulBlock"),
            NodeType::YulBreak => owned("YulBreak"),
            NodeType::YulCase => owned("YulCase"),
            NodeType::YulContinue => owned("YulContinue"),
            NodeType::YulExpressionStatement => owned("YulExpressionStatement"),
            NodeType::YulLeave => owned("YulLeave"),
            NodeType::YulForLoop => owned("YulForLoop"),
            NodeType::YulFunctionDefinition => owned("YulFunctionDefinition"),
            NodeType::YulIf => owned("YulIf"),
            NodeType::YulSwitch => owned("YulSwitch"),
            NodeType::YulVariableDeclaration => owned("YulVariableDeclaration"),
            NodeType::YulFunctionCall => owned("YulFunctionCall"),
            NodeType::YulIdentifier => owned("YulIdentifier"),
            NodeType::YulLiteral => owned("YulLiteral"),
            NodeType::YulLiteralValue => owned("YulLiteralValue"),
            NodeType::YulHexValue => owned("YulHexValue"),
            NodeType::YulTypedName => owned("YulTypedName"),
            NodeType::ContractDefinition => owned("ContractDefinition"),
            NodeType::FunctionDefinition => owned("FunctionDefinition"),
            NodeType::EventDefinition => owned("EventDefinition"),
            NodeType::ErrorDefinition => owned("ErrorDefinition"),
            NodeType::ModifierDefinition => owned("ModifierDefinition"),
            NodeType::StructDefinition => owned("StructDefinition"),
            NodeType::EnumDefinition => owned("EnumDefinition"),
            NodeType::UserDefinedValueTypeDefinition => owned("UserDefinedValueTypeDefinition"),
            NodeType::PragmaDirective => owned("PragmaDirective"),
            NodeType::ImportDirective => owned("ImportDirective"),
            NodeType::UsingForDirective => owned("UsingForDirective"),
            NodeType::SourceUnit => owned("SourceUnit"),
            NodeType::InheritanceSpecifier => owned("InheritanceSpecifier"),
            NodeType::ElementaryTypeName => owned("ElementaryTypeName"),
            NodeType::FunctionTypeName => owned("FunctionTypeName"),
            NodeType::ParameterList => owned("ParameterList"),
            NodeType::TryCatchClause => owned("TryCatchClause"),
            NodeType::ModifierInvocation => owned("ModifierInvocation"),
            NodeType::Other(s) => s.clone(),
        }
    }

    /// The node type with the given name; an unknown name is kept as `Other`.
    pub fn from_name(s: &str) -> (r: NodeType)
        ensures
            match known_node_type(s@) {
                Some(t) => r == t,
                None => r matches NodeType::Other(x) && x@ == s@,
            },
    {
        let v = chars_of(s);
        if chars_eq(v.as_slice(), chars_of("Assignment").as_slice()) {
            return NodeType::Assignment;
        }
        if chars_eq(v.as_slice(), chars_of("BinaryOperation").as_slice()) {
            return NodeType::BinaryOperation;
        }
        if chars_eq(v.as_slice(), chars_of("Conditional").as_slice()) {
            return NodeType::Conditional;
        }
        if chars_eq(v.as_slice(), chars_of("ElementaryTypeNameExpression").as_slice()) {
            return NodeType::ElementaryTypeNameExpression;
        }
        if chars_eq(v.as_slice(), chars_of("FunctionCall").as_slice()) {
            return NodeType::FunctionCall;
        }
        if chars_eq(v.as_slice(), chars_of("FunctionCallOptions").as_slice()) {
            return NodeType::FunctionCallOptions;
        }
        if chars_eq(v.as_slice(), chars_of("Identifier").as_slice()) {
            return NodeType::Identifier;
        }
        if chars_eq(v.as_slice(), chars_of("IndexAccess").as_slice()) {
            return NodeType::IndexAccess;
        }
        if chars_eq(v.as_slice(), chars_of("IndexRangeAccess").as_slice()) {
            return NodeType::IndexRangeAccess;
        }
        if chars_eq(v.as_slice(), chars_of("Literal").as_slice()) {
            return NodeType::Literal;
        }
        if chars_eq(v.as_slice(), chars_of("MemberAccess").as_slice()) {
            return NodeType::MemberAccess;
        }
        if chars_eq(v.as_slice(), chars_of("NewExpression").as_slice()) {
            return NodeType::NewExpression;
        }
        if chars_eq(v.as_slice(), chars_of("TupleExpression").as_slice()) {
            return NodeType::TupleExpression;
        }
        if chars_eq(v.as_slice(), chars_of("UnaryOperation").as_slice()) {
            return NodeType::UnaryOperation;
        }
        if chars_eq(v.as_slice(), chars_of("Block").as_slice()) {
            return NodeType::Block;
        }
        if chars_eq(v.as_slice(), chars_of("Break").as_slice()) {
            return NodeType::Break;
        }
        if chars_eq(v.as_slice(), chars_of("Continue").as_slice()) {
            return NodeType::Continue;
        }
        if chars_eq(v.as_slice(), chars_of("DoWhileStatement").as_slice()) {
            return NodeType::DoWhileStatement;
        }
        if chars_eq(v.as_slice(), chars_of("EmitStatement").as_slice()) {
            return NodeType::EmitStatement;
        }
        if chars_eq(v.as_slice(), chars_of("ExpressionStatement").as_slice()) {
            return NodeType::ExpressionStatement;
        }
        if chars_eq(v.as_slice(), chars_of("ForStatement").as_slice()) {
            return NodeType::ForStatement;
        }
        if chars_eq(v.as_slice(), chars_of("IfStatement").as_slice()) {
            return NodeType::IfStatement;
        }
        if chars_eq(v.as_slice(), chars_of("InlineAssembly").as_slice()) {
            return NodeType::InlineAssembly;
        }
        if chars_eq(v.as_slice(), chars_of("PlaceholderStatement").as_slice()) {
            return NodeType::PlaceholderStatement;
        }
        if chars_eq(v.as_slice(), chars_of("Return").as_slice()) {
            return NodeType::Return;
        }
        if chars_eq(v.as_slice(), chars_of("RevertStatement").as_slice()) {
            return NodeType::RevertStatement;
        }
        if chars_eq(v.as_slice(), chars_of("TryStatement").as_slice()) {
            return NodeType::TryStatement;
        }
        if chars_eq(v.as_slice(), chars_of("UncheckedBlock").as_slice()) {
            return NodeType::UncheckedBlock;
        }
        if chars_eq(v.as_slice(), chars_of("VariableDeclarationStatement").as_slice()) {
            return NodeType::VariableDeclarationStatement;
        }
        if chars_eq(v.as_slice(), chars_of("VariableDeclaration").as_slice()) {
            return NodeType::VariableDeclaration;
        }
        if chars_eq(v.as_slice(), chars_of("WhileStatement").as_slice()) {
            return NodeType::WhileStatement;
        }
        if chars_eq(v.as_slice(), chars_of("YulAssignment").as_slice()) {
            return NodeType::YulAssignment;
        }
        if chars_eq(v.as_slice(), chars_of("YulBlock").as_slice()) {
            return NodeType::YulBlock;
        }
        if chars_eq(v.as_slice(), chars_of("YulBreak").as_slice()) {
            return NodeType::YulBreak;
        }
        if chars_eq(v.as_slice(), chars_of("YulCase").as_slice()) {
            return NodeType::YulCase;
        }
        if chars_eq(v.as_slice(), chars_of("YulContinue").as_slice()) {
            return NodeType::YulContinue;
        }
        if chars_eq(v.as_slice(), chars_of("YulExpressionStatement").as_slice()) {
            return NodeType::YulExpressionStatement;
        }
        if chars_eq(v.as_slice(), chars_of("YulLeave").as_slice()) {
            return NodeType::YulLeave;
        }
        if chars_eq(v.as_slice(), chars_of("YulForLoop").as_slice()) {
            return NodeType::YulForLoop;
        }
        if chars_eq(v.as_slice(), chars_of("YulFunctionDefinition").as_slice()) {
            return NodeType::YulFunctionDefinition;
        }
        if chars_eq(v.as_slice(), chars_of("YulIf").as_slice()) {
            return NodeType::YulIf;
        }
        if chars_eq(v.as_slice(), chars_of("YulSwitch").as_slice()) {
            return NodeType::YulSwitch;
        }
        if chars_eq(v.as_slice(), chars_of("YulVariableDeclaration").as_slice()) {
            return NodeType::YulVariableDeclaration;
        }
        if chars_eq(v.as_slice(), chars_of("YulFunctionCall").as_slice()) {
            return NodeType::YulFunctionCall;
        }
        if chars_eq(v.as_slice(), chars_of("YulIdentifier").as_slice()) {
            return NodeType::YulIdentifier;
        }
        if chars_eq(v.as_slice(), chars_of("YulLiteral").as_slice()) {
            return NodeType::YulLiteral;
        }
        if chars_eq(v.as_slice(), chars_of("YulLiteralValue").as_slice()) {
            return NodeType::YulLiteralValue;
        }
        if chars_eq(v.as_slice(), chars_of("YulHexValue").as_slice()) {
            return NodeType::YulHexValue;
        }
        if chars_eq(v.as_slice(), chars_of("YulTypedName").as_slice()) {
            return NodeType::YulTypedName;
        }
        if chars_eq(v.as_slice(), chars_of("ContractDefinition").as_slice()) {
            return NodeType::ContractDefinition;
        }
        if chars_eq(v.as_slice(), chars_of("FunctionDefinition").as_slice()) {
            return NodeType::FunctionDefinition;
        }
        if chars_eq(v.as_slice(), chars_of("EventDefinition").as_slice()) {
            return NodeType::EventDefinition;
        }
        if chars_eq(v.as_slice(), chars_of("ErrorDefinition").as_slice()) {
            return NodeType::ErrorDefinition;
        }
        if chars_eq(v.as_slice(), chars_of("ModifierDefinition").as_slice()) {
            return NodeType::ModifierDefinition;
        }
        if chars_eq(v.as_slice(), chars_of("StructDefinition").as_slice()) {
            return NodeType::StructDefinition;
        }
        if chars_eq(v.as_slice(), chars_of("EnumDefinition").as_slice()) {
            return NodeType::EnumDefinition;
        }
        if chars_eq(v.as_slice(), chars_of("UserDefinedValueTypeDefinition").as_slice()) {
            return NodeType::UserDefinedValueTypeDefinition;
        }
        if chars_eq(v.as_slice(), chars_of("PragmaDirective").as_slice()) {
            return NodeType::PragmaDirective;
        }
        if chars_eq(v.as_slice(), chars_of("ImportDirective").as_slice()) {
            return NodeType::ImportDirective;
        }
        if chars_eq(v.as_slice(), chars_of("UsingForDirective").as_slice()) {
            return NodeType::UsingForDirective;
        }
        if chars_eq(v.as_slice(), chars_of("SourceUnit").as_slice()) {
            return NodeType::SourceUnit;
        }
        if chars_eq(v.as_slice(), chars_of("InheritanceSpecifier").as_slice()) {
            return NodeType::InheritanceSpecifier;
        }
        if chars_eq(v.as_slice(), chars_of("ElementaryTypeName").as_slice()) {
            return NodeType::ElementaryTypeName;
        }
        if chars_eq(v.as_slice(), chars_of("FunctionTypeName").as_slice()) {
            return NodeType::FunctionTypeName;
        }
        if chars_eq(v.as_slice(), chars_of("ParameterList").as_slice()) {
            return NodeType::ParameterList;
        }
        if chars_eq(v.as_slice(), chars_of("TryCatchClause").as_slice()) {
            return NodeType::TryCatchClause;
        }
        if chars_eq(v.as_slice(), chars_of("ModifierInvocation").as_slice()) {
            return NodeType::ModifierInvocation;
        }
        NodeType::Other(owned(s))
    }
}

/// The name of the node type read from a name is that name.
pub proof fn lemma_node_type_name_of_from_name(s: Seq<char>)
    ensures
        match known_node_type(s) {
            Some(t) => node_type_name(t) == s,
            None => true,
        },
{
}

/// Reading back the name of a node type gives the node type, for every node
/// type but an unknown one that carries the name of a known one.
#[verifier::spinoff_prover]
pub proof fn lemma_node_type_from_name_of_name(t: NodeType)
    requires
        t is Other ==> known_node_type(t->Other_0@) is None,
    ensures
        t is Other ==> known_node_type(node_type_name(t)) is None && node_type_name(t) == t->Other_0@,
        !(t is Other) ==> known_node_type(node_type_name(t)) == Some(t),
{
    reveal_strlit("Assignment");
    reveal_strlit("BinaryOperation");
    reveal_strlit("Conditional");
    reveal_strlit("ElementaryTypeNameExpression");
    reveal_strlit("FunctionCall");
    reveal_strlit("FunctionCallOptions");
    reveal_strlit("Identifier");
    reveal_strlit("IndexAccess");
    reveal_strlit("IndexRangeAccess");
    reveal_strlit("Literal");
    reveal_strlit("MemberAccess");
    reveal_strlit("NewExpression");
    reveal_strlit("TupleExpression");
    reveal_strlit("UnaryOperation");
    reveal_strlit("Block");
    reveal_strlit("Break");
    reveal_strlit("Continue");
    reveal_strlit("DoWhileStatement");
    reveal_strlit("EmitStatement");
    reveal_strlit("ExpressionStatement");
    reveal_strlit("ForStatement");
    reveal_strlit("IfStatement");
    reveal_strlit("InlineAssembly");
    reveal_strlit("PlaceholderStatement");
    reveal_strlit("Return");
    reveal_strlit("RevertStatement");
    reveal_strlit("TryStatement");
    reveal_strlit("UncheckedBlock");
    reveal_strlit("VariableDeclarationStatement");
    reveal_strlit("VariableDeclaration");
    reveal_strlit("WhileStatement");
    reveal_strlit("YulAssignment");
    reveal_strlit("YulBlock");
    reveal_strlit("YulBreak");
    reveal_strlit("YulCase");
    reveal_strlit("YulContinue");
    reveal_strlit("YulExpressionStatement");
    reveal_strlit("YulLeave");
    reveal_strlit("YulForLoop");
    reveal_strlit("YulFunctionDefinition");
    reveal_strlit("YulIf");
    reveal_strlit("YulSwitch");
    reveal_strlit("YulVariableDeclaration");
    reveal_strlit("YulFunctionCall");
    reveal_strlit("YulIdentifier");
    reveal_strlit("YulLiteral");
    reveal_strlit("YulLiteralValue");
    reveal_strlit("YulHexValue");
    reveal_strlit("YulTypedName");
    reveal_strlit("ContractDefinition");
    reveal_strlit("FunctionDefinition");
    reveal_strlit("EventDefinition");
    reveal_strlit("ErrorDefinition");
    reveal_strlit("ModifierDefinition");
    reveal_strlit("StructDefinition");
    reveal_strlit("EnumDefinition");
    reveal_strlit("UserDefinedValueTypeDefinition");
    reveal_strlit("PragmaDirective");
    reveal_strlit("ImportDirective");
    reveal_strlit("UsingForDirective");
    reveal_strlit("SourceUnit");
    reveal_strlit("InheritanceSpecifier");
    reveal_strlit("ElementaryTypeName");
    reveal_strlit("FunctionTypeName");
    reveal_strlit("ParameterList");
    reveal_strlit("TryCatchClause");
    reveal_strlit("ModifierInvocation");
    assert("Assignment"@.len() == 10);
    assert("BinaryOperation"@.len() == 15);
    assert("Conditional"@.len() == 11);
    assert("ElementaryTypeNameExpression"@.len() == 28);
    assert("FunctionCall"@.len() == 12);
    assert("FunctionCallOptions"@.len() == 19);
    assert("Identifier"@.len() == 10);
    assert("IndexAccess"@.len() == 11);
    assert("IndexRangeAccess"@.len() == 16);
    assert("Literal"@.len() == 7);
    assert("MemberAccess"@.len() == 12);
    assert("NewExpression"@.len() == 13);
    assert("TupleExpression"@.len() == 15);
    assert("UnaryOperation"@.len() == 14);
    assert("Block"@.len() == 5);
    assert("Break"@.len() == 5);
    assert("Continue"@.len() == 8);
    assert("DoWhileStatement"@.len() == 16);
    assert("EmitStatement"@.len() == 13);
    assert("ExpressionStatement"@.len() == 19);
    assert("ForStatement"@.len() == 12);
    assert("IfStatement"@.len() == 11);
    assert("InlineAssembly"@.len() == 14);
    assert("PlaceholderStatement"@.len() == 20);
    assert("Return"@.len() == 6);
    assert("RevertStatement"@.len() == 15);
    assert("TryStatement"@.len() == 12);
    assert("UncheckedBlock"@.len() == 14);
    assert("VariableDeclarationStatement"@.len() == 28);
    assert("VariableDeclaration"@.len() == 19);
    assert("WhileStatement"@.len() == 14);
    assert("YulAssignment"@.len() == 13);
    assert("YulBlock"@.len() == 8);
    assert("YulBreak"@.len() == 8);
    assert("YulCase"@.len() == 7);
    assert("YulContinue"@.len() == 11);
    assert("YulExpressionStatement"@.len() == 22);
    assert("YulLeave"@.len() == 8);
    assert("YulForLoop"@.len() == 10);
    assert("YulFunctionDefinition"@.len() == 21);
    assert("YulIf"@.len() == 5);
    assert("YulSwitch"@.len() == 9);
    assert("YulVariableDeclaration"@.len() == 22);
    assert("YulFunctionCall"@.len() == 15);
    assert("YulIdentifier"@.len() == 13);
    assert("YulLiteral"@.len() == 10);
    assert("YulLiteralValue"@.len() == 15);
    assert("YulHexValue"@.len() == 11);
    assert("YulTypedName"@.len() == 12);
    assert("ContractDefinition"@.len() == 18);
    assert("FunctionDefinition"@.len() == 18);
    assert("EventDefinition"@.len() == 15);
    assert("ErrorDefinition"@.len() == 15);
    assert("ModifierDefinition"@.len() == 18);
    assert("StructDefinition"@.len() == 16);
    assert("EnumDefinition"@.len() == 14);
    assert("UserDefinedValueTypeDefinition"@.len() == 30);
    assert("PragmaDirective"@.len() == 15);
    assert("ImportDirective"@.len() == 15);
    assert("UsingForDirective"@.len() == 17);
    assert("SourceUnit"@.len() == 10);
    assert("InheritanceSpecifier"@.len() == 20);
    assert("ElementaryTypeName"@.len() == 18);
    assert("FunctionTypeName"@.len() == 16);
    assert("ParameterList"@.len() == 13);
    assert("TryCatchClause"@.len() == 14);
    assert("ModifierInvocation"@.len() == 18);
    match t {
        NodeType::Assignment => {
            assert(known_node_type("Assignment"@) == Some(NodeType::Assignment));
        },
        NodeType::BinaryOperation => {
            assert(known_node_type("BinaryOperation"@) == Some(NodeType::BinaryOperation));
        },
        NodeType::Conditional => {
            assert(known_node_type("Conditional"@) == Some(NodeType::Conditional));
        },
        NodeType::ElementaryTypeNameExpression => {
            assert(known_node_type("ElementaryTypeNameExpression"@) == Some(NodeType::ElementaryTypeNameExpression));
        },
        NodeType::FunctionCall => {
            assert(known_node_type("FunctionCall"@) == Some(NodeType::FunctionCall));
        },
        NodeType::FunctionCallOptions => {
            assert(known_node_type("FunctionCallOptions"@) == Some(NodeType::FunctionCallOptions));
        },
        NodeType::Identifier => {
            assert("Identifier"@[0] != "Assignment"@[0]);
            assert(known_node_type("Identifier"@) == Some(NodeType::Identifier));
        },
        NodeType::IndexAccess => {
            assert("IndexAccess"@[0] != "Conditional"@[0]);
            assert(known_node_type("IndexAccess"@) == Some(NodeType::IndexAccess));
        },
        NodeType::IndexRangeAccess => {
            assert(known_node_type("IndexRangeAccess"@) == Some(NodeType::IndexRangeAccess));
        },
        NodeType::Literal => {
            assert(known_node_type("Literal"@) == Some(NodeType::Literal));
        },
        NodeType::MemberAccess => {
            assert("MemberAccess"@[0] != "FunctionCall"@[0]);
            assert(known_node_type("MemberAccess"@) == Some(NodeType::MemberAccess));
        },
        NodeType::NewExpression => {
            assert(known_node_type("NewExpression"@) == Some(NodeType::NewExpression));
        },
        NodeType::TupleExpression => {
            assert("TupleExpression"@[0] != "BinaryOperation"@[0]);
            assert(known_node_type("TupleExpression"@) == Some(NodeType::TupleExpression));
        },
        NodeType::UnaryOperation => {
            assert(known_node_type("UnaryOperation"@) == Some(NodeType::UnaryOperation));
        },
        NodeType::Block => {
            assert(known_node_type("Block"@) == Some(NodeType::Block));
        },
        NodeType::Break => {
            assert("Break"@[1] != "Block"@[1]);
            assert(known_node_type("Break"@) == Some(NodeType::Break));
        },
        NodeType::Continue => {
            assert(known_node_type("Continue"@) == Some(NodeType::Continue));
        },
        NodeType::DoWhileStatement => {
            assert("DoWhileStatement"@[0] != "IndexRangeAccess"@[0]);
            assert(known_node_type("DoWhileStatement"@) == Some(NodeType::DoWhileStatement));
        },
        NodeType::EmitStatement => {
            assert("EmitStatement"@[0] != "NewExpression"@[0]);
            assert(known_node_type("EmitStatement"@) == Some(NodeType::EmitStatement));
        },
        NodeType::ExpressionStatement => {
            assert("ExpressionStatement"@[0] != "FunctionCallOptions"@[0]);
            assert(known_node_type("ExpressionStatement"@) == Some(NodeType::ExpressionStatement));
        },
        NodeType::ForStatement => {
            assert("ForStatement"@[1] != "FunctionCall"@[1]);
            assert("ForStatement"@[0] != "MemberAccess"@[0]);
            assert(known_node_type("ForStatement"@) == Some(NodeType::ForStatement));
        },
        NodeType::IfStatement => {
            assert("IfStatement"@[0] != "Conditional"@[0]);
            assert("IfStatement"@[1] != "IndexAccess"@[1]);
            assert(known_node_type("IfStatement"@) == Some(NodeType::IfStatement));
        },
        NodeType::InlineAssembly => {
            assert("InlineAssembly"@[0] != "UnaryOperation"@[0]);
            assert(known_node_type("InlineAssembly"@) == Some(NodeType::InlineAssembly));
        },
        NodeType::PlaceholderStatement => {
            assert(known_node_type("PlaceholderStatement"@) == Some(NodeType::PlaceholderStatement));
        },
        NodeType::Return => {
            assert(known_node_type("Return"@) == Some(NodeType::Return));
        },
        NodeType::RevertStatement => {
            assert("RevertStatement"@[0] != "BinaryOperation"@[0]);
            assert("RevertStatement"@[0] != "TupleExpression"@[0]);
            assert(known_node_type("RevertStatement"@) == Some(NodeType::RevertStatement));
        },
        NodeType::TryStatement => {
            assert("TryStatement"@[0] != "FunctionCall"@[0]);
            assert("TryStatement"@[0] != "MemberAccess"@[0]);
            assert("TryStatement"@[0] != "ForStatement"@[0]);
            assert(known_node_type("TryStatement"@) == Some(NodeType::TryStatement));
        },
        NodeType::UncheckedBlock => {
            assert("UncheckedBlock"@[2] != "UnaryOperation"@[2]);
            assert("UncheckedBlock"@[0] != "InlineAssembly"@[0]);
            assert(known_node_type("UncheckedBlock"@) == Some(NodeType::UncheckedBlock));
        },
        NodeType::VariableDeclarationStatement => {
            assert("VariableDeclarationStatement"@[0] != "ElementaryTypeNameExpression"@[0]);
            assert(known_node_type("VariableDeclarationStatement"@) == Some(NodeType::VariableDeclarationStatement));
        },
        NodeType::VariableDeclaration => {
            assert("VariableDeclaration"@[0] != "FunctionCallOptions"@[0]);
            assert("VariableDeclaration"@[0] != "ExpressionStatement"@[0]);
            assert(known_node_type("VariableDeclaration"@) == Some(NodeType::VariableDeclaration));
        },
        NodeType::WhileStatement => {
            assert("WhileStatement"@[0] != "UnaryOperation"@[0]);
            assert("WhileStatement"@[0] != "InlineAssembly"@[0]);
            assert("WhileStatement"@[0] != "UncheckedBlock"@[0]);
            assert(known_node_type("WhileStatement"@) == Some(NodeType::WhileStatement));
        },
        NodeType::YulAssignment => {
            assert("YulAssignment"@[0] != "NewExpression"@[0]);
            assert("YulAssignment"@[0] != "EmitStatement"@[0]);
            assert(known_node_type("YulAssignment"@) == Some(NodeType::YulAssignment));
        },
        NodeType::YulBlock => {
            assert("YulBlock"@[0] != "Continue"@[0]);
            assert(known_node_type("YulBlock"@) == Some(NodeType::YulBlock));
        },
        NodeType::YulBreak => {
            assert("YulBreak"@[0] != "Continue"@[0]);
            assert("YulBreak"@[4] != "YulBlock"@[4]);
            assert(known_node_type("YulBreak"@) == Some(NodeType::YulBreak));
        },
        NodeType::YulCase => {
            assert("YulCase"@[0] != "Literal"@[0]);
            assert(known_node_type("YulCase"@) == Some(NodeType::YulCase));
        },
        NodeType::YulContinue => {
            assert("YulContinue"@[0] != "Conditional"@[0]);
            assert("YulContinue"@[0] != "IndexAccess"@[0]);
            assert("YulContinue"@[0] != "IfStatement"@[0]);
            assert(known_node_type("YulContinue"@) == Some(NodeType::YulContinue));
        },
        NodeType::YulExpressionStatement => {
            assert(known_node_type("YulExpressionStatement"@) == Some(NodeType::YulExpressionStatement));
        },
        NodeType::YulLeave => {
            assert("YulLeave"@[0] != "Continue"@[0]);
            assert("YulLeave"@[3] != "YulBlock"@[3]);
            assert("YulLeave"@[3] != "YulBreak"@[3]);
            assert(known_node_type("YulLeave"@) == Some(NodeType::YulLeave));
        },
        NodeType::YulForLoop => {
            assert("YulForLoop"@[0] != "Assignment"@[0]);
            assert("YulForLoop"@[0] != "Identifier"@[0]);
            assert(known_node_type("YulForLoop"@) == Some(NodeType::YulForLoop));
        },
        NodeType::YulFunctionDefinition => {
            assert(known_node_type("YulFunctionDefinition"@) == Some(NodeType::YulFunctionDefinition));
        },
        NodeType::YulIf => {
            assert("YulIf"@[0] != "Block"@[0]);
            assert("YulIf"@[0] != "Break"@[0]);
            assert(known_node_type("YulIf"@) == Some(NodeType::YulIf));
        },
        NodeType::YulSwitch => {
            assert(known_node_type("YulSwitch"@) == Some(NodeType::YulSwitch));
        },
        NodeType::YulVariableDeclaration => {
            assert("YulVariableDeclaration"@[3] != "YulExpressionStatement"@[3]);
            assert(known_node_type("YulVariableDeclaration"@) == Some(NodeType::YulVariableDeclaration));
        },
        NodeType::YulFunctionCall => {
            assert("YulFunctionCall"@[0] != "BinaryOperation"@[0]);
            assert("YulFunctionCall"@[0] != "TupleExpression"@[0]);
            assert("YulFunctionCall"@[0] != "RevertStatement"@[0]);
            assert(known_node_type("YulFunctionCall"@) == Some(NodeType::YulFunctionCall));
        },
        NodeType::YulIdentifier => {
            assert("YulIdentifier"@[0] != "NewExpression"@[0]);
            assert("YulIdentifier"@[0] != "EmitStatement"@[0]);
            assert("YulIdentifier"@[3] != "YulAssignment"@[3]);
            assert(known_node_type("YulIdentifier"@) == Some(NodeType::YulIdentifier));
        },
        NodeType::YulLiteral => {
            assert("YulLiteral"@[0] != "Assignment"@[0]);
            assert("YulLiteral"@[0] != "Identifier"@[0]);
            assert("YulLiteral"@[3] != "YulForLoop"@[3]);
            assert(known_node_type("YulLiteral"@) == Some(NodeType::YulLiteral));
        },
        NodeType::YulLiteralValue => {
            assert("YulLiteralValue"@[0] != "BinaryOperation"@[0]);
            assert("YulLiteralValue"@[0] != "TupleExpression"@[0]);
            assert("YulLiteralValue"@[0] != "RevertStatement"@[0]);
            assert("YulLiteralValue"@[3] != "YulFunctionCall"@[3]);
            assert(known_node_type("YulLiteralValue"@) == Some(NodeType::YulLiteralValue));
        },
        NodeType::YulHexValue => {
            assert("YulHexValue"@[0] != "Conditional"@[0]);
            assert("YulHexValue"@[0] != "IndexAccess"@[0]);
            assert("YulHexValue"@[0] != "IfStatement"@[0]);
            assert("YulHexValue"@[3] != "YulContinue"@[3]);
            assert(known_node_type("YulHexValue"@) == Some(NodeType::YulHexValue));
        },
        NodeType::YulTypedName => {
            assert("YulTypedName"@[0] != "FunctionCall"@[0]);
            assert("YulTypedName"@[0] != "MemberAccess"@[0]);
            assert("YulTypedName"@[0] != "ForStatement"@[0]);
            assert("YulTypedName"@[0] != "TryStatement"@[0]);
            assert(known_node_type("YulTypedName"@) == Some(NodeType::YulTypedName));
        },
        NodeType::ContractDefinition => {
            assert(known_node_type("ContractDefinition"@) == Some(NodeType::ContractDefinition));
        },
        NodeType::FunctionDefinition => {
            assert("FunctionDefinition"@[0] != "ContractDefinition"@[0]);
            assert(known_node_type("FunctionDefinition"@) == Some(NodeType::FunctionDefinition));
        },
        NodeType::EventDefinition => {
            assert("EventDefinition"@[0] != "BinaryOperation"@[0]);
            assert("EventDefinition"@[0] != "TupleExpression"@[0]);
            assert("EventDefinition"@[0] != "RevertStatement"@[0]);
            assert("EventDefinition"@[0] != "YulFunctionCall"@[0]);
            assert("EventDefinition"@[0] != "YulLiteralValue"@[0]);
            assert(known_node_type("EventDefinition"@) == Some(NodeType::EventDefinition));
        },
        NodeType::ErrorDefinition => {
            assert("ErrorDefinition"@[0] != "BinaryOperation"@[0]);
            assert("ErrorDefinition"@[0] != "TupleExpression"@[0]);
            assert("ErrorDefinition"@[0] != "RevertStatement"@[0]);
            assert("ErrorDefinition"@[0] != "YulFunctionCall"@[0]);
            assert("ErrorDefinition"@[0] != "YulLiteralValue"@[0]);
            assert("ErrorDefinition"@[1] != "EventDefinition"@[1]);
            assert(known_node_type("ErrorDefinition"@) == Some(NodeType::ErrorDefinition));
        },
        NodeType::ModifierDefinition => {
            assert("ModifierDefinition"@[0] != "ContractDefinition"@[0]);
            assert("ModifierDefinition"@[0] != "FunctionDefinition"@[0]);
            assert(known_node_type("ModifierDefinition"@) == Some(NodeType::ModifierDefinition));
        },
        NodeType::StructDefinition => {
            assert("StructDefinition"@[0] != "IndexRangeAccess"@[0]);
            assert("StructDefinition"@[0] != "DoWhileStatement"@[0]);
            assert(known_node_type("StructDefinition"@) == Some(NodeType::StructDefinition));
        },
        NodeType::EnumDefinition => {
            assert("EnumDefinition"@[0] != "UnaryOperation"@[0]);
            assert("EnumDefinition"@[0] != "InlineAssembly"@[0]);
            assert("EnumDefinition"@[0] != "UncheckedBlock"@[0]);
            assert("EnumDefinition"@[0] != "WhileStatement"@[0]);
            assert(known_node_type("EnumDefinition"@) == Some(NodeType::EnumDefinition));
        },
        NodeType::UserDefinedValueTypeDefinition => {
            assert(known_node_type("UserDefinedValueTypeDefinition"@) == Some(NodeType::UserDefinedValueTypeDefinition));
        },
        NodeType::PragmaDirective => {
            assert("PragmaDirective"@[0] != "BinaryOperation"@[0]);
            assert("PragmaDirective"@[0] != "TupleExpression"@[0]);
            assert("PragmaDirective"@[0] != "RevertStatement"@[0]);
            assert("PragmaDirective"@[0] != "YulFunctionCall"@[0]);
            assert("PragmaDirective"@[0] != "YulLiteralValue"@[0]);
            assert("PragmaDirective"@[0] != "EventDefinition"@[0]);
            assert("PragmaDirective"@[0] != "ErrorDefinition"@[0]);
            assert(known_node_type("PragmaDirective"@) == Some(NodeType::PragmaDirective));
        },
        NodeType::ImportDirective => {
            assert("ImportDirective"@[0] != "BinaryOperation"@[0]);
            assert("ImportDirective"@[0] != "TupleExpression"@[0]);
            assert("ImportDirective"@[0] != "RevertStatement"@[0]);
            assert("ImportDirective"@[0] != "YulFunctionCall"@[0]);
            assert("ImportDirective"@[0] != "YulLiteralValue"@[0]);
            assert("ImportDirective"@[0] != "EventDefinition"@[0]);
            assert("ImportDirective"@[0] != "ErrorDefinition"@[0]);
            assert("ImportDirective"@[0] != "PragmaDirective"@[0]);
            assert(known_node_type("ImportDirective"@) == Some(NodeType::ImportDirective));
        },
        NodeType::UsingForDirective => {
            assert(known_node_type("UsingForDirective"@) == Some(NodeType::UsingForDirective));
        },
        NodeType::SourceUnit => {
            assert("SourceUnit"@[0] != "Assignment"@[0]);
            assert("SourceUnit"@[0] != "Identifier"@[0]);
            assert("SourceUnit"@[0] != "YulForLoop"@[0]);
            assert("SourceUnit"@[0] != "YulLiteral"@[0]);
            assert(known_node_type("SourceUnit"@) == Some(NodeType::SourceUnit));
        },
        NodeType::InheritanceSpecifier => {
            assert("InheritanceSpecifier"@[0] != "PlaceholderStatement"@[0]);
            assert(known_node_type("InheritanceSpecifier"@) == Some(NodeType::InheritanceSpecifier));
        },
        NodeType::ElementaryTypeName => {
            assert("ElementaryTypeName"@[0] != "ContractDefinition"@[0]);
            assert("ElementaryTypeName"@[0] != "FunctionDefinition"@[0]);
            assert("ElementaryTypeName"@[0] != "ModifierDefinition"@[0]);
            assert(known_node_type("ElementaryTypeName"@) == Some(NodeType::ElementaryTypeName));
        },
        NodeType::FunctionTypeName => {
            assert("FunctionTypeName"@[0] != "IndexRangeAccess"@[0]);
            assert("FunctionTypeName"@[0] != "DoWhileStatement"@[0]);
            assert("FunctionTypeName"@[0] != "StructDefinition"@[0]);
            assert(known_node_type("FunctionTypeName"@) == Some(NodeType::FunctionTypeName));
        },
        NodeType::ParameterList => {
            assert("ParameterList"@[0] != "NewExpression"@[0]);
            assert("ParameterList"@[0] != "EmitStatement"@[0]);
            assert("ParameterList"@[0] != "YulAssignment"@[0]);
            assert("ParameterList"@[0] != "YulIdentifier"@[0]);
            assert(known_node_type("ParameterList"@) == Some(NodeType::ParameterList));
        },
        NodeType::TryCatchClause => {
            assert("TryCatchClause"@[0] != "UnaryOperation"@[0]);
            assert("TryCatchClause"@[0] != "InlineAssembly"@[0]);
            assert("TryCatchClause"@[0] != "UncheckedBlock"@[0]);
            assert("TryCatchClause"@[0] != "WhileStatement"@[0]);
            assert("TryCatchClause"@[0] != "EnumDefinition"@[0]);
            assert(known_node_type("TryCatchClause"@) == Some(NodeType::TryCatchClause));
        },
        NodeType::ModifierInvocation => {
            assert("ModifierInvocation"@[0] != "ContractDefinition"@[0]);
            assert("ModifierInvocation"@[0] != "FunctionDefinition"@[0]);
            assert("ModifierInvocation"@[8] != "ModifierDefinition"@[8]);
            assert("ModifierInvocation"@[0] != "ElementaryTypeName"@[0]);
            assert(known_node_type("ModifierInvocation"@) == Some(NodeType::ModifierInvocation));
        },
        NodeType::Other(_) => {},
    }
}

} // verus!
