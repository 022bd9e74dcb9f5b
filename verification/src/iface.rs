//! The interface representation of a solidity source: the source without the
//! parts that do not alter the interface of its contracts (internal functions,
//! bodies of exposed functions), used to tell whether a change to a file can
//! affect the files that depend on it.

use crate::hashing::{hex_lower, md5_hex, spec_md5};
use crate::sources::Source;
use crate::text::{chars_of, is_whitespace, is_ws, string_from_chars};
use vstd::prelude::*;
use vstd::string::StringSliceAdditionalSpecFns;
use vstd::utf8::{encode_scalar, encode_utf8};
use solar_parse::ast::{Arena, ImportItems, ItemKind, PragmaTokens};
use solar_parse::interface::source_map::FileName;
use solar_parse::interface::Session;
use solar_parse::Parser;

verus! {

/// The kind of a contract definition.
#[derive(Clone, Copy, Debug, PartialEq, Eq, Structural)]
pub enum ContractKindTag {
    Contract,
    AbstractContract,
    Interface,
    Library,
}

/// The kind of a function definition.
#[derive(Clone, Copy, Debug, PartialEq, Eq, Structural)]
pub enum FunctionKindTag {
    Constructor,
    Function,
    Fallback,
    Receive,
    Modifier,
}

/// The visibility of a function.
#[derive(Clone, Copy, Debug, PartialEq, Eq, Structural)]
pub enum VisibilityTag {
    Private,
    Internal,
    Public,
    External,
}

/// An item in the body of a contract, as far as its interface depends on it.
#[derive(Clone, Copy, Debug)]
pub enum BodyItem {
    /// A function, constructor, fallback, receive or modifier, with the byte
    /// ranges of the whole item and of its body.
    Function {
        kind: FunctionKindTag,
        visibility: Option<VisibilityTag>,
        span: (usize, usize),
        body_span: (usize, usize),
    },
    /// Any other item.
    Other,
}

/// What an import brings in: the file, possibly under an alias
/// (`import "a.sol" as A;`), a list of names each possibly renamed
/// (`import { A as B, C } from "a.sol";`), or the whole file under an alias
/// (`import * as A from "a.sol";`).
#[derive(Clone, Debug)]
pub enum ImportItemsTag {
    Plain(Option<String>),
    Aliases(Vec<(String, Option<String>)>),
    Glob(String),
}

/// An [`ImportItemsTag`] as a value.
pub enum ImportItemsView {
    Plain(Option<Seq<char>>),
    Aliases(Seq<(Seq<char>, Option<Seq<char>>)>),
    Glob(Seq<char>),
}

/// The characters of an optional text.
pub open spec fn opt_chars(v: Option<String>) -> Option<Seq<char>> {
    match v {
        Some(s) => Some(s@),
        None => None,
    }
}

impl View for ImportItemsTag {
    type V = ImportItemsView;

    open spec fn view(&self) -> ImportItemsView {
        match self {
            ImportItemsTag::Plain(a) => ImportItemsView::Plain(opt_chars(*a)),
            ImportItemsTag::Aliases(v) => ImportItemsView::Aliases(
                v@.map_values(|p: (String, Option<String>)| (p.0@, opt_chars(p.1))),
            ),
            ImportItemsTag::Glob(a) => ImportItemsView::Glob(a@),
        }
    }
}

/// A top-level item of a source unit, with the byte range it spans.
#[derive(Debug)]
pub enum SourceItem {
    /// A contract, abstract contract, interface or library, with its name and body.
    Contract { kind: ContractKindTag, name: String, body: Vec<BodyItem>, span: (usize, usize) },
    /// `pragma <name> <requirement>;` where the requirement is a version requirement.
    VersionPragma { name: String, req: String, span: (usize, usize) },
    /// `pragma <name> [value];`
    CustomPragma { name: String, value: Option<String>, span: (usize, usize) },
    /// An import of a path.
    Import { path: String, items: ImportItemsTag, span: (usize, usize) },
    /// Any other item.
    Other,
}

/// A [`SourceItem`] as a value.
pub enum SourceItemView {
    Contract { kind: ContractKindTag, name: Seq<char>, body: Seq<BodyItem>, span: (usize, usize) },
    VersionPragma { name: Seq<char>, req: Seq<char>, span: (usize, usize) },
    CustomPragma { name: Seq<char>, value: Option<Seq<char>>, span: (usize, usize) },
    Import { path: Seq<char>, items: ImportItemsView, span: (usize, usize) },
    Other,
}

impl View for SourceItem {
    type V = SourceItemView;

    open spec fn view(&self) -> SourceItemView {
        match self {
            SourceItem::Contract { kind, name, body, span } => SourceItemView::Contract {
                kind: *kind,
                name: name@,
                body: body@,
                span: *span,
            },
            SourceItem::VersionPragma { name, req, span } => SourceItemView::VersionPragma {
                name: name@,
                req: req@,
                span: *span,
            },
            SourceItem::CustomPragma { name, value, span } => SourceItemView::CustomPragma {
                name: name@,
                value: opt_chars(*value),
                span: *span,
            },
            SourceItem::Import { path, items, span } => SourceItemView::Import {
                path: path@,
                items: items@,
                span: *span,
            },
            SourceItem::Other => SourceItemView::Other,
        }
    }
}

/// The views of items.
pub open spec fn item_views(v: Seq<SourceItem>) -> Seq<SourceItemView> {
    v.map_values(|i: SourceItem| i@)
}

/// The top-level items that `solar_parse` reads from a source with the given
/// file name, or none where it reports errors.
pub uninterp spec fn solar_source_items(content: Seq<char>, path: Seq<char>) -> Option<Seq<SourceItemView>>;

/// The contract kind of the `solar_parse` crate.
#[verifier::external_type_specification]
#[verifier::external_body]
pub struct ExSolarContractKind(solar_parse::ast::ContractKind);

/// The function kind of the `solar_parse` crate.
#[verifier::external_type_specification]
#[verifier::external_body]
pub struct ExSolarFunctionKind(solar_parse::ast::FunctionKind);

/// The visibility of the `solar_parse` crate.
#[verifier::external_type_specification]
#[verifier::external_body]
pub struct ExSolarVisibility(solar_parse::ast::Visibility);

/// An item of the `solar_parse` syntax tree.
#[verifier::external_type_specification]
#[verifier::external_body]
pub struct ExSolarItem<'ast>(solar_parse::ast::Item<'ast>);

/// Converts a `solar_parse` contract kind to the kind of the same name.
#[verifier::external_body]
fn contract_kind_of(k: solar_parse::ast::ContractKind) -> ContractKindTag {
    match k {
        solar_parse::ast::ContractKind::Contract => ContractKindTag::Contract,
        solar_parse::ast::ContractKind::AbstractContract => ContractKindTag::AbstractContract,
        solar_parse::ast::ContractKind::Interface => ContractKindTag::Interface,
        solar_parse::ast::ContractKind::Library => ContractKindTag::Library,
    }
}

/// Converts a `solar_parse` function kind to the kind of the same name.
#[verifier::external_body]
fn function_kind_of(k: solar_parse::ast::FunctionKind) -> FunctionKindTag {
    match k {
        solar_parse::ast::FunctionKind::Constructor => FunctionKindTag::Constructor,
        solar_parse::ast::FunctionKind::Function => FunctionKindTag::Function,
        solar_parse::ast::FunctionKind::Fallback => FunctionKindTag::Fallback,
        solar_parse::ast::FunctionKind::Receive => FunctionKindTag::Receive,
        solar_parse::ast::FunctionKind::Modifier => FunctionKindTag::Modifier,
    }
}

/// Converts a `solar_parse` visibility to the visibility of the same name.
#[verifier::external_body]
fn visibility_of(v: solar_parse::ast::Visibility) -> VisibilityTag {
    match v {
        solar_parse::ast::Visibility::Private => VisibilityTag::Private,
        solar_parse::ast::Visibility::Internal => VisibilityTag::Internal,
        solar_parse::ast::Visibility::Public => VisibilityTag::Public,
        solar_parse::ast::Visibility::External => VisibilityTag::External,
    }
}

/// Converts an item of a contract body, moving the fields that the interface
/// depends on; spans become byte ranges.
#[verifier::external_body]
fn body_item_of(item: &solar_parse::ast::Item<'_>) -> BodyItem {
    match &item.kind {
        solar_parse::ast::ItemKind::Function(f) => BodyItem::Function {
            kind: function_kind_of(f.kind),
            visibility: f.header.visibility.map(|v| visibility_of(v.data)),
            span: (item.span.lo().to_usize(), item.span.hi().to_usize()),
            body_span: (f.body_span.lo().to_usize(), f.body_span.hi().to_usize()),
        },
        _ => BodyItem::Other,
    }
}

/// Converts a top-level item, with the name and the items of a contract's
/// body; names and paths become their text, the span a byte range.
#[verifier::external_body]
fn source_item_of(item: &solar_parse::ast::Item<'_>) -> SourceItem {
    let span = (item.span.lo().to_usize(), item.span.hi().to_usize());
    match &item.kind {
        ItemKind::Contract(c) => SourceItem::Contract {
            kind: contract_kind_of(c.kind),
            name: c.name.to_string(),
            body: c.body.iter().map(|b| body_item_of(b)).collect(),
            span,
        },
        ItemKind::Pragma(_) => pragma_item_of(item),
        ItemKind::Import(_) => import_item_of(item),
        _ => SourceItem::Other,
    }
}

/// Converts a pragma directive: a version requirement with its text, or a
/// name with its value, as text; unparsed tokens become `Other`.
#[verifier::external_body]
fn pragma_item_of(item: &solar_parse::ast::Item<'_>) -> SourceItem {
    let span = (item.span.lo().to_usize(), item.span.hi().to_usize());
    match &item.kind {
        ItemKind::Pragma(p) => match &p.tokens {
            PragmaTokens::Version(name, req) => {
                SourceItem::VersionPragma { name: name.name.to_string(), req: req.to_string(), span }
            },
            PragmaTokens::Custom(name, value) => SourceItem::CustomPragma {
                name: name.as_str().to_string(),
                value: value.as_ref().map(|v| v.as_str().to_string()),
                span,
            },
            PragmaTokens::Verbatim(_) => SourceItem::Other,
        },
        _ => SourceItem::Other,
    }
}

/// Converts an import directive: its path and the names it brings in, as text.
#[verifier::external_body]
fn import_item_of(item: &solar_parse::ast::Item<'_>) -> SourceItem {
    let span = (item.span.lo().to_usize(), item.span.hi().to_usize());
    match &item.kind {
        ItemKind::Import(i) => SourceItem::Import {
            path: i.path.value.to_string(),
            items: match &i.items {
                ImportItems::Plain(a) => ImportItemsTag::Plain(a.map(|x| x.name.to_string())),
                ImportItems::Aliases(v) => ImportItemsTag::Aliases(
                    v.iter().map(|(id, al)| (id.name.to_string(), al.map(|x| x.name.to_string()))).collect(),
                ),
                ImportItems::Glob(a) => ImportItemsTag::Glob(a.name.to_string()),
            },
            span,
        },
        _ => SourceItem::Other,
    }
}

/// Parses a solidity source with `solar_parse` (`Parser::from_source_code`,
/// `Parser::parse_file`) in a fresh session whose only file it is.
///
/// Claimed: the result holds the items named `solar_source_items` of the
/// content and file name, an error exactly where that names none (the parser
/// reported errors). The error text is left unsaid. Also claimed, as the
/// `Display` of `SemverReq` shows (numbers, `*` for a wildcard, operators,
/// spaces and `||`): no version requirement reads `x` or `X` alone.
#[verifier::external_body]
pub(crate) fn parse_source_items(content: &str, path: &str) -> (r: Result<Vec<SourceItem>, String>)
    ensures
        match solar_source_items(content@, path@) {
            Some(items) => r matches Ok(v) && item_views(v@) == items,
            None => r is Err,
        },
        r matches Ok(v) ==> crate::parse::no_bare_x_version(item_views(v@)),
{
    let sess = Session::builder().with_buffer_emitter(Default::default()).build();
    let items = sess.enter(|| -> solar_parse::interface::Result<Vec<SourceItem>> {
        let arena = Arena::new();
        let name = FileName::Real(std::path::PathBuf::from(path));
        let mut parser = Parser::from_source_code(&sess, &arena, name, content.to_string())?;
        let ast = parser.parse_file().map_err(|e| e.emit())?;
        Ok(ast.items.iter().map(|item| source_item_of(item)).collect())
    });
    match sess.emitted_errors().unwrap() {
        Err(e) => Err(e.to_string()),
        Ok(()) => items.map_err(|_| String::new()),
    }
}

/// Whether a function belongs to the interface of its contract: a function
/// that is public or external, a constructor, a fallback or a receive function.
pub open spec fn is_exposed(kind: FunctionKindTag, visibility: Option<VisibilityTag>) -> bool {
    match kind {
        FunctionKindTag::Function => visibility == Some(VisibilityTag::Public) || visibility == Some(
            VisibilityTag::External,
        ),
        FunctionKindTag::Modifier => false,
        _ => true,
    }
}

/// The byte ranges to remove from a contract body: the whole of each function
/// that is not exposed, the body of each that is.
pub open spec fn body_removals(body: Seq<BodyItem>) -> Seq<(usize, usize)>
    decreases body.len(),
{
    if body.len() == 0 {
        Seq::empty()
    } else {
        let r = body_removals(body.drop_last());
        match body.last() {
            BodyItem::Function { kind, visibility, span, body_span } => r.push(
                if is_exposed(kind, visibility) {
                    body_span
                } else {
                    span
                },
            ),
            BodyItem::Other => r,
        }
    }
}

/// The byte ranges to remove for a top-level item: none for interfaces,
/// libraries and items that are no contracts.
pub open spec fn item_removals(item: SourceItemView) -> Seq<(usize, usize)> {
    match item {
        SourceItemView::Contract { kind, body, .. } => if kind == ContractKindTag::Interface || kind
            == ContractKindTag::Library {
            Seq::empty()
        } else {
            body_removals(body)
        },
        _ => Seq::empty(),
    }
}

/// The byte ranges to remove from a source, in order.
pub open spec fn removals(items: Seq<SourceItemView>) -> Seq<(usize, usize)>
    decreases items.len(),
{
    if items.len() == 0 {
        Seq::empty()
    } else {
        removals(items.drop_last()) + item_removals(items.last())
    }
}

/// The number of UTF-8 bytes of a character.
pub open spec fn char_width(c: char) -> int {
    encode_scalar(c as u32).len() as int
}

/// The position of the character that starts `b` bytes into the UTF-8
/// encoding of `s`, if one does (`s.len()` for the end).
pub open spec fn char_index(s: Seq<char>, b: int) -> Option<int>
    decreases s.len(),
{
    if b == 0 {
        Some(0)
    } else if b < 0 || s.len() == 0 {
        None
    } else {
        match char_index(s.drop_first(), b - char_width(s[0])) {
            Some(i) => Some(i + 1),
            None => None,
        }
    }
}

/// The byte ranges as character ranges, if each bound starts a character.
pub open spec fn char_ranges(s: Seq<char>, spans: Seq<(usize, usize)>) -> Option<Seq<(int, int)>>
    decreases spans.len(),
{
    if spans.len() == 0 {
        Some(Seq::empty())
    } else {
        match (char_ranges(s, spans.drop_last()), char_index(s, spans.last().0 as int), char_index(s, spans.last().1 as int)) {
            (Some(rs), Some(lo), Some(hi)) => Some(rs.push((lo, hi))),
            _ => None,
        }
    }
}

/// Whether position `k` lies in one of the ranges.
pub open spec fn in_some_range(rs: Seq<(int, int)>, k: int) -> bool {
    exists|j: int| 0 <= j < rs.len() && #[trigger] rs[j].0 <= k && k < rs[j].1
}

/// The characters of `s` at positions outside all ranges.
pub open spec fn kept(s: Seq<char>, rs: Seq<(int, int)>) -> Seq<char>
    decreases s.len(),
{
    if s.len() == 0 {
        s
    } else if in_some_range(rs, s.len() - 1) {
        kept(s.drop_last(), rs)
    } else {
        kept(s.drop_last(), rs).push(s.last())
    }
}

/// `s` without its line feeds.
pub open spec fn without_newlines(s: Seq<char>) -> Seq<char>
    decreases s.len(),
{
    if s.len() == 0 {
        s
    } else if s.last() == '\n' {
        without_newlines(s.drop_last())
    } else {
        without_newlines(s.drop_last()).push(s.last())
    }
}

/// The number of whitespace characters that `s` starts with.
pub open spec fn ws_run(s: Seq<char>) -> nat
    decreases s.len(),
{
    if s.len() > 0 && is_ws(s[0]) {
        1 + ws_run(s.drop_first())
    } else {
        0
    }
}

pub proof fn lemma_ws_run_bound(s: Seq<char>)
    ensures
        ws_run(s) <= s.len(),
    decreases s.len(),
{
    if s.len() > 0 && is_ws(s[0]) {
        lemma_ws_run_bound(s.drop_first());
    }
}

/// `s` without its runs of two or more whitespace characters.
pub open spec fn collapse_ws(s: Seq<char>) -> Seq<char>
    decreases s.len(),
{
    if s.len() == 0 {
        s
    } else if ws_run(s) >= 2 {
        proof {
            lemma_ws_run_bound(s);
        }
        collapse_ws(s.skip(ws_run(s) as int))
    } else {
        seq![s[0]] + collapse_ws(s.drop_first())
    }
}

/// The interface representation of a source whose top-level items are
/// `items`: the source without the removed ranges, without line feeds and
/// without runs of two or more whitespace characters; none where a range
/// does not fall on character boundaries.
pub open spec fn interface_spec(content: Seq<char>, items: Seq<SourceItemView>) -> Option<Seq<char>> {
    match char_ranges(content, removals(items)) {
        Some(rs) => Some(collapse_ws(without_newlines(kept(content, rs)))),
        None => None,
    }
}

fn body_removal_spans(body: &Vec<BodyItem>, out: &mut Vec<(usize, usize)>)
    ensures
        final(out)@ == old(out)@ + body_removals(body@),
{
    let ghost start = out@;
    let mut k: usize = 0;
    while k < body.len()
        invariant
            k <= body@.len(),
            out@ == start + body_removals(body@.take(k as int)),
        decreases body@.len() - k,
    {
        assert(body@.take(k + 1).drop_last() =~= body@.take(k as int));
        match body[k] {
            BodyItem::Function { kind, visibility, span, body_span } => {
                let exposed = match kind {
                    FunctionKindTag::Function => visibility == Some(VisibilityTag::Public)
                        || visibility == Some(VisibilityTag::External),
                    FunctionKindTag::Modifier => false,
                    _ => true,
                };
                if exposed {
                    out.push(body_span);
                } else {
                    out.push(span);
                }
            },
            BodyItem::Other => {},
        }
        k = k + 1;
    }
    assert(body@.take(body@.len() as int) =~= body@);
}

/// The byte ranges to remove from a source with these top-level items.
pub fn removal_spans(items: &[SourceItem]) -> (r: Vec<(usize, usize)>)
    ensures
        r@ == removals(item_views(items@)),
{
    let mut r: Vec<(usize, usize)> = Vec::new();
    let mut i: usize = 0;
    while i < items.len()
        invariant
            i <= items@.len(),
            r@ == removals(item_views(items@.take(i as int))),
        decreases items@.len() - i,
    {
        assert(item_views(items@.take(i + 1)).drop_last() =~= item_views(items@.take(i as int)));
        assert(item_views(items@.take(i + 1)).last() == items@[i as int]@);
        match &items[i] {
            SourceItem::Contract { kind, body, .. } => {
                if *kind != ContractKindTag::Interface && *kind != ContractKindTag::Library {
                    body_removal_spans(body, &mut r);
                } else {
                    assert(r@ + Seq::<(usize, usize)>::empty() =~= r@);
                }
            },
            _ => {
                assert(r@ + Seq::<(usize, usize)>::empty() =~= r@);
            },
        }
        i = i + 1;
    }
    assert(items@.take(items@.len() as int) =~= items@);
    r
}


/// Libraries and interfaces are kept whole: a source with no other contract
/// loses only line feeds and runs of whitespace.
pub proof fn lemma_interfaces_and_libraries_kept(content: Seq<char>, items: Seq<SourceItemView>)
    requires
        forall|i: int| 0 <= i < items.len() ==> match #[trigger] items[i] {
            SourceItemView::Contract { kind, .. } => kind == ContractKindTag::Interface || kind == ContractKindTag::Library,
            _ => true,
        },
    ensures
        interface_spec(content, items) == Some(collapse_ws(without_newlines(content))),
{
    lemma_removals_empty(items);
    assert(char_ranges(content, removals(items)) == Some(Seq::<(int, int)>::empty()));
    lemma_kept_nothing(content);
}

proof fn lemma_removals_empty(items: Seq<SourceItemView>)
    requires
        forall|i: int| 0 <= i < items.len() ==> match #[trigger] items[i] {
            SourceItemView::Contract { kind, .. } => kind == ContractKindTag::Interface || kind == ContractKindTag::Library,
            _ => true,
        },
    ensures
        removals(items) =~= Seq::<(usize, usize)>::empty(),
    decreases items.len(),
{
    if items.len() > 0 {
        lemma_removals_empty(items.drop_last());
        assert(items.last() == items[items.len() - 1]);
    }
}

proof fn lemma_kept_nothing(s: Seq<char>)
    ensures
        kept(s, Seq::empty()) == s,
    decreases s.len(),
{
    if s.len() > 0 {
        lemma_kept_nothing(s.drop_last());
        assert(s.drop_last().push(s.last()) =~= s);
    }
}

pub(crate) fn utf8_width(c: char) -> (r: usize)
    ensures
        r == char_width(c),
        1 <= r <= 4,
{
    let u = c as u32;
    if u <= 0x7F {
        1
    } else if u <= 0x7FF {
        2
    } else if u <= 0xFFFF {
        3
    } else {
        4
    }
}

/// The position of the character that starts `b` bytes into the UTF-8
/// encoding of `v`.
pub fn char_index_of(v: &[char], b: usize) -> (r: Option<usize>)
    ensures
        match r {
            Some(x) => char_index(v@, b as int) == Some(x as int),
            None => char_index(v@, b as int) is None,
        },
{
    let mut i: usize = 0;
    let mut acc: usize = 0;
    assert(v@.skip(0) =~= v@);
    while acc < b && i < v.len()
        invariant
            i <= v@.len(),
            acc <= b,
            char_index(v@, b as int) == match char_index(v@.skip(i as int), b - acc) {
                Some(j) => Some(j + i),
                None => None::<int>,
            },
        decreases v@.len() - i,
    {
        let w = utf8_width(v[i]);
        let ghost t = v@.skip(i as int);
        assert(t.drop_first() =~= v@.skip(i + 1));
        assert(t[0] == v@[i as int]);
        if w > b - acc {
            assert(char_index(t, b - acc) is None) by {
                assert(char_index(t.drop_first(), b - acc - w) is None);
            }
            return None;
        }
        acc = acc + w;
        i = i + 1;
    }
    if acc == b {
        assert(char_index(v@.skip(i as int), 0) == Some(0int));
        Some(i)
    } else {
        assert(v@.skip(i as int).len() == 0);
        None
    }
}

/// The byte ranges as character ranges of `v`, if each bound starts a character.
pub fn char_ranges_of(v: &[char], spans: &[(usize, usize)]) -> (r: Option<Vec<(usize, usize)>>)
    ensures
        match char_ranges(v@, spans@) {
            Some(rs) => r matches Some(x) && x@.len() == rs.len() && forall|k: int| 0 <= k < rs.len() ==> (#[trigger] rs[k]).0 == x@[k].0 && rs[k].1 == x@[k].1,
            None => r is None,
        },
{
    let mut out: Vec<(usize, usize)> = Vec::new();
    let mut i: usize = 0;
    while i < spans.len()
        invariant
            i <= spans@.len(),
            char_ranges(v@, spans@.take(i as int)) is Some,
            out@.len() == char_ranges(v@, spans@.take(i as int))->0.len(),
            forall|k: int| 0 <= k < out@.len() ==> (#[trigger] out@[k]).0 == char_ranges(v@, spans@.take(i as int))->0[k].0 && out@[k].1 == char_ranges(v@, spans@.take(i as int))->0[k].1,
        decreases spans@.len() - i,
    {
        assert(spans@.take(i + 1).drop_last() =~= spans@.take(i as int));
        let (lo, hi) = spans[i];
        assert(spans@.take(i + 1).last() == (lo, hi));
        match (char_index_of(v, lo), char_index_of(v, hi)) {
            (Some(a), Some(b)) => {
                let ghost prev = char_ranges(v@, spans@.take(i as int))->0;
                out.push((a, b));
                assert(char_ranges(v@, spans@.take(i + 1))->0 == prev.push((a as int, b as int)));
            },
            _ => {
                assert(char_ranges(v@, spans@.take(i + 1)) is None);
                proof {
                    lemma_char_ranges_none(v@, spans@, i as int + 1);
                }
                return None;
            },
        }
        i = i + 1;
    }
    assert(spans@.take(spans@.len() as int) =~= spans@);
    Some(out)
}

proof fn lemma_char_ranges_none(s: Seq<char>, spans: Seq<(usize, usize)>, n: int)
    requires
        0 <= n <= spans.len(),
        char_ranges(s, spans.take(n)) is None,
    ensures
        char_ranges(s, spans) is None,
    decreases spans.len() - n,
{
    if n < spans.len() {
        assert(spans.take(n + 1).drop_last() =~= spans.take(n));
        lemma_char_ranges_none(s, spans, n + 1);
    } else {
        assert(spans.take(n) =~= spans);
    }
}

/// The characters of `v` at positions outside all ranges.
pub fn remove_ranges(v: &[char], ranges: &[(usize, usize)]) -> (r: Vec<char>)
    ensures
        forall|rs: Seq<(int, int)>| rs.len() == ranges@.len() && (forall|k: int| 0 <= k < rs.len() ==> (#[trigger] rs[k]).0 == ranges@[k].0 && rs[k].1 == ranges@[k].1) ==> r@ == kept(v@, rs),
{
    let n = v.len();
    let mut keep: Vec<bool> = Vec::new();
    let mut k: usize = 0;
    while k < n
        invariant
            n == v@.len(),
            k <= n,
            keep@.len() == k,
            forall|q: int| 0 <= q < k ==> #[trigger] keep@[q],
        decreases n - k,
    {
        keep.push(true);
        k = k + 1;
    }
    let ghost iv = ranges@.map_values(|p: (usize, usize)| (p.0 as int, p.1 as int));
    let mut j: usize = 0;
    while j < ranges.len()
        invariant
            n == v@.len(),
            keep@.len() == n,
            j <= ranges@.len(),
            iv == ranges@.map_values(|p: (usize, usize)| (p.0 as int, p.1 as int)),
            forall|q: int| 0 <= q < n ==> #[trigger] keep@[q] == !in_some_range(iv.take(j as int), q),
        decreases ranges@.len() - j,
    {
        let (a, b) = ranges[j];
        let mut q: usize = a;
        while q < b && q < n
            invariant
                n == v@.len(),
                keep@.len() == n,
                a <= q,
                q <= b || q == a,
                forall|x: int| 0 <= x < n ==> #[trigger] keep@[x] == (!in_some_range(iv.take(j as int), x) && !(a <= x < q)),
            decreases n - q,
        {
            keep.set(q, false);
            q = q + 1;
        }
        assert forall|x: int| 0 <= x < n implies #[trigger] keep@[x] == !in_some_range(iv.take(j + 1), x) by {
            let t0 = iv.take(j as int);
            let t1 = iv.take(j + 1);
            assert(t1 =~= t0.push((a as int, b as int)));
            assert(t1[j as int] == (a as int, b as int));
            if in_some_range(t1, x) {
                let y = choose|y: int| 0 <= y < t1.len() && #[trigger] t1[y].0 <= x && x < t1[y].1;
                if y < j {
                    assert(t0[y] == t1[y]);
                }
            }
            if in_some_range(t0, x) {
                let y = choose|y: int| 0 <= y < t0.len() && #[trigger] t0[y].0 <= x && x < t0[y].1;
                assert(t0[y] == t1[y]);
            }
        }
        j = j + 1;
    }
    assert(iv.take(ranges@.len() as int) =~= iv);
    let mut out: Vec<char> = Vec::new();
    let mut i: usize = 0;
    while i < n
        invariant
            n == v@.len(),
            keep@.len() == n,
            i <= n,
            forall|q: int| 0 <= q < n ==> #[trigger] keep@[q] == !in_some_range(iv, q),
            out@ == kept(v@.take(i as int), iv),
        decreases n - i,
    {
        assert(v@.take(i + 1).drop_last() =~= v@.take(i as int));
        if keep[i] {
            out.push(v[i]);
        }
        i = i + 1;
    }
    assert(v@.take(n as int) =~= v@);
    proof {
        assert forall|rs: Seq<(int, int)>| rs.len() == ranges@.len() && (forall|k: int| 0 <= k < rs.len() ==> (#[trigger] rs[k]).0 == ranges@[k].0 && rs[k].1 == ranges@[k].1) implies out@ == kept(v@, rs) by {
            assert(rs =~= iv);
        }
    }
    out
}

/// The characters of `v` without line feeds.
pub fn remove_newlines(v: &[char]) -> (r: Vec<char>)
    ensures
        r@ == without_newlines(v@),
{
    let mut out: Vec<char> = Vec::new();
    let mut i: usize = 0;
    while i < v.len()
        invariant
            i <= v@.len(),
            out@ == without_newlines(v@.take(i as int)),
        decreases v@.len() - i,
    {
        assert(v@.take(i + 1).drop_last() =~= v@.take(i as int));
        if v[i] != '\n' {
            out.push(v[i]);
        }
        i = i + 1;
    }
    assert(v@.take(v@.len() as int) =~= v@);
    out
}

proof fn lemma_ws_run_exact(s: Seq<char>, m: int)
    requires
        0 <= m <= s.len(),
        forall|k: int| 0 <= k < m ==> is_ws(#[trigger] s[k]),
        m == s.len() || !is_ws(s[m]),
    ensures
        ws_run(s) == m,
    decreases m,
{
    if m > 0 {
        lemma_ws_run_exact(s.drop_first(), m - 1);
    }
}

/// The characters of `v` without runs of two or more whitespace characters.
pub fn collapse_whitespace(v: &[char]) -> (r: Vec<char>)
    ensures
        r@ == collapse_ws(v@),
{
    let n = v.len();
    let mut out: Vec<char> = Vec::new();
    let mut i: usize = 0;
    assert(v@.skip(0) =~= v@);
    assert(out@ + collapse_ws(v@.skip(0)) =~= collapse_ws(v@));
    while i < n
        invariant
            n == v@.len(),
            i <= n,
            collapse_ws(v@) == out@ + collapse_ws(v@.skip(i as int)),
        decreases n - i,
    {
        let ghost t = v@.skip(i as int);
        let mut j: usize = i;
        while j < n && is_whitespace(v[j])
            invariant
                n == v@.len(),
                i <= j <= n,
                forall|k: int| i <= k < j ==> is_ws(#[trigger] v@[k]),
            decreases n - j,
        {
            j = j + 1;
        }
        proof {
            assert forall|k: int| 0 <= k < j - i implies is_ws(#[trigger] t[k]) by {
                assert(t[k] == v@[i + k]);
            }
            if j < n {
                assert(t[j - i] == v@[j as int]);
            }
            lemma_ws_run_exact(t, j - i);
        }
        if j - i >= 2 {
            assert(t.skip(j - i) =~= v@.skip(j as int));
            i = j;
        } else {
            let ghost before = out@;
            out.push(v[i]);
            assert(t.drop_first() =~= v@.skip(i + 1));
            assert(before + (seq![t[0]] + collapse_ws(t.drop_first())) =~= out@ + collapse_ws(v@.skip(i + 1)));
            i = i + 1;
        }
    }
    assert(v@.skip(n as int) =~= Seq::<char>::empty());
    assert(out@ + Seq::<char>::empty() =~= out@);
    out
}

/// The interface representation of a source whose top-level items, as
/// `solar_parse` reads them, are `items`; none where a range to remove does
/// not fall on character boundaries.
pub fn interface_representation_of(content: &str, items: &[SourceItem]) -> (r: Option<String>)
    ensures
        match interface_spec(content@, item_views(items@)) {
            Some(s) => r matches Some(x) && x@ == s,
            None => r is None,
        },
{
    let v = chars_of(content);
    let spans = removal_spans(items);
    match char_ranges_of(v.as_slice(), spans.as_slice()) {
        Some(ranges) => {
            let kept_chars = remove_ranges(v.as_slice(), ranges.as_slice());
            proof {
                let rs = char_ranges(v@, spans@)->0;
                assert(kept_chars@ == kept(v@, rs));
            }
            let lines = remove_newlines(kept_chars.as_slice());
            let collapsed = collapse_whitespace(lines.as_slice());
            Some(string_from_chars(collapsed.as_slice()))
        },
        None => None,
    }
}

/// The interface representation of a solidity source: parses it, then keeps
/// libraries and interfaces whole and, in contracts, removes each function
/// that is not exposed and the body of each that is; then line feeds and runs
/// of two or more whitespace characters.
///
/// Errors where the source does not parse (or, which the parser never
/// gives, where a range to remove does not fall on character boundaries).
pub fn interface_repr(content: &str, path: &str) -> (r: Result<String, String>)
    ensures
        match solar_source_items(content@, path@) {
            Some(items) => match interface_spec(content@, items) {
                Some(s) => r matches Ok(x) && x@ == s,
                None => r is Err,
            },
            None => r is Err,
        },
{
    match parse_source_items(content, path) {
        Ok(items) => match interface_representation_of(content, items.as_slice()) {
            Some(s) => Ok(s),
            None => Err(String::from_str("span out of character boundaries")),
        },
        Err(e) => Err(e),
    }
}

/// The hash of the interface representation: the content hash of it, none
/// where the source does not parse.
pub fn interface_repr_hash(content: &str, path: &str) -> (r: Option<String>)
    ensures
        match solar_source_items(content@, path@) {
            Some(items) => match interface_spec(content@, items) {
                Some(s) => r matches Some(x) && x@ == hex_lower(spec_md5(encode_utf8(s))),
                None => r is None,
            },
            None => r is None,
        },
{
    match interface_repr(content, path) {
        Ok(src) => Some(Source::content_hash_of(src.as_str())),
        Err(_) => None,
    }
}

/// The hash of the interface representation of a source: the MD5 of it, or
/// the content hash of the source where it does not parse.
pub fn interface_representation_hash(source: &Source, file: &str) -> (r: String)
    ensures
        match solar_source_items(source.content@, file@) {
            Some(items) => match interface_spec(source.content@, items) {
                Some(s) => r@ == hex_lower(spec_md5(encode_utf8(s))),
                None => r@ == hex_lower(spec_md5(encode_utf8(source.content@))),
            },
            None => r@ == hex_lower(spec_md5(encode_utf8(source.content@))),
        },
{
    match interface_repr(source.content.as_str(), file) {
        Ok(repr) => md5_hex(repr.as_str()),
        Err(_) => source.content_hash(),
    }
}

} // verus!
