//! What is read from a solidity source: imports, libraries, version
//! requirements.

use crate::iface::{
    item_views, parse_source_items, solar_source_items, BodyItem, ContractKindTag, ImportItemsTag,
    ImportItemsView, SourceItem, SourceItemView, VisibilityTag,
};
use crate::declarations::{
    byte_offsets, contract_names_from, imports_of, license_of, pragma_version_of, read_contract_names,
    read_imports, read_license, read_pragma_version,
};
use crate::paths::{file_extension, path_extension};
use crate::text::{chars_eq, chars_of, owned, push_str, string_push};
use crate::version::{
    is_wildcard_req, parse_version_req_text, req_view, semver_req, CompareOp, ComparatorView,
    VersionReq,
};
use vstd::prelude::*;

verus! {

/// An alias of an import: `import * as T from ...` / `import "..." as T`
/// name the file, `import { A as B } from ...` a contract.
#[derive(Clone, Debug, PartialEq, Eq)]
pub enum SolImportAlias {
    File(String),
    Contract(String, String),
}

/// An import of a solidity source: the imported path and its aliases.
#[derive(Clone, Debug)]
pub struct SolImport {
    path: String,
    aliases: Vec<SolImportAlias>,
}

impl SolImport {
    /// The imported path.
    pub closed spec fn path_view(&self) -> Seq<char> {
        self.path@
    }

    /// The aliases.
    pub closed spec fn alias_list(&self) -> Seq<SolImportAlias> {
        self.aliases@
    }

    /// An import of `path` without aliases.
    pub fn new(path: String) -> (r: Self)
        ensures
            r.path_view() == path@,
            r.alias_list().len() == 0,
    {
        Self { path, aliases: Vec::new() }
    }

    /// The imported path.
    pub fn path(&self) -> (r: &str)
        ensures
            r@ == self.path_view(),
    {
        self.path.as_str()
    }

    /// The aliases.
    pub fn aliases(&self) -> (r: &[SolImportAlias])
        ensures
            r@ == self.alias_list(),
    {
        self.aliases.as_slice()
    }

    /// The import with the given aliases.
    pub fn set_aliases(self, aliases: Vec<SolImportAlias>) -> (r: Self)
        ensures
            r.path_view() == self.path_view(),
            r.alias_list() == aliases@,
    {
        let mut s = self;
        s.aliases = aliases;
        s
    }
}

/// Minimal representation of a contract inside a solidity file
#[derive(Clone, Copy, Debug)]
pub struct SolLibrary {
    pub is_inlined: bool,
}

impl SolLibrary {
    /// Returns `true` if all functions of this library will be inlined.
    ///
    /// This checks if all functions are either internal or private, because internal functions can
    /// only be accessed from within the current contract or contracts deriving from it. They cannot
    /// be accessed externally. Since they are not exposed to the outside through the contract’s
    /// ABI, they can take parameters of internal types like mappings or storage references.
    pub fn is_inlined(&self) -> (r: bool)
        ensures
            r == self.is_inlined,
    {
        self.is_inlined
    }
}

/// Whether an item of a contract body is a public or external function.
pub open spec fn is_public_function(item: BodyItem) -> bool {
    match item {
        BodyItem::Function { visibility, .. } => visibility == Some(VisibilityTag::Public)
            || visibility == Some(VisibilityTag::External),
        BodyItem::Other => false,
    }
}

/// Whether all functions of a library body are inlined: none is public or external.
pub fn library_is_inlined(body: &[BodyItem]) -> (r: bool)
    ensures
        r == forall|i: int| 0 <= i < body@.len() ==> !is_public_function(#[trigger] body@[i]),
{
    let mut i: usize = 0;
    while i < body.len()
        invariant
            i <= body@.len(),
            forall|k: int| 0 <= k < i ==> !is_public_function(#[trigger] body@[k]),
        decreases body@.len() - i,
    {
        match body[i] {
            BodyItem::Function { visibility, .. } => {
                if visibility == Some(VisibilityTag::Public) || visibility == Some(VisibilityTag::External) {
                    return false;
                }
            },
            BodyItem::Other => {},
        }
        i = i + 1;
    }
    true
}

/// A spanned item.
#[derive(Debug)]
pub struct Spanned<T> {
    /// The byte range of `data` in the file.
    pub span: std::ops::Range<usize>,
    /// The data of the item.
    pub data: T,
}

impl<T: Clone> Clone for Spanned<T> {
    fn clone(&self) -> (r: Self) {
        Spanned { span: self.span.start..self.span.end, data: self.data.clone() }
    }
}

impl<T> Spanned<T> {
    /// Creates a new data unit with the given data and location.
    pub fn new(data: T, span: std::ops::Range<usize>) -> (r: Self)
        ensures
            r.data == data,
            r.span == span,
    {
        Self { data, span }
    }

    /// Returns the underlying data.
    pub fn data(&self) -> (r: &T)
        ensures
            *r == self.data,
    {
        &self.data
    }

    /// Returns the location.
    pub fn span(&self) -> (r: std::ops::Range<usize>)
        ensures
            r.start == self.span.start,
            r.end == self.span.end,
    {
        self.span.start..self.span.end
    }
}

/// `s` with every space replaced by a comma.
pub open spec fn spaces_to_commas(s: Seq<char>) -> Seq<char> {
    s.map_values(|c: char| if c == ' ' { ',' } else { c })
}

/// Whether a requirement text has no operator in front, which solidity reads
/// as an exact version.
pub open spec fn is_exact_req(s: Seq<char>) -> bool {
    !(s.len() > 0 && (s[0] == '*' || s[0] == '^' || s[0] == '=' || s[0] == '>' || s[0] == '<'
        || s[0] == '~'))
}

/// The comparators of a requirement with the operator of the first one set
/// to exact.
pub open spec fn first_exact(cs: Seq<ComparatorView>) -> Seq<ComparatorView> {
    cs.update(0, ComparatorView { op: CompareOp::Exact, ..cs[0] })
}

/// The requirement that solidity means by a version pragma text: spaces
/// separate comparators, and without an operator in front the first
/// comparator is exact.
pub open spec fn solidity_req(version: Seq<char>) -> Option<Seq<ComparatorView>> {
    let s = spaces_to_commas(version);
    match semver_req(s) {
        Some(cs) => Some(if is_exact_req(s) { first_exact(cs) } else { cs }),
        None => None,
    }
}

/// An alias as a value.
pub enum AliasView {
    File(Seq<char>),
    Contract(Seq<char>, Seq<char>),
}

/// The value of an alias.
pub open spec fn alias_view(a: SolImportAlias) -> AliasView {
    match a {
        SolImportAlias::File(f) => AliasView::File(f@),
        SolImportAlias::Contract(a, t) => AliasView::Contract(a@, t@),
    }
}

/// The aliases an import brings in: the alias of the file, or for each listed
/// name its new name and itself (`Contract(alias, name)`), or the name alone
/// where it is not renamed (`File(name)`).
pub open spec fn import_aliases(items: ImportItemsView) -> Seq<AliasView> {
    match items {
        ImportItemsView::Plain(None) => Seq::empty(),
        ImportItemsView::Plain(Some(a)) => seq![AliasView::File(a)],
        ImportItemsView::Glob(a) => seq![AliasView::File(a)],
        ImportItemsView::Aliases(v) => v.map_values(
            |p: (Seq<char>, Option<Seq<char>>)| match p.1 {
                Some(al) => AliasView::Contract(al, p.0),
                None => AliasView::File(p.0),
            },
        ),
    }
}

/// A text with the byte range it spans.
pub type SpannedText = (Seq<char>, (usize, usize));

/// What the items of a source tell: the last solidity version pragma, the
/// last experimental pragma (its value, empty where it has none), the imports
/// with their aliases, whether each library is inlined, and the names of the
/// contracts, in order.
pub struct ItemsRead {
    pub version: Option<SpannedText>,
    pub experimental: Option<SpannedText>,
    pub imports: Seq<(Seq<char>, Seq<AliasView>, (usize, usize))>,
    pub libraries: Seq<bool>,
    pub contract_names: Seq<Seq<char>>,
}

/// Whether all functions of a library body are inlined: none is public or external.
pub open spec fn body_inlined(body: Seq<BodyItem>) -> bool {
    forall|i: int| 0 <= i < body.len() ==> !is_public_function(#[trigger] body[i])
}

/// `solidity`
pub open spec fn solidity_name() -> Seq<char> {
    seq!['s', 'o', 'l', 'i', 'd', 'i', 't', 'y']
}

/// `experimental`
pub open spec fn experimental_name() -> Seq<char> {
    seq!['e', 'x', 'p', 'e', 'r', 'i', 'm', 'e', 'n', 't', 'a', 'l']
}

/// What the items tell, read in order.
pub open spec fn read_items(items: Seq<SourceItemView>) -> ItemsRead
    decreases items.len(),
{
    if items.len() == 0 {
        ItemsRead {
            version: None,
            experimental: None,
            imports: Seq::empty(),
            libraries: Seq::empty(),
            contract_names: Seq::empty(),
        }
    } else {
        let m = read_items(items.drop_last());
        match items.last() {
            SourceItemView::VersionPragma { name, req, span } => if name == solidity_name() {
                ItemsRead { version: Some((req, span)), ..m }
            } else {
                m
            },
            SourceItemView::CustomPragma { name, value, span } => if name == experimental_name() {
                ItemsRead {
                    experimental: Some(
                        (
                            match value {
                                Some(v) => v,
                                None => Seq::empty(),
                            },
                            span,
                        ),
                    ),
                    ..m
                }
            } else {
                m
            },
            SourceItemView::Import { path, items, span } => ItemsRead {
                imports: m.imports.push((path, import_aliases(items), span)),
                ..m
            },
            SourceItemView::Contract { kind, name, body, .. } => ItemsRead {
                libraries: if kind == ContractKindTag::Library {
                    m.libraries.push(body_inlined(body))
                } else {
                    m.libraries
                },
                contract_names: m.contract_names.push(name),
                ..m
            },
            SourceItemView::Other => m,
        }
    }
}

/// No version pragma reads `x` or `X` alone.
pub open spec fn no_bare_x_version(items: Seq<SourceItemView>) -> bool {
    forall|i: int| 0 <= i < items.len() ==> (#[trigger] items[i] matches SourceItemView::VersionPragma { req, .. } ==> req != seq!['x'] && req != seq!['X'])
}

/// The version read from the items is the requirement of one of them.
pub proof fn lemma_read_version(items: Seq<SourceItemView>)
    requires
        no_bare_x_version(items),
    ensures
        read_items(items).version matches Some((t, _)) ==> t != seq!['x'] && t != seq!['X'],
    decreases items.len(),
{
    if items.len() > 0 {
        let w = items.drop_last();
        assert forall|i: int| 0 <= i < w.len() implies (#[trigger] w[i] matches SourceItemView::VersionPragma { req, .. } ==> req != seq!['x'] && req != seq!['X']) by {
            assert(w[i] == items[i]);
        }
        lemma_read_version(w);
        assert(items.last() == items[items.len() - 1]);
    }
}

/// A [`SolData`] as a value; `parse_ok` tells whether the source parsed.
pub struct SolDataView {
    pub license: Option<SpannedText>,
    pub version: Option<SpannedText>,
    pub experimental: Option<SpannedText>,
    pub imports: Seq<(Seq<char>, Seq<AliasView>, (usize, usize))>,
    pub version_req: Option<Seq<ComparatorView>>,
    pub libraries: Seq<bool>,
    pub contract_names: Seq<Seq<char>>,
    pub is_yul: bool,
    pub parse_ok: bool,
}

/// The text and range of a spanned text.
pub open spec fn spanned_text(v: Option<Spanned<String>>) -> Option<SpannedText> {
    match v {
        Some(x) => Some((x.data@, (x.span.start, x.span.end))),
        None => None,
    }
}

/// The path, aliases and range of each import.
pub open spec fn imports_view(v: Seq<Spanned<SolImport>>) -> Seq<(Seq<char>, Seq<AliasView>, (usize, usize))> {
    v.map_values(
        |x: Spanned<SolImport>| (x.data.path_view(), x.data.alias_list().map_values(|a: SolImportAlias| alias_view(a)), (x.span.start, x.span.end)),
    )
}

/// Whether each library is inlined.
pub open spec fn libraries_view(v: Seq<SolLibrary>) -> Seq<bool> {
    v.map_values(|l: SolLibrary| l.is_inlined)
}

/// The characters of each text.
pub open spec fn texts_view(v: Seq<String>) -> Seq<Seq<char>> {
    v.map_values(|s: String| s@)
}

/// `yul`
pub open spec fn yul_extension() -> Seq<char> {
    seq!['y', 'u', 'l']
}

/// The version requirement of an optional version pragma text.
pub open spec fn version_req_of(version: Option<SpannedText>) -> Option<Seq<ComparatorView>> {
    match version {
        Some((t, _)) => solidity_req(t),
        None => None,
    }
}

/// What a source with the given items tells: no license is read, the version
/// requirement is that of the version pragma, and a file with the extension
/// `yul` is a Yul file.
pub open spec fn sol_data_of(content: Seq<char>, file: Seq<char>, items: Seq<SourceItemView>) -> SolDataView {
    let m = read_items(items);
    SolDataView {
        license: license_of(content),
        version: m.version,
        experimental: m.experimental,
        imports: m.imports,
        version_req: version_req_of(m.version),
        libraries: m.libraries,
        contract_names: m.contract_names,
        is_yul: file_extension(file) == Some(yul_extension()),
        parse_ok: true,
    }
}

/// What is read from the text of a source that did not parse: the version
/// pragma, the imports and the contract names as the text shows them, with
/// the license and whether it is a Yul file.
pub open spec fn unparsed_data(content: Seq<char>, file: Seq<char>) -> SolDataView {
    SolDataView {
        license: license_of(content),
        version: pragma_version_of(content),
        experimental: None,
        imports: imports_of(content),
        version_req: version_req_of(pragma_version_of(content)),
        libraries: Seq::empty(),
        contract_names: contract_names_from(content, 0),
        is_yul: file_extension(file) == Some(yul_extension()),
        parse_ok: false,
    }
}

/// The version pragma that the text of a source shows reads `x` or `X` alone.
pub open spec fn bare_x_pragma(content: Seq<char>) -> bool {
    pragma_version_of(content) matches Some((t, _)) && (t == seq!['x'] || t == seq!['X'])
}

/// Capture the import statement information together with aliases: the
/// path of each import statement of the text, its aliases and the byte range
/// of the statement, in order.
pub fn capture_imports(content: &str) -> (r: Vec<Spanned<SolImport>>)
    ensures
        imports_view(r@) == imports_of(content@),
{
    let (chars, offsets) = chars_and_offsets(content);
    read_imports(chars.as_slice(), offsets.as_slice())
}

/// The characters of a text with the byte offset of each.
fn chars_and_offsets(content: &str) -> (r: (Vec<char>, Vec<usize>))
    ensures
        r.0@ == content@,
        r.1@.len() == content@.len() + 1,
        forall|i: int| 0 <= i <= content@.len() ==> #[trigger] r.1@[i] == crate::declarations::byte_at(content@, i),
{
    let v = chars_of(content);
    let total = content.as_bytes().len();
    let offsets = byte_offsets(v.as_slice(), total);
    (v, offsets)
}

/// The aliases that an import brings in.
fn aliases_of(items: &ImportItemsTag) -> (r: Vec<SolImportAlias>)
    ensures
        r@.map_values(|a: SolImportAlias| alias_view(a)) == import_aliases(items@),
{
    let mut r: Vec<SolImportAlias> = Vec::new();
    match items {
        ImportItemsTag::Plain(None) => {},
        ImportItemsTag::Plain(Some(a)) => {
            r.push(SolImportAlias::File(a.clone()));
        },
        ImportItemsTag::Glob(a) => {
            r.push(SolImportAlias::File(a.clone()));
        },
        ImportItemsTag::Aliases(v) => {
            let ghost want = import_aliases(items@);
            let mut i: usize = 0;
            while i < v.len()
                invariant
                    i <= v@.len(),
                    items@ == ImportItemsView::Aliases(v@.map_values(|p: (String, Option<String>)| (p.0@, crate::iface::opt_chars(p.1)))),
                    want == import_aliases(items@),
                    r@.len() == i,
                    forall|k: int| 0 <= k < i ==> alias_view(#[trigger] r@[k]) == want[k],
                decreases v@.len() - i,
            {
                let (id, al) = &v[i];
                let a = match al {
                    Some(x) => SolImportAlias::Contract(x.clone(), id.clone()),
                    None => SolImportAlias::File(id.clone()),
                };
                r.push(a);
                i = i + 1;
            }
        },
    }
    proof {
        assert(r@.map_values(|a: SolImportAlias| alias_view(a)) =~= import_aliases(items@));
    }
    r
}

/// Various information about a Solidity file.
#[derive(Debug)]
pub struct SolData {
    pub license: Option<Spanned<String>>,
    pub version: Option<Spanned<String>>,
    pub experimental: Option<Spanned<String>>,
    pub imports: Vec<Spanned<SolImport>>,
    pub version_req: Option<VersionReq>,
    pub libraries: Vec<SolLibrary>,
    pub contract_names: Vec<String>,
    pub is_yul: bool,
    pub parse_result: Result<(), String>,
}

impl View for SolData {
    type V = SolDataView;

    open spec fn view(&self) -> SolDataView {
        SolDataView {
            license: spanned_text(self.license),
            version: spanned_text(self.version),
            experimental: spanned_text(self.experimental),
            imports: imports_view(self.imports@),
            version_req: match self.version_req {
                Some(r) => Some(req_view(r)),
                None => None,
            },
            libraries: libraries_view(self.libraries@),
            contract_names: texts_view(self.contract_names@),
            is_yul: self.is_yul,
            parse_ok: self.parse_result is Ok,
        }
    }
}

/// Whether the file's extension is `yul`.
fn is_yul_file(file: &str) -> (r: bool)
    ensures
        r == (file_extension(file@) == Some(yul_extension())),
{
    match path_extension(file) {
        Some(e) => {
            let v = chars_of(e.as_str());
            let y = vec!['y', 'u', 'l'];
            assert(y@ =~= yul_extension());
            chars_eq(v.as_slice(), y.as_slice())
        },
        None => false,
    }
}

impl SolData {
    /// The version pragma in brackets, `(^0.8.0)`, or nothing where the
    /// source has none.
    pub fn fmt_version(&self) -> (r: String)
        ensures
            r@ == match self.version {
                Some(v) => "("@ + v.data@ + ")"@,
                None => Seq::<char>::empty(),
            },
    {
        let mut r = String::new();
        match &self.version {
            Some(v) => {
                push_str(&mut r, "(");
                push_str(&mut r, v.data.as_str());
                push_str(&mut r, ")");
            },
            None => {},
        }
        r
    }

    /// The data read from the items of a source that parsed.
    pub fn from_items(content: &str, file: &str, items: &[SourceItem]) -> (r: SolData)
        requires
            no_bare_x_version(item_views(items@)),
        ensures
            r@ == sol_data_of(content@, file@, item_views(items@)),
    {
        let mut version: Option<Spanned<String>> = None;
        let mut experimental: Option<Spanned<String>> = None;
        let mut imports: Vec<Spanned<SolImport>> = Vec::new();
        let mut libraries: Vec<SolLibrary> = Vec::new();
        let mut contract_names: Vec<String> = Vec::new();
        let sol = vec!['s', 'o', 'l', 'i', 'd', 'i', 't', 'y'];
        let exp = vec!['e', 'x', 'p', 'e', 'r', 'i', 'm', 'e', 'n', 't', 'a', 'l'];
        assert(sol@ =~= solidity_name());
        assert(exp@ =~= experimental_name());
        let mut i: usize = 0;
        while i < items.len()
            invariant
                i <= items@.len(),
                sol@ == solidity_name(),
                exp@ == experimental_name(),
                spanned_text(version) == read_items(item_views(items@.take(i as int))).version,
                spanned_text(experimental) == read_items(item_views(items@.take(i as int))).experimental,
                imports_view(imports@) == read_items(item_views(items@.take(i as int))).imports,
                libraries_view(libraries@) == read_items(item_views(items@.take(i as int))).libraries,
                texts_view(contract_names@) == read_items(item_views(items@.take(i as int))).contract_names,
            decreases items@.len() - i,
        {
            let ghost w = item_views(items@.take(i + 1));
            assert(w.drop_last() =~= item_views(items@.take(i as int)));
            assert(w.last() == items@[i as int]@);
            match &items[i] {
                SourceItem::VersionPragma { name, req, span } => {
                    let n = chars_of(name.as_str());
                    if chars_eq(n.as_slice(), sol.as_slice()) {
                        version = Some(Spanned::new(req.clone(), span.0..span.1));
                    }
                },
                SourceItem::CustomPragma { name, value, span } => {
                    let n = chars_of(name.as_str());
                    if chars_eq(n.as_slice(), exp.as_slice()) {
                        let v = match value {
                            Some(v) => v.clone(),
                            None => String::new(),
                        };
                        experimental = Some(Spanned::new(v, span.0..span.1));
                    }
                },
                SourceItem::Import { path, items: names, span } => {
                    let aliases = aliases_of(names);
                    let imp = SolImport::new(path.clone()).set_aliases(aliases);
                    imports.push(Spanned::new(imp, span.0..span.1));
                    assert(imports_view(imports@) =~= read_items(w).imports);
                },
                SourceItem::Contract { kind, name, body, .. } => {
                    if *kind == ContractKindTag::Library {
                        libraries.push(SolLibrary { is_inlined: library_is_inlined(body.as_slice()) });
                        assert(libraries_view(libraries@) =~= read_items(w).libraries);
                    }
                    contract_names.push(name.clone());
                    assert(texts_view(contract_names@) =~= read_items(w).contract_names);
                },
                SourceItem::Other => {},
            }
            i = i + 1;
        }
        assert(items@.take(items@.len() as int) =~= items@);
        proof {
            lemma_read_version(item_views(items@));
        }
        let version_req = match &version {
            Some(v) => match Self::parse_version_req(v.data.as_str()) {
                Ok(x) => Some(x),
                Err(_) => None,
            },
            None => None,
        };
        let (chars, offsets) = chars_and_offsets(content);
        let license = match read_license(chars.as_slice(), offsets.as_slice()) {
            Some((t, sp)) => Some(Spanned::new(t, sp.0..sp.1)),
            None => None,
        };
        SolData {
            license,
            version,
            experimental,
            imports,
            version_req,
            libraries,
            contract_names,
            is_yul: is_yul_file(file),
            parse_result: Ok(()),
        }
    }

    /// Extracts the useful data from a solidity source: what its items tell
    /// where `solar_parse` reads it; otherwise the parse error, with the
    /// version pragma, imports and contract names read from the text.
    pub fn parse(content: &str, file: &str) -> (r: SolData)
        requires
            solar_source_items(content@, file@) is None ==> !bare_x_pragma(content@),
        ensures
            match solar_source_items(content@, file@) {
                Some(items) => r@ == sol_data_of(content@, file@, items),
                None => r@ == unparsed_data(content@, file@),
            },
    {
        match parse_source_items(content, file) {
            Ok(items) => Self::from_items(content, file, items.as_slice()),
            Err(e) => Self::from_text(content, file, e),
        }
    }

    /// What the text of a source that did not parse shows, with its parse error.
    fn from_text(content: &str, file: &str, err: String) -> (r: SolData)
        requires
            !bare_x_pragma(content@),
        ensures
            r@ == unparsed_data(content@, file@),
    {
        let (chars, offsets) = chars_and_offsets(content);
        let license = match read_license(chars.as_slice(), offsets.as_slice()) {
            Some((t, sp)) => Some(Spanned::new(t, sp.0..sp.1)),
            None => None,
        };
        let (version, version_req) = match read_pragma_version(chars.as_slice(), offsets.as_slice()) {
            Some((t, sp)) => {
                let req = match Self::parse_version_req(t.as_str()) {
                    Ok(x) => Some(x),
                    Err(_) => None,
                };
                (Some(Spanned::new(t, sp.0..sp.1)), req)
            },
            None => (None, None),
        };
        let imports = read_imports(chars.as_slice(), offsets.as_slice());
        let contract_names = read_contract_names(chars.as_slice());
        let r = SolData {
            license,
            version,
            experimental: None,
            imports,
            version_req,
            libraries: Vec::new(),
            contract_names,
            is_yul: is_yul_file(file),
            parse_result: Err(err),
        };
        assert(libraries_view(r.libraries@) =~= Seq::empty());
        r
    }

    /// [`SolData::parse`], or nothing where the source does not parse and its
    /// text shows a version pragma of `x` or `X` alone, which no version
    /// requirement can be made of.
    pub fn parse_checked(content: &str, file: &str) -> (r: Option<SolData>)
        ensures
            r is None <==> (solar_source_items(content@, file@) is None && bare_x_pragma(content@)),
            r matches Some(d) ==> match solar_source_items(content@, file@) {
                Some(items) => d@ == sol_data_of(content@, file@, items),
                None => d@ == unparsed_data(content@, file@),
            },
    {
        if parse_source_items(content, file).is_err() {
            let (chars, offsets) = chars_and_offsets(content);
            match read_pragma_version(chars.as_slice(), offsets.as_slice()) {
                Some((t, _)) => {
                    let tv = chars_of(t.as_str());
                    if tv.len() == 1 && (tv[0] == 'x' || tv[0] == 'X') {
                        assert(tv@ =~= seq!['x'] || tv@ =~= seq!['X']);
                        return None;
                    }
                    assert(!(tv@ =~= seq!['x']) && !(tv@ =~= seq!['X']));
                },
                None => {},
            }
        }
        Some(Self::parse(content, file))
    }

    /// Returns the corresponding SemVer version requirement for the solidity version.
    ///
    /// `semver` wants comma separated operators where solidity writes spaces,
    /// and solidity reads a version without an operator as exact where
    /// `semver` reads it as a caret requirement; both are patched here.
    pub fn parse_version_req(version: &str) -> (r: Result<VersionReq, String>)
        requires
            version@ != seq!['x'],
            version@ != seq!['X'],
        ensures
            match solidity_req(version@) {
                Some(cs) => r matches Ok(x) && req_view(x) == cs,
                None => r is Err,
            },
    {
        let v = chars_of(version);
        let mut s = String::new();
        let mut i: usize = 0;
        while i < v.len()
            invariant
                i <= v@.len(),
                v@ == version@,
                s@ == spaces_to_commas(v@.take(i as int)),
            decreases v@.len() - i,
        {
            let c = if v[i] == ' ' {
                ','
            } else {
                v[i]
            };
            string_push(&mut s, c);
            assert(spaces_to_commas(v@.take(i + 1)) =~= spaces_to_commas(v@.take(i as int)).push(c));
            i = i + 1;
        }
        assert(v@.take(v@.len() as int) =~= v@);
        let ghost sv = s@;
        let exact = !(v.len() > 0 && (v[0] == '*' || v[0] == '^' || v[0] == '=' || v[0] == '>'
            || v[0] == '<' || v[0] == '~'));
        assert(exact == is_exact_req(sv)) by {
            if v@.len() > 0 {
                assert(sv[0] == (if v@[0] == ' ' { ',' } else { v@[0] }));
            }
        }
        let mut req = match parse_version_req_text(s.as_str()) {
            Ok(req) => req,
            Err(e) => {
                return Err(e);
            },
        };
        if exact {
            proof {
                if req.comparators@.len() == 0 {
                    assert(is_wildcard_req(sv));
                    let w = choose|w: int| 0 <= w < sv.len() && (sv[w] == '*' || sv[w] == 'x' || sv[w] == 'X') && (forall|k: int| 0 <= k < sv.len() && k != w ==> #[trigger] sv[k] == ' ');
                    if sv.len() > 1 {
                        let k: int = if w == 0 { 1 } else { 0 };
                        assert(sv[k] == ' ');
                        assert(sv[k] == (if v@[k] == ' ' { ',' } else { v@[k] }));
                    }
                    assert(w == 0);
                    assert(sv[0] == (if v@[0] == ' ' { ',' } else { v@[0] }));
                    assert(v@ =~= seq![v@[0]]);
                }
            }
            let mut c0 = req.comparators.remove(0);
            c0.op = CompareOp::Exact;
            req.comparators.insert(0, c0);
            assert(req_view(req) =~= first_exact(semver_req(sv)->0));
        }
        Ok(req)
    }
}

} // verus!
