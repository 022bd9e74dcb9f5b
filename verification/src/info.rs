//! Commonly used identifiers for contracts in the compiled output.

use crate::text::{
    chars_contain, chars_end_with, chars_of, ends_with, find_first, find_last, first_index_of,
    last_index_of, lemma_first_index_of, lemma_last_index_of, owned, push_str,
    slice_chars, string_from_chars, string_push, trim, trim_chars,
};
use vstd::prelude::*;

verus! {

/// An error while parsing a contract identifier.
#[derive(Clone, Debug, PartialEq, Eq)]
pub struct ParseContractInfoError(String);

impl View for ParseContractInfoError {
    type V = Seq<char>;

    closed spec fn view(&self) -> Seq<char> {
        self.0@
    }
}

impl ParseContractInfoError {
    /// The error message.
    pub fn to_string(&self) -> (r: String)
        ensures
            r@ == self@,
    {
        self.0.clone()
    }
}

/// The view of an optional string.
pub open spec fn opt_view(o: Option<String>) -> Option<Seq<char>> {
    match o {
        Some(s) => Some(s@),
        None => None,
    }
}

/// Represents the common contract argument pattern for `<path>:<contractname>` where `<path>:` is
/// optional.
#[derive(Clone, Debug, PartialEq, Eq, Hash)]
pub struct ContractInfo {
    /// Location of the contract
    pub path: Option<String>,
    /// Name of the contract
    pub name: Option<String>,
}

/// The fields of a [`ContractInfo`] as character sequences.
pub struct ContractInfoView {
    pub path: Option<Seq<char>>,
    pub name: Option<Seq<char>>,
}

impl View for ContractInfo {
    type V = ContractInfoView;

    open spec fn view(&self) -> ContractInfoView {
        ContractInfoView { path: opt_view(self.path), name: opt_view(self.name) }
    }
}

/// The text after the last `c` of `s` (all of `s` when there is none).
pub open spec fn after_last(s: Seq<char>, c: char) -> Seq<char> {
    match last_index_of(s, c) {
        Some(i) => s.subrange(i + 1, s.len() as int),
        None => s,
    }
}

/// The piece between the last two `c` of `s` (or before the last `c` when it
/// is the only one); none when `s` holds no `c`.
pub open spec fn second_last_piece(s: Seq<char>, c: char) -> Option<Seq<char>> {
    match last_index_of(s, c) {
        Some(i) => Some(after_last(s.subrange(0, i), c)),
        None => None,
    }
}

/// `.sol`
pub open spec fn sol_suffix() -> Seq<char> {
    seq!['.', 's', 'o', 'l']
}

/// A name that denotes a file rather than a contract: it ends with `.sol` or holds a `/`.
pub open spec fn is_file_name(n: Seq<char>) -> bool {
    ends_with(n, sol_suffix()) || n.contains('/')
}

/// The contract identifier written as `s`: the trimmed text after the last `:`
/// is the name, the piece before it the path; a name that denotes a file is the
/// path instead.
pub open spec fn parse_contract_info(s: Seq<char>) -> ContractInfoView {
    let name = trim(after_last(s, ':'));
    if is_file_name(name) {
        ContractInfoView { path: Some(name), name: None }
    } else {
        ContractInfoView { path: second_last_piece(s, ':'), name: Some(name) }
    }
}

/// The text of a contract identifier: `<path>:<name>`, each part where present.
pub open spec fn contract_info_text(c: ContractInfoView) -> Seq<char> {
    (match c.path {
        Some(p) => p + seq![':'],
        None => Seq::empty(),
    }) + (match c.name {
        Some(n) => n,
        None => Seq::empty(),
    })
}

fn chars_after_last(v: &Vec<char>, c: char) -> (r: Vec<char>)
    ensures
        r@ == after_last(v@, c),
{
    proof {
        lemma_last_index_of(v@, c);
    }
    let n = v.len();
    match find_last(v.as_slice(), c) {
        Some(i) => {
            assert(i < n);
            slice_chars(v.as_slice(), i + 1, n)
        },
        None => {
            assert(v@.subrange(0, n as int) =~= v@);
            slice_chars(v.as_slice(), 0, n)
        },
    }
}

impl ContractInfo {
    /// Parses `<path>:<name>`, where `<path>:` is optional.
    pub fn parse(s: &str) -> (r: Result<Self, ParseContractInfoError>)
        ensures
            r matches Ok(c) && c@ == parse_contract_info(s@),
    {
        let v = chars_of(s);
        let tail = chars_after_last(&v, ':');
        let name = trim_chars(tail.as_slice());
        let suffix: [char; 4] = ['.', 's', 'o', 'l'];
        assert(suffix@ == sol_suffix());
        if chars_end_with(name.as_slice(), &suffix) || chars_contain(name.as_slice(), '/') {
            return Ok(Self { path: Some(string_from_chars(name.as_slice())), name: None });
        }
        proof {
            lemma_last_index_of(v@, ':');
        }
        let path = match find_last(v.as_slice(), ':') {
            Some(i) => {
                let head = slice_chars(v.as_slice(), 0, i);
                let piece = chars_after_last(&head, ':');
                Some(string_from_chars(piece.as_slice()))
            },
            None => None,
        };
        Ok(Self { path, name: Some(string_from_chars(name.as_slice())) })
    }

    /// Creates a new `ContractInfo` from the `info` str.
    ///
    /// If `info` matches the `<path>:<name>` format, the `path` will be set;
    /// otherwise the `name` of the new object will be `info`.
    pub fn new(info: &str) -> (r: Self)
        ensures
            r@ == parse_contract_info(info@),
    {
        match Self::parse(info) {
            Ok(c) => c,
            Err(_) => Self { path: None, name: Some(owned(info)) },
        }
    }

    /// The identifier as `<path>:<name>`, each part where present.
    pub fn to_string(&self) -> (r: String)
        ensures
            r@ == contract_info_text(self@),
    {
        let mut s = String::new();
        if let Some(path) = &self.path {
            push_str(&mut s, path.as_str());
            string_push(&mut s, ':');
        }
        if let Some(name) = &self.name {
            push_str(&mut s, name.as_str());
        }
        assert(s@ =~= contract_info_text(self@));
        s
    }

    /// The identifier with both parts of a [`FullContractInfo`].
    pub fn from_full(info: FullContractInfo) -> (r: Self)
        ensures
            r@.path == Some(info.path@),
            r@.name == Some(info.name@),
    {
        let FullContractInfo { path, name } = info;
        Self { path: Some(path), name: Some(name) }
    }
}

impl std::str::FromStr for ContractInfo {
    type Err = ParseContractInfoError;

    fn from_str(s: &str) -> (r: Result<Self, Self::Err>)
        ensures
            r matches Ok(c) && c@ == parse_contract_info(s@),
    {
        Self::parse(s)
    }
}

/// The reference type for `ContractInfo`
#[derive(Clone, Debug, PartialEq, Eq, Hash)]
pub struct ContractInfoRef {
    pub path: Option<String>,
    pub name: String,
}

impl ContractInfoRef {
    /// The parts of a [`ContractInfo`], an absent name becoming empty.
    pub fn from_info(info: &ContractInfo) -> (r: Self)
        ensures
            opt_view(r.path) == info@.path,
            r.name@ == match info@.name {
                Some(n) => n,
                None => Seq::empty(),
            },
    {
        ContractInfoRef {
            path: info.path.clone(),
            name: match &info.name {
                Some(n) => n.clone(),
                None => String::new(),
            },
        }
    }

    /// The parts of a [`FullContractInfo`].
    pub fn from_full(info: &FullContractInfo) -> (r: Self)
        ensures
            opt_view(r.path) == Some(info.path@),
            r.name@ == info.name@,
    {
        ContractInfoRef { path: Some(info.path.clone()), name: info.name.clone() }
    }
}

/// Represents the common contract argument pattern `<path>:<contractname>`
#[derive(Clone, Debug, PartialEq, Eq, Hash)]
pub struct FullContractInfo {
    /// Location of the contract
    pub path: String,
    /// Name of the contract
    pub name: String,
}

/// The message when a full contract identifier has no `:`.
pub open spec fn msg_missing_colon() -> Seq<char> {
    "Expected `<path>:<contractname>`, got `{s}`"@
}

/// The full contract identifier written as `s`: the path up to the first `:`,
/// the trimmed rest as the name.
pub open spec fn parse_full_contract_info(s: Seq<char>) -> Option<(Seq<char>, Seq<char>)> {
    match first_index_of(s, ':') {
        Some(i) => Some((s.subrange(0, i), trim(s.subrange(i + 1, s.len() as int)))),
        None => None,
    }
}

impl FullContractInfo {
    /// Parses `<path>:<name>`, split at the first `:`.
    pub fn parse(s: &str) -> (r: Result<Self, ParseContractInfoError>)
        ensures
            match parse_full_contract_info(s@) {
                Some((p, n)) => r matches Ok(f) && f.path@ == p && f.name@ == n,
                None => r matches Err(e) && e@ == msg_missing_colon(),
            },
    {
        let v = chars_of(s);
        proof {
            lemma_first_index_of(v@, ':');
        }
        match find_first(v.as_slice(), ':') {
            Some(i) => {
                let path = slice_chars(v.as_slice(), 0, i);
                let rest = slice_chars(v.as_slice(), i + 1, v.len());
                let name = trim_chars(rest.as_slice());
                Ok(Self {
                    path: string_from_chars(path.as_slice()),
                    name: string_from_chars(name.as_slice()),
                })
            },
            None => Err(
                ParseContractInfoError(owned("Expected `<path>:<contractname>`, got `{s}`")),
            ),
        }
    }

    /// The identifier as `<path>:<name>`.
    pub fn to_string(&self) -> (r: String)
        ensures
            r@ == self.path@ + seq![':'] + self.name@,
    {
        let mut s = String::new();
        push_str(&mut s, self.path.as_str());
        string_push(&mut s, ':');
        push_str(&mut s, self.name.as_str());
        s
    }

    /// Both parts of a [`ContractInfo`]; an error names the missing part.
    pub fn try_from_info(value: ContractInfo) -> (r: Result<Self, ParseContractInfoError>)
        ensures
            match (value@.path, value@.name) {
                (Some(p), Some(n)) => r matches Ok(f) && f.path@ == p && f.name@ == n,
                (None, _) => r matches Err(e) && e@ == "path to contract must be present"@,
                (Some(_), None) => r matches Err(e) && e@ == "name of contract must be present"@,
            },
    {
        let ContractInfo { path, name } = value;
        let path = match path {
            Some(p) => p,
            None => {
                return Err(ParseContractInfoError(owned("path to contract must be present")));
            },
        };
        let name = match name {
            Some(n) => n,
            None => {
                return Err(ParseContractInfoError(owned("name of contract must be present")));
            },
        };
        Ok(Self { path, name })
    }
}

impl std::str::FromStr for FullContractInfo {
    type Err = ParseContractInfoError;

    fn from_str(s: &str) -> (r: Result<Self, Self::Err>)
        ensures
            match parse_full_contract_info(s@) {
                Some((p, n)) => r matches Ok(f) && f.path@ == p && f.name@ == n,
                None => r matches Err(e) && e@ == msg_missing_colon(),
            },
    {
        Self::parse(s)
    }
}


proof fn lemma_colon_at(a: Seq<char>, b: Seq<char>)
    requires
        !a.contains(':'),
        !b.contains(':'),
    ensures
        first_index_of(a + seq![':'] + b, ':') == Some(a.len() as int),
        last_index_of(a + seq![':'] + b, ':') == Some(a.len() as int),
        (a + seq![':'] + b).subrange(0, a.len() as int) == a,
        (a + seq![':'] + b).subrange(a.len() as int + 1, (a + seq![':'] + b).len() as int) == b,
{
    let s = a + seq![':'] + b;
    assert(s[a.len() as int] == ':');
    lemma_first_index_of(s, ':');
    lemma_last_index_of(s, ':');
    assert forall|k: int| 0 <= k < a.len() implies s[k] != ':' by {
        assert(s[k] == a[k]);
    }
    assert forall|k: int| a.len() < k < s.len() implies s[k] != ':' by {
        assert(s[k] == b[k - a.len() - 1]);
    }
    assert(s.subrange(0, a.len() as int) =~= a);
    assert(s.subrange(a.len() as int + 1, s.len() as int) =~= b);
}

proof fn lemma_no_colon(a: Seq<char>)
    requires
        !a.contains(':'),
    ensures
        first_index_of(a, ':') is None,
        last_index_of(a, ':') is None,
        after_last(a, ':') == a,
{
    lemma_first_index_of(a, ':');
    lemma_last_index_of(a, ':');
    if let Some(i) = last_index_of(a, ':') {
        assert(a[i] == ':');
    }
    if let Some(i) = first_index_of(a, ':') {
        assert(a[i] == ':');
    }
}

/// Printing a full contract identifier and parsing it back gives the same path
/// and name, when the path holds no `:` and the name has no surrounding whitespace.
pub proof fn lemma_full_contract_info_roundtrip(path: Seq<char>, name: Seq<char>)
    requires
        !path.contains(':'),
        trim(name) == name,
    ensures
        parse_full_contract_info(path + seq![':'] + name) == Some((path, name)),
{
    let s = path + seq![':'] + name;
    lemma_first_index_of(s, ':');
    assert(s[path.len() as int] == ':');
    assert forall|k: int| 0 <= k < path.len() implies s[k] != ':' by {
        assert(s[k] == path[k]);
    }
    let i = first_index_of(s, ':').unwrap();
    assert(i == path.len());
    assert(s.subrange(0, i) =~= path);
    assert(s.subrange(i + 1, s.len() as int) =~= name);
}

/// Printing a contract identifier that has a name and parsing it back gives the
/// same identifier, when neither part holds a `:`, the name has no surrounding
/// whitespace and does not denote a file.
pub proof fn lemma_contract_info_roundtrip(c: ContractInfoView)
    requires
        c.name matches Some(n) && trim(n) == n && !n.contains(':') && !is_file_name(n),
        c.path matches Some(p) ==> !p.contains(':'),
    ensures
        parse_contract_info(contract_info_text(c)) == c,
{
    let n = c.name.unwrap();
    match c.path {
        Some(p) => {
            let s = contract_info_text(c);
            assert(s =~= p + seq![':'] + n);
            lemma_colon_at(p, n);
            lemma_no_colon(p);
        },
        None => {
            let s = contract_info_text(c);
            assert(s =~= n);
            lemma_no_colon(n);
        },
    }
}

/// The part of an identifier after its last `:` is the part after a `:`
/// that no other `:` follows.
proof fn lemma_after_last_colon(p: Seq<char>, t: Seq<char>)
    requires
        !t.contains(':'),
    ensures
        after_last(p + seq![':'] + t, ':') == t,
{
    let s = p + seq![':'] + t;
    lemma_last_index_of(s, ':');
    let k = p.len() as int;
    assert(s[k] == ':');
    match last_index_of(s, ':') {
        Some(i) => {
            if i > k {
                assert(t[i - k - 1] == s[i]);
                assert(t.contains(':'));
            }
            if i < k {
                assert(s[k] != ':');
            }
            assert(s.subrange(i + 1, s.len() as int) =~= t);
        },
        None => {
            assert(s[k] != ':');
        },
    }
}

/// An identifier `<p>:<t>` (or `<t>` alone), where `t` holds no `:`: with
/// `n` the trimmed `t`, a name that holds a `/` or ends with `.sol` is a file,
/// so the identifier has `n` as its path and no name; any other `n` is the
/// name.
pub proof fn lemma_contract_info_file_or_name(p: Option<Seq<char>>, t: Seq<char>)
    requires
        !t.contains(':'),
    ensures
        ({
            let s = match p {
                Some(q) => q + seq![':'] + t,
                None => t,
            };
            let n = trim(t);
            &&& (n.contains('/') || ends_with(n, seq!['.', 's', 'o', 'l'])) ==> parse_contract_info(s) == (ContractInfoView { path: Some(n), name: None })
            &&& !(n.contains('/') || ends_with(n, seq!['.', 's', 'o', 'l'])) ==> parse_contract_info(s).name == Some(n)
        }),
{
    match p {
        Some(q) => lemma_after_last_colon(q, t),
        None => {
            lemma_last_index_of(t, ':');
            if let Some(i) = last_index_of(t, ':') {
                assert(t.contains(':'));
            }
        },
    }
    assert(sol_suffix() =~= seq!['.', 's', 'o', 'l']);
}

} // verus!
