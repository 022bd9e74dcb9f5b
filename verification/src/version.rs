//! Semantic versions and version requirements, held as plain values; parsing
//! is done by the `semver` crate.

use crate::text::{dec, push_decimal, push_str, string_push};
use vstd::prelude::*;

verus! {

/// A semantic version.
#[derive(Clone, Debug, PartialEq, Eq)]
pub struct Version {
    pub major: u64,
    pub minor: u64,
    pub patch: u64,
    /// The pre-release part, without the leading `-` (empty for none).
    pub pre: String,
    /// The build metadata, without the leading `+` (empty for none).
    pub build: String,
}

impl Version {
    /// A copy of the version.
    pub fn duplicate(&self) -> (r: Self)
        ensures
            r == *self,
    {
        Version { major: self.major, minor: self.minor, patch: self.patch, pre: self.pre.clone(), build: self.build.clone() }
    }
}

/// The parts of a [`Version`].
pub struct VersionView {
    pub major: u64,
    pub minor: u64,
    pub patch: u64,
    pub pre: Seq<char>,
    pub build: Seq<char>,
}

impl View for Version {
    type V = VersionView;

    open spec fn view(&self) -> VersionView {
        VersionView {
            major: self.major,
            minor: self.minor,
            patch: self.patch,
            pre: self.pre@,
            build: self.build@,
        }
    }
}

/// The operator of a version comparator.
#[derive(Clone, Copy, Debug, PartialEq, Eq, Structural)]
pub enum CompareOp {
    Exact,
    Greater,
    GreaterEq,
    Less,
    LessEq,
    Tilde,
    Caret,
    Wildcard,
}

/// One comparator of a version requirement, such as `>=0.8.0`.
#[derive(Clone, Debug, PartialEq, Eq)]
pub struct Comparator {
    pub op: CompareOp,
    pub major: u64,
    pub minor: Option<u64>,
    pub patch: Option<u64>,
    /// The pre-release part (empty for none).
    pub pre: String,
}

/// The parts of a [`Comparator`].
pub struct ComparatorView {
    pub op: CompareOp,
    pub major: u64,
    pub minor: Option<u64>,
    pub patch: Option<u64>,
    pub pre: Seq<char>,
}

impl View for Comparator {
    type V = ComparatorView;

    open spec fn view(&self) -> ComparatorView {
        ComparatorView {
            op: self.op,
            major: self.major,
            minor: self.minor,
            patch: self.patch,
            pre: self.pre@,
        }
    }
}

/// A version requirement: comparators that all must hold (none: any version).
#[derive(Clone, Debug, PartialEq, Eq)]
pub struct VersionReq {
    pub comparators: Vec<Comparator>,
}

/// The comparators of a requirement.
pub open spec fn req_view(r: VersionReq) -> Seq<ComparatorView> {
    r.comparators@.map_values(|c: Comparator| c@)
}

/// The version that `semver` reads from a text, if any.
pub uninterp spec fn semver_version(s: Seq<char>) -> Option<VersionView>;

/// The comparators that `semver` reads from a version requirement text, if any.
pub uninterp spec fn semver_req(s: Seq<char>) -> Option<Seq<ComparatorView>>;

/// A requirement text that is only a wildcard (`*`, `x` or `X`), with spaces around.
pub open spec fn is_wildcard_req(s: Seq<char>) -> bool {
    exists|i: int|
        0 <= i < s.len() && (s[i] == '*' || s[i] == 'x' || s[i] == 'X') && (forall|k: int|
            0 <= k < s.len() && k != i ==> #[trigger] s[k] == ' ')
}

/// The operator type of the `semver` crate.
#[verifier::external_type_specification]
#[verifier::external_body]
pub struct ExSemverOp(semver::Op);

/// Converts a `semver::Op` to the operator of the same name, one arm per variant.
#[verifier::external_body]
fn op_of(op: semver::Op) -> CompareOp {
    match op {
        semver::Op::Exact => CompareOp::Exact,
        semver::Op::Greater => CompareOp::Greater,
        semver::Op::GreaterEq => CompareOp::GreaterEq,
        semver::Op::Less => CompareOp::Less,
        semver::Op::LessEq => CompareOp::LessEq,
        semver::Op::Tilde => CompareOp::Tilde,
        semver::Op::Caret => CompareOp::Caret,
        _ => CompareOp::Wildcard,
    }
}

/// Parses a version with `semver::Version::parse`.
///
/// Claimed: the result is the version named `semver_version` of the text, an
/// error exactly where that names none. The error message is left unsaid.
#[verifier::external_body]
pub fn parse_version(s: &str) -> (r: Result<Version, String>)
    ensures
        match semver_version(s@) {
            Some(v) => r matches Ok(x) && x@ == v,
            None => r is Err,
        },
{
    match semver::Version::parse(s) {
        Ok(v) => Ok(Version {
            major: v.major,
            minor: v.minor,
            patch: v.patch,
            pre: v.pre.as_str().to_string(),
            build: v.build.as_str().to_string(),
        }),
        Err(e) => Err(e.to_string()),
    }
}

/// Parses a version requirement with `semver::VersionReq::parse`.
///
/// Claimed: the result holds the comparators named `semver_req` of the text,
/// an error exactly where that names none; and, as the crate's parser shows, a
/// requirement without comparators comes only from a lone wildcard, which
/// always gives one. The error message is left unsaid.
#[verifier::external_body]
pub(crate) fn parse_version_req_text(s: &str) -> (r: Result<VersionReq, String>)
    ensures
        match semver_req(s@) {
            Some(cs) => r matches Ok(x) && req_view(x) == cs,
            None => r is Err,
        },
        r matches Ok(x) ==> (x.comparators@.len() == 0 <==> is_wildcard_req(s@)),
        is_wildcard_req(s@) ==> r is Ok,
{
    match semver::VersionReq::parse(s) {
        Ok(req) => Ok(VersionReq { comparators: req.comparators.into_iter().map(|c| Comparator {
            op: op_of(c.op), major: c.major, minor: c.minor, patch: c.patch,
            pre: c.pre.as_str().to_string() }).collect() }),
        Err(e) => Err(e.to_string()),
    }
}

/// Whether `semver` finds the version to match all comparators.
pub uninterp spec fn semver_matches(req: Seq<ComparatorView>, v: VersionView) -> bool;

/// Converts an operator to the `semver` operator of the same name.
#[verifier::external_body]
fn semver_op_of(op: CompareOp) -> semver::Op {
    match op {
        CompareOp::Exact => semver::Op::Exact,
        CompareOp::Greater => semver::Op::Greater,
        CompareOp::GreaterEq => semver::Op::GreaterEq,
        CompareOp::Less => semver::Op::Less,
        CompareOp::LessEq => semver::Op::LessEq,
        CompareOp::Tilde => semver::Op::Tilde,
        CompareOp::Caret => semver::Op::Caret,
        CompareOp::Wildcard => semver::Op::Wildcard,
    }
}

/// Tests a version against a requirement with `semver::VersionReq::matches`.
///
/// Claimed: the result is what `semver_matches` names for the comparators
/// and the version. Texts that `semver` does not accept as pre-release or
/// build identifiers are read as empty.
#[verifier::external_body]
pub(crate) fn req_matches(req: &VersionReq, v: &Version) -> (r: bool)
    ensures
        r == semver_matches(req_view(*req), v@),
{
    let comparators = req.comparators.iter().map(|c| semver::Comparator { op: semver_op_of(c.op),
        major: c.major, minor: c.minor, patch: c.patch,
        pre: semver::Prerelease::new(&c.pre).unwrap_or_default() }).collect();
    let version = semver::Version { major: v.major, minor: v.minor, patch: v.patch,
        pre: semver::Prerelease::new(&v.pre).unwrap_or_default(),
        build: semver::BuildMetadata::new(&v.build).unwrap_or_default() };
    semver::VersionReq { comparators }.matches(&version)
}

impl VersionReq {
    /// The requirement `semver` reads from a text.
    pub fn parse(s: &str) -> (r: Result<VersionReq, String>)
        ensures
            match semver_req(s@) {
                Some(cs) => r matches Ok(x) && req_view(x) == cs,
                None => r is Err,
            },
    {
        parse_version_req_text(s)
    }
}

/// A version as `semver` displays it: `major.minor.patch`, then `-pre` and
/// `+build` where these are not empty.
pub open spec fn version_display(v: VersionView) -> Seq<char> {
    let core = dec(v.major as nat) + seq!['.'] + dec(v.minor as nat) + seq!['.'] + dec(v.patch as nat);
    let with_pre = if v.pre.len() > 0 { core + seq!['-'] + v.pre } else { core };
    if v.build.len() > 0 { with_pre + seq!['+'] + v.build } else { with_pre }
}

impl Version {
    /// The version as `semver` displays it.
    pub fn to_string(&self) -> (r: String)
        ensures
            r@ == version_display(self@),
    {
        let mut s = String::new();
        push_decimal(&mut s, self.major);
        string_push(&mut s, '.');
        push_decimal(&mut s, self.minor);
        string_push(&mut s, '.');
        push_decimal(&mut s, self.patch);
        if !self.pre.as_str().is_empty() {
            string_push(&mut s, '-');
            push_str(&mut s, self.pre.as_str());
        }
        if !self.build.as_str().is_empty() {
            string_push(&mut s, '+');
            push_str(&mut s, self.build.as_str());
        }
        s
    }
}

} // verus!
