//! The resolc compiler: its settings, the version it reports, the range of
//! solc versions it supports, and the decisions of installing it.

use crate::text::{
    chars_of, slice_chars, split_chars, split_on, string_from_chars, trim,
    trim_chars,
};
use crate::text::push_str;
use crate::version::{
    parse_version, req_matches, req_view, semver_matches, semver_version, version_display, CompareOp,
    Comparator, Version, VersionReq, VersionView,
};
use vstd::prelude::*;

verus! {

/// Optimizer settings of resolc.
#[derive(Clone, Copy, Debug, Default, PartialEq, Eq)]
pub struct ResolcOptimizer {
    pub mode: Option<char>,
}

/// Memory settings of the PolkaVM target.
#[derive(Clone, Copy, Debug, Default, PartialEq, Eq)]
pub struct PolkaVMSettings {
    pub heap_size: Option<u32>,
    pub stack_size: Option<u32>,
}

/// Settings specific to resolc.
#[derive(Clone, Copy, Debug, Default, PartialEq, Eq)]
pub struct ResolcSettings {
    pub polkavm: PolkaVMSettings,
    pub resolc_optimizer: ResolcOptimizer,
}

impl ResolcSettings {
    pub fn new(optimizer_mode: Option<char>, heap_size: Option<u32>, stack_size: Option<u32>) -> (r: Self)
        ensures
            r.resolc_optimizer.mode == optimizer_mode,
            r.polkavm.heap_size == heap_size,
            r.polkavm.stack_size == stack_size,
    {
        Self {
            resolc_optimizer: ResolcOptimizer { mode: optimizer_mode },
            polkavm: PolkaVMSettings { heap_size, stack_size },
        }
    }
}

/// The comparator `op major.minor.patch`, without pre-release.
pub open spec fn full_comparator(op: CompareOp, v: VersionView) -> crate::version::ComparatorView {
    crate::version::ComparatorView { op, major: v.major, minor: Some(v.minor), patch: Some(v.patch), pre: Seq::empty() }
}

fn comparator_of(op: CompareOp, v: &Version) -> (r: Comparator)
    ensures
        r@ == full_comparator(op, v@),
{
    Comparator { op, major: v.major, minor: Some(v.minor), patch: Some(v.patch), pre: String::new() }
}

/// The solc versions that a resolc release supports: from the first to the
/// last supported version, both included.
pub fn supported_solc_range(first: &Version, last: &Version) -> (r: VersionReq)
    ensures
        crate::version::req_view(r) == seq![full_comparator(CompareOp::GreaterEq, first@), full_comparator(CompareOp::LessEq, last@)],
{
    let mut comparators: Vec<Comparator> = Vec::new();
    comparators.push(comparator_of(CompareOp::GreaterEq, first));
    comparators.push(comparator_of(CompareOp::LessEq, last));
    let r = VersionReq { comparators };
    assert(crate::version::req_view(r) =~= seq![full_comparator(CompareOp::GreaterEq, first@), full_comparator(CompareOp::LessEq, last@)]);
    r
}

/// The lines of a text as `str::lines` gives them: the pieces between line
/// feeds, without a last empty piece, each without a trailing carriage return.
pub open spec fn text_lines(s: Seq<char>) -> Seq<Seq<char>> {
    let pieces = split_on(s, '\n');
    let kept = if pieces.last().len() == 0 {
        pieces.drop_last()
    } else {
        pieces
    };
    kept.map_values(|l: Seq<char>| if l.len() > 0 && l.last() == '\r' { l.drop_last() } else { l })
}

/// The last line that is not blank.
pub open spec fn last_nonblank(lines: Seq<Seq<char>>) -> Option<Seq<char>>
    decreases lines.len(),
{
    if lines.len() == 0 {
        None
    } else if trim(lines.last()).len() > 0 {
        Some(lines.last())
    } else {
        last_nonblank(lines.drop_last())
    }
}

/// The text `version ` that precedes the version in resolc's output.
pub open spec fn version_marker() -> Seq<char> {
    seq!['v', 'e', 'r', 's', 'i', 'o', 'n', ' ']
}

/// Whether `p` occurs in `s` at `i`.
pub open spec fn occurs_at(s: Seq<char>, p: Seq<char>, i: int) -> bool {
    0 <= i && i + p.len() <= s.len() && s.subrange(i, i + p.len()) == p
}

/// The pieces of `s` between the occurrences of the marker, left to right.
#[verifier::opaque]
pub open spec fn split_marker(s: Seq<char>) -> Seq<Seq<char>>
    decreases s.len(),
{
    let p = version_marker();
    if exists|i: int| #[trigger] occurs_at(s, p, i) {
        let i = choose|i: int| #[trigger] occurs_at(s, p, i) && forall|j: int| 0 <= j < i ==> !occurs_at(s, p, j);
        if 0 <= i && i + p.len() <= s.len() {
            seq![s.subrange(0, i)] + split_marker(s.subrange(i + p.len(), s.len() as int))
        } else {
            seq![s]
        }
    } else {
        seq![s]
    }
}

/// The last piece of a line split at each `version `, as `split_terminator`
/// gives it (an empty piece at the end does not count).
pub open spec fn version_text(line: Seq<char>) -> Seq<char> {
    let pieces = split_marker(line);
    if pieces.len() > 1 && pieces.last().len() == 0 {
        pieces[pieces.len() - 2]
    } else {
        pieces.last()
    }
}

/// Why the version of resolc could not be read from its output.
#[derive(Clone, Copy, Debug, PartialEq, Eq, Structural)]
pub enum VersionOutputError {
    /// resolc exited unsuccessfully.
    Failed,
    /// Version not found in resolc output
    NotFound,
    /// Unable to retrieve version from resolc output
    Unreadable,
}

/// The version that resolc reports when asked: from the last line of its
/// output that is not blank, the text after the last `version `, read as a
/// semantic version without build metadata.
pub open spec fn reported_version(success: bool, stdout: Seq<char>) -> Result<VersionView, VersionOutputError> {
    if !success {
        Err(VersionOutputError::Failed)
    } else {
        match last_nonblank(text_lines(stdout)) {
            None => Err(VersionOutputError::NotFound),
            Some(line) => match semver_version(version_text(line)) {
                Some(v) => Ok(VersionView { build: Seq::empty(), ..v }),
                None => Err(VersionOutputError::Unreadable),
            },
        }
    }
}

fn find_marker(v: &[char], from: usize) -> (r: Option<usize>)
    requires
        from <= v@.len(),
    ensures
        match r {
            Some(i) => from <= i && occurs_at(v@, version_marker(), i as int) && forall|j: int| from <= j < i ==> !occurs_at(v@, version_marker(), j),
            None => forall|j: int| from <= j ==> !occurs_at(v@, version_marker(), j),
        },
{
    let p = vec!['v', 'e', 'r', 's', 'i', 'o', 'n', ' '];
    assert(p@ =~= version_marker());
    if v.len() < 8 {
        return None;
    }
    let limit = v.len() - 8;
    let mut i: usize = from;
    while i <= limit
        invariant
            from <= i,
            limit + 8 == v@.len(),
            limit <= usize::MAX - 8,
            p@ == version_marker(),
            forall|j: int| from <= j < i ==> !occurs_at(v@, version_marker(), j),
        decreases v@.len() - i,
    {
        let mut k: usize = 0;
        let mut same = true;
        while k < 8
            invariant
                k <= 8,
                i <= limit,
                limit + 8 == v@.len(),
                limit <= usize::MAX - 8,
                p@ == version_marker(),
                same == forall|q: int| 0 <= q < k ==> v@[i + q] == p@[q],
            decreases 8 - k,
        {
            if v[i + k] != p[k] {
                same = false;
            }
            k = k + 1;
        }
        if same {
            assert(v@.subrange(i as int, i + 8) =~= p@);
            return Some(i);
        }
        assert(!occurs_at(v@, version_marker(), i as int)) by {
            let q = choose|q: int| 0 <= q < 8 && v@[i + q] != p@[q];
            assert(v@.subrange(i as int, i + 8)[q] != p@[q]);
        }
        i = i + 1;
    }
    None
}

proof fn lemma_split_marker_step(s: Seq<char>, i: int)
    requires
        occurs_at(s, version_marker(), i),
        forall|j: int| 0 <= j < i ==> !occurs_at(s, version_marker(), j),
    ensures
        split_marker(s) == seq![s.subrange(0, i)] + split_marker(s.subrange(i + 8, s.len() as int)),
{
    reveal(split_marker);
    let p = version_marker();
    let k = choose|k: int| #[trigger] occurs_at(s, p, k) && forall|j: int| 0 <= j < k ==> !occurs_at(s, p, j);
    if k < i {
        assert(!occurs_at(s, p, k));
    } else if i < k {
        assert(!occurs_at(s, p, i));
    }
}

proof fn lemma_occurs_shift(s: Seq<char>, from: int, j: int)
    requires
        0 <= from <= s.len(),
        0 <= j,
    ensures
        occurs_at(s.subrange(from, s.len() as int), version_marker(), j) == occurs_at(s, version_marker(), from + j),
{
    let t = s.subrange(from, s.len() as int);
    if occurs_at(s, version_marker(), from + j) {
        assert(t.subrange(j, j + 8) =~= s.subrange(from + j, from + j + 8));
    }
    if occurs_at(t, version_marker(), j) {
        assert(t.subrange(j, j + 8) =~= s.subrange(from + j, from + j + 8));
    }
}

proof fn lemma_split_from_found(v: Seq<char>, from: int, i: int)
    requires
        0 <= from <= i,
        occurs_at(v, version_marker(), i),
        forall|j: int| from <= j < i ==> !occurs_at(v, version_marker(), j),
    ensures
        split_marker(v.subrange(from, v.len() as int)) == seq![v.subrange(from, i)] + split_marker(v.subrange(i + 8, v.len() as int)),
{
    let rest = v.subrange(from, v.len() as int);
    assert forall|j: int| 0 <= j < i - from implies !occurs_at(rest, version_marker(), j) by {
        lemma_occurs_shift(v, from, j);
    }
    lemma_occurs_shift(v, from, i - from);
    lemma_split_marker_step(rest, i - from);
    assert(rest.subrange(0, i - from) =~= v.subrange(from, i));
    assert(rest.subrange(i - from + 8, rest.len() as int) =~= v.subrange(i + 8, v.len() as int));
}

proof fn lemma_split_from_none(v: Seq<char>, from: int)
    requires
        0 <= from <= v.len(),
        forall|j: int| from <= j ==> !occurs_at(v, version_marker(), j),
    ensures
        split_marker(v.subrange(from, v.len() as int)) == seq![v.subrange(from, v.len() as int)],
{
    let rest = v.subrange(from, v.len() as int);
    assert forall|j: int| #[trigger] occurs_at(rest, version_marker(), j) implies false by {
        if 0 <= j {
            lemma_occurs_shift(v, from, j);
        }
    }
    reveal(split_marker);
}

/// The text after the last `version ` of a line, as `version_text` says.
fn version_text_of(v: &[char]) -> (r: Vec<char>)
    ensures
        r@ == version_text(v@),
{
    let n = v.len();
    let ghost mut acc: Seq<Seq<char>> = Seq::empty();
    let mut count: usize = 0;
    let mut prev: Vec<char> = Vec::new();
    let mut from: usize = 0;
    assert(v@.subrange(0, v@.len() as int) =~= v@);
    loop
        invariant
            n == v@.len(),
            from <= v@.len(),
            count <= from,
            count == acc.len(),
            split_marker(v@) == acc + split_marker(v@.subrange(from as int, v@.len() as int)),
            acc.len() > 0 ==> prev@ == acc.last(),
        ensures
            from <= v@.len(),
            count <= from,
            count == acc.len(),
            split_marker(v@) == acc + split_marker(v@.subrange(from as int, v@.len() as int)),
            acc.len() > 0 ==> prev@ == acc.last(),
            forall|j: int| from <= j ==> !occurs_at(v@, version_marker(), j),
        decreases v@.len() - from,
    {
        let found = find_marker(v, from);
        match found {
            Some(i) => {
                proof {
                    lemma_split_from_found(v@, from as int, i as int);
                    assert(acc + split_marker(v@.subrange(from as int, v@.len() as int)) =~= acc.push(v@.subrange(from as int, i as int)) + split_marker(v@.subrange(i + 8, v@.len() as int)));
                    acc = acc.push(v@.subrange(from as int, i as int));
                }
                prev = slice_chars(v, from, i);
                count = count + 1;
                from = i + 8;
            },
            None => {
                break;
            },
        }
    }
    proof {
        lemma_split_from_none(v@, from as int);
    }
    let last = slice_chars(v, from, v.len());
    assert(split_marker(v@) =~= acc.push(last@));
    if count > 0 && last.len() == 0 {
        prev
    } else {
        last
    }
}

fn strip_cr(l: &Vec<char>) -> (r: Vec<char>)
    ensures
        r@ == (if l@.len() > 0 && l@.last() == '\r' { l@.drop_last() } else { l@ }),
{
    let n = l.len();
    if n > 0 && l[n - 1] == '\r' {
        let r = slice_chars(l.as_slice(), 0, n - 1);
        assert(r@ =~= l@.drop_last());
        r
    } else {
        let r = slice_chars(l.as_slice(), 0, n);
        assert(r@ =~= l@);
        r
    }
}

/// Reads the version that resolc reports when asked (`resolc --version`):
/// whether it succeeded, and what it wrote.
pub fn version_from_output(success: bool, stdout: &str) -> (r: Result<Version, VersionOutputError>)
    ensures
        match reported_version(success, stdout@) {
            Ok(v) => r matches Ok(x) && x@ == v,
            Err(e) => r == Err::<Version, VersionOutputError>(e),
        },
{
    if !success {
        return Err(VersionOutputError::Failed);
    }
    let chars = chars_of(stdout);
    let pieces = split_chars(chars.as_slice(), '\n');
    proof {
        crate::text::lemma_split_on_len(chars@, '\n');
    }
    let ghost sp = split_on(stdout@, '\n');
    let ghost kept = if sp.last().len() == 0 { sp.drop_last() } else { sp };
    let ghost lines = text_lines(stdout@);
    let n = pieces.len();
    let count = if pieces[n - 1].len() == 0 {
        n - 1
    } else {
        n
    };
    assert(kept.len() == count);
    assert(lines.len() == count);
    let mut j: usize = count;
    assert(lines.take(count as int) =~= lines);
    while j > 0
        invariant
            success,
            j <= count <= n,
            n == pieces@.len(),
            count == lines.len(),
            lines == text_lines(stdout@),
            kept.len() == count,
            sp == split_on(stdout@, '\n'),
            lines == kept.map_values(|l: Seq<char>| if l.len() > 0 && l.last() == '\r' { l.drop_last() } else { l }),
            forall|k: int| 0 <= k < count ==> #[trigger] kept[k] == sp[k],
            forall|k: int| 0 <= k < n ==> #[trigger] pieces@[k]@ == sp[k],
            last_nonblank(lines) == last_nonblank(lines.take(j as int)),
        decreases j,
    {
        let line = strip_cr(&pieces[j - 1]);
        assert(line@ == lines[j - 1]);
        assert(lines.take(j as int).last() == lines[j - 1]);
        assert(lines.take(j as int).drop_last() =~= lines.take(j - 1));
        let trimmed = trim_chars(line.as_slice());
        if trimmed.len() > 0 {
            assert(last_nonblank(lines.take(j as int)) == Some(line@));
            assert(last_nonblank(lines) == Some(line@));
            let text = version_text_of(line.as_slice());
            let s = string_from_chars(text.as_slice());
            match parse_version(s.as_str()) {
                Ok(v) => {
                    return Ok(Version { major: v.major, minor: v.minor, patch: v.patch, pre: v.pre, build: String::new() });
                },
                Err(_) => {
                    return Err(VersionOutputError::Unreadable);
                },
            }
        }
        j = j - 1;
    }
    Err(VersionOutputError::NotFound)
}

/// What a resolc release provides: its version and the range of solc
/// versions it supports.
#[derive(Clone, Debug)]
pub struct BinaryInfo {
    pub version: Version,
    pub first_supported_solc_version: Version,
    pub last_supported_solc_version: Version,
}

/// A resolc binary as the version manager knows it: to download, or
/// installed at a path.
#[derive(Clone, Debug)]
pub enum Binary {
    Remote(BinaryInfo),
    Local { path: String, info: BinaryInfo },
}

/// An installed resolc: its path, version and the solc versions it supports.
#[derive(Clone, Debug)]
pub struct ResolcRelease {
    pub path: String,
    pub version: Version,
    pub supported_solc_versions: VersionReq,
}

/// Where installing resolc stands.
#[derive(Clone, Debug)]
pub enum InstallStep {
    /// Nothing asked yet.
    Start,
    /// Asked whether the requested version is installed.
    CheckingInstalled,
    /// Asked for a binary of the requested version.
    Fetching,
    /// Asked for the available binaries.
    Listing,
    /// Asked to install the release described.
    Installing(BinaryInfo),
    /// Finished.
    Done,
}

/// What the version manager answered.
#[derive(Clone, Debug)]
pub enum InstallEvent {
    /// The installation begins.
    Started,
    /// Whether the requested version is installed.
    Installed(bool),
    /// A binary of the requested version.
    Fetched(Binary),
    /// The available binaries, oldest first.
    Listed(Vec<Binary>),
    /// Where the release was installed, if it is local now.
    InstalledAt(Option<String>),
    /// The version manager failed, with its message.
    Failed(String),
}

/// What to ask the version manager next, or the outcome.
#[derive(Debug)]
pub enum InstallAction {
    /// Ask whether this version is installed.
    CheckInstalled(Version),
    /// Get the installed binary of this version.
    Get(Version),
    /// Get the binary of this version, installing it if need be.
    GetOrInstall(Version),
    /// List the available binaries.
    ListAvailable,
    /// The outcome.
    Finish(Result<ResolcRelease, String>),
}

/// Whether a release is the one described: at `path`, of the described
/// version, supporting the described solc range.
pub open spec fn is_release_of(r: ResolcRelease, path: Seq<char>, info: BinaryInfo) -> bool {
    &&& r.path@ == path
    &&& r.version == info.version
    &&& crate::version::req_view(r.supported_solc_versions) == seq![full_comparator(CompareOp::GreaterEq, info.first_supported_solc_version@), full_comparator(CompareOp::LessEq, info.last_supported_solc_version@)]
}

/// What follows from a binary: a local one is the outcome; a remote one is
/// to be installed.
pub open spec fn binary_outcome(b: Binary, r: (InstallStep, InstallAction)) -> bool {
    match b {
        Binary::Local { path, info } => r.0 is Done && (r.1 matches InstallAction::Finish(Ok(rel)) && is_release_of(rel, path@, info)),
        Binary::Remote(info) => (r.0 matches InstallStep::Installing(i) && i == info) && r.1 == InstallAction::GetOrInstall(info.version),
    }
}

/// The message when the version manager lists no release.
pub open spec fn no_versions_message() -> Seq<char> {
    "No `resolc` versions available."@
}

/// One step of installing resolc: from where it stands and what the version
/// manager answered, where it stands next and what to ask next.
pub open spec fn install_transition(requested: Option<Version>, step: InstallStep, event: InstallEvent, r: (InstallStep, InstallAction)) -> bool {
    match (step, event) {
        (_, InstallEvent::Failed(msg)) => r.0 is Done && (r.1 matches InstallAction::Finish(Err(m)) && m == msg),
        (InstallStep::Start, InstallEvent::Started) => match requested {
            Some(v) => r.0 is CheckingInstalled && r.1 == InstallAction::CheckInstalled(v),
            None => r.0 is Listing && r.1 is ListAvailable,
        },
        (InstallStep::CheckingInstalled, InstallEvent::Installed(installed)) if requested is Some => r.0 is Fetching && r.1 == if installed {
            InstallAction::Get(requested->0)
        } else {
            InstallAction::GetOrInstall(requested->0)
        },
        (InstallStep::Fetching, InstallEvent::Fetched(b)) => binary_outcome(b, r),
        (InstallStep::Listing, InstallEvent::Listed(list)) => if list@.len() == 0 {
            r.0 is Done && (r.1 matches InstallAction::Finish(Err(m)) && m@ == no_versions_message())
        } else {
            binary_outcome(list@.last(), r)
        },
        (InstallStep::Installing(info), InstallEvent::InstalledAt(Some(path))) => r.0 is Done && (r.1 matches InstallAction::Finish(Ok(rel)) && is_release_of(rel, path@, info)),
        _ => r.0 is Done && (r.1 matches InstallAction::Finish(Err(_))),
    }
}

fn release_of(path: String, info: BinaryInfo) -> (r: ResolcRelease)
    ensures
        is_release_of(r, path@, info),
{
    let supported = supported_solc_range(&info.first_supported_solc_version, &info.last_supported_solc_version);
    ResolcRelease { path, version: info.version, supported_solc_versions: supported }
}

fn after_binary(b: Binary) -> (r: (InstallStep, InstallAction))
    ensures
        binary_outcome(b, r),
{
    match b {
        Binary::Local { path, info } => (InstallStep::Done, InstallAction::Finish(Ok(release_of(path, info)))),
        Binary::Remote(info) => {
            let v = info.version.duplicate();
            (InstallStep::Installing(info), InstallAction::GetOrInstall(v))
        },
    }
}

/// One step of installing resolc (see [`install_transition`]): the version
/// manager's answer to the last question decides the next question or the
/// outcome.
pub fn install_step(requested: &Option<Version>, step: InstallStep, event: InstallEvent) -> (r: (InstallStep, InstallAction))
    requires
        !(step is Installing && event matches InstallEvent::InstalledAt(None)),
    ensures
        install_transition(*requested, step, event, r),
{
    match (step, event) {
        (_, InstallEvent::Failed(msg)) => (InstallStep::Done, InstallAction::Finish(Err(msg))),
        (InstallStep::Start, InstallEvent::Started) => match requested {
            Some(v) => (InstallStep::CheckingInstalled, InstallAction::CheckInstalled(v.duplicate())),
            None => (InstallStep::Listing, InstallAction::ListAvailable),
        },
        (InstallStep::CheckingInstalled, InstallEvent::Installed(installed)) => match requested {
            Some(v) => {
                let v = v.duplicate();
                if installed {
                    (InstallStep::Fetching, InstallAction::Get(v))
                } else {
                    (InstallStep::Fetching, InstallAction::GetOrInstall(v))
                }
            },
            None => (InstallStep::Done, InstallAction::Finish(Err(String::from_str("no version requested")))),
        },
        (InstallStep::Fetching, InstallEvent::Fetched(b)) => after_binary(b),
        (InstallStep::Listing, InstallEvent::Listed(list)) => {
            let mut list = list;
            match list.pop() {
                Some(b) => after_binary(b),
                None => (InstallStep::Done, InstallAction::Finish(Err(String::from_str("No `resolc` versions available.")))),
            }
        },
        (InstallStep::Installing(info), InstallEvent::InstalledAt(Some(path))) => (InstallStep::Done, InstallAction::Finish(Ok(release_of(path, info)))),
        _ => (InstallStep::Done, InstallAction::Finish(Err(String::from_str("unexpected answer of the version manager")))),
    }
}

/// A solc binary: its path and version, and the paths and arguments it is run with.
#[derive(Clone, Debug)]
pub struct Solc {
    pub solc: String,
    pub version: Version,
    pub base_path: Option<String>,
    pub allow_paths: Vec<String>,
    pub include_paths: Vec<String>,
    pub extra_args: Vec<String>,
}

impl Solc {
    /// The version without pre-release and build metadata.
    pub fn version_short(&self) -> (r: Version)
        ensures
            r@ == (VersionView { pre: Seq::empty(), build: Seq::empty(), ..self.version@ }),
    {
        Version { major: self.version.major, minor: self.version.minor, patch: self.version.patch, pre: String::new(), build: String::new() }
    }
}

/// The solc that a compiler runs: detected by version, or a given binary.
#[derive(Clone, Debug)]
pub enum SolcCompiler {
    AutoDetect,
    Specific(Solc),
}

/// A compiler version, installed or available to download.
#[derive(Clone, Debug)]
pub enum CompilerVersion {
    Installed(Version),
    Remote(Version),
}

/// The version of a compiler version.
pub open spec fn compiler_version_of(c: CompilerVersion) -> Version {
    match c {
        CompilerVersion::Installed(v) => v,
        CompilerVersion::Remote(v) => v,
    }
}

/// The resolc compiler, with the solc it drives.
#[derive(Clone, Debug)]
pub struct Resolc {
    pub resolc: String,
    pub resolc_version: Version,
    pub supported_solc_versions: VersionReq,
    pub solc: SolcCompiler,
}

/// Which solc to run for an input.
#[derive(Debug)]
pub enum SolcChoice<'a> {
    /// The given binary.
    Use(&'a Solc),
    /// The binary of this version, installed if need be.
    FindOrInstall(Version),
}

/// The message when resolc does not support the detected solc version.
pub open spec fn unsupported_solc_message(solc: VersionView, resolc: VersionView) -> Seq<char> {
    "autodetected `solc` version v"@ + version_display(solc) + " is not supported by `resolc` v"@ + version_display(resolc) + ". Set explicit `solc` version"@
}

/// The solc version that the version manager is asked about: that of a
/// given binary, without pre-release and build; none when detecting.
pub fn solc_version_for_manager(solc: &SolcCompiler) -> (r: Option<Version>)
    ensures
        match *solc {
            SolcCompiler::Specific(s) => r matches Some(v) && v@ == (VersionView { pre: Seq::empty(), build: Seq::empty(), ..s.version@ }),
            SolcCompiler::AutoDetect => r is None,
        },
{
    match solc {
        SolcCompiler::Specific(s) => Some(s.version_short()),
        SolcCompiler::AutoDetect => None,
    }
}

impl Resolc {
    /// The name of the compiler pair.
    pub fn compiler_name_default() -> (r: String)
        ensures
            r@ == "Resolc and Solc"@,
    {
        String::from_str("Resolc and Solc")
    }

    /// A resolc from an installed release, driving the given solc.
    pub fn from_release(release: ResolcRelease, solc: SolcCompiler) -> (r: Self)
        ensures
            r.resolc == release.path,
            r.resolc_version == release.version,
            r.supported_solc_versions == release.supported_solc_versions,
            r.solc == solc,
    {
        Resolc { resolc: release.path, resolc_version: release.version, supported_solc_versions: release.supported_solc_versions, solc }
    }

    /// The solc to run for an input of the given solc version: the given
    /// binary, or, when detecting, the binary of that version where resolc
    /// supports it.
    pub fn solc<'a>(&'a self, solc_version: &Version) -> (r: Result<SolcChoice<'a>, String>)
        ensures
            match self.solc {
                SolcCompiler::Specific(s) => r matches Ok(SolcChoice::Use(x)) && *x == s,
                SolcCompiler::AutoDetect => if semver_matches(req_view(self.supported_solc_versions), solc_version@) {
                    r matches Ok(SolcChoice::FindOrInstall(v)) && v == *solc_version
                } else {
                    r matches Err(m) && m@ == unsupported_solc_message(solc_version@, self.resolc_version@)
                },
            },
    {
        match &self.solc {
            SolcCompiler::Specific(s) => Ok(SolcChoice::Use(s)),
            SolcCompiler::AutoDetect => {
                if req_matches(&self.supported_solc_versions, solc_version) {
                    Ok(SolcChoice::FindOrInstall(solc_version.duplicate()))
                } else {
                    let mut m = String::from_str("autodetected `solc` version v");
                    push_str(&mut m, solc_version.to_string().as_str());
                    push_str(&mut m, " is not supported by `resolc` v");
                    push_str(&mut m, self.resolc_version.to_string().as_str());
                    push_str(&mut m, ". Set explicit `solc` version");
                    Err(m)
                }
            },
        }
    }

    /// The solc versions that resolc can drive, out of those given.
    pub fn available_versions(&self, versions: Vec<CompilerVersion>) -> (r: Vec<CompilerVersion>)
        ensures
            r@ == versions@.filter(|c: CompilerVersion| semver_matches(req_view(self.supported_solc_versions), compiler_version_of(c)@)),
    {
        let ghost keep = |c: CompilerVersion| semver_matches(req_view(self.supported_solc_versions), compiler_version_of(c)@);
        let ghost all = versions@;
        let mut out: Vec<CompilerVersion> = Vec::new();
        let mut rest = versions;
        assert(all.skip(0) =~= all);
        assert(all.take(0).filter(keep) =~= Seq::<CompilerVersion>::empty());
        while rest.len() > 0
            invariant
                rest@.len() <= all.len(),
                rest@ == all.skip(all.len() - rest@.len()),
                out@ == all.take(all.len() - rest@.len()).filter(keep),
                keep == (|c: CompilerVersion| semver_matches(req_view(self.supported_solc_versions), compiler_version_of(c)@)),
            decreases rest@.len(),
        {
            let ghost done = all.len() - rest@.len();
            let c = rest.remove(0);
            assert(c == all[done]);
            assert(rest@ =~= all.skip(done + 1));
            assert(all.take(done + 1).drop_last() =~= all.take(done));
            let v = match &c {
                CompilerVersion::Installed(v) => v,
                CompilerVersion::Remote(v) => v,
            };
            let ok = req_matches(&self.supported_solc_versions, v);
            assert(compiler_version_of(c) == *v);
            assert(keep(c) == ok);
            proof {
                all.take(done).lemma_filter_push(c, keep);
            }
            assert(all.take(done).push(c) =~= all.take(done + 1));
            if ok {
                out.push(c);
            }
        }
        assert(all.take(all.len() as int) =~= all);
        out
    }
}

/// The solc versions that resolc reports supporting, when asked
/// (`resolc --supported-solc-versions`): its output, trimmed, read as a
/// version requirement; none where it failed or the text is no requirement.
pub fn supported_solc_versions_from_output(success: bool, stdout: &str) -> (r: Option<VersionReq>)
    ensures
        !success ==> r is None,
        success ==> match crate::version::semver_req(trim(stdout@)) {
            Some(cs) => r matches Some(x) && req_view(x) == cs,
            None => r is None,
        },
{
    if !success {
        return None;
    }
    let v = chars_of(stdout);
    let t = trim_chars(v.as_slice());
    let s = string_from_chars(t.as_slice());
    match crate::version::parse_version_req_text(s.as_str()) {
        Ok(req) => Some(req),
        Err(_) => None,
    }
}

/// Optimizer settings of a resolc input.
#[derive(Clone, Copy, Debug, PartialEq, Eq)]
pub struct ResolcOptimizerInput {
    pub enabled: Option<bool>,
    pub runs: Option<usize>,
    pub mode: Option<char>,
}

impl Default for ResolcOptimizerInput {
    fn default() -> (r: Self)
        ensures
            r.enabled == Some(false),
            r.runs == Some(200usize),
            r.mode is None,
    {
        Self { enabled: Some(false), runs: Some(200), mode: None }
    }
}

} // verus!
