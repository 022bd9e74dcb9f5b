//! Filters over sources: which files a compiler run gives full output for.

use crate::order::{lemma_path_order, path_lt};
use crate::paths::{file_name, path_file_name};
use crate::selection::{file_selection_view, flagged_view, keys_in_order, sparse_selection, OutputSelection};
use crate::sources::{Source, Sources};
use crate::text::{chars_end_with, chars_eq, chars_of, ends_with};
use vstd::prelude::*;

verus! {

/// A predicate property that determines whether a file satisfies a certain condition
pub trait FileFilter {
    /// Whether the filter includes `file`, as [`FileFilter::is_match`] tells.
    spec fn spec_is_match(&self, file: Seq<char>) -> bool;

    /// The predicate function that should return if the given `file` should be included.
    fn is_match(&self, file: &str) -> (r: bool)
        ensures
            r == self.spec_is_match(file@),
    ;
}

/// The suffix of solidity test files.
pub open spec fn test_suffix() -> Seq<char> {
    seq!['.', 't', '.', 's', 'o', 'l']
}

/// Whether the file name of a path ends with `.t.sol`.
pub open spec fn is_test_file(path: Seq<char>) -> bool {
    match file_name(path) {
        Some(n) => ends_with(n, test_suffix()),
        None => false,
    }
}

/// A [FileFilter] that matches all solidity files that end with `.t.sol`
#[derive(Clone, Copy, Debug, Default)]
pub struct TestFileFilter {
    _priv: (),
}

impl TestFileFilter {
    /// The filter.
    pub fn new() -> (r: Self)
        ensures
            forall|f: Seq<char>| #[trigger] r.spec_is_match(f) == is_test_file(f),
    {
        TestFileFilter { _priv: () }
    }

    /// Whether the file name of `file` ends with `.t.sol`.
    pub fn matches(&self, file: &str) -> (r: bool)
        ensures
            r == is_test_file(file@),
    {
        match path_file_name(file) {
            Some(n) => {
                let v = chars_of(n.as_str());
                let suffix = vec!['.', 't', '.', 's', 'o', 'l'];
                assert(suffix@ =~= test_suffix());
                chars_end_with(v.as_slice(), suffix.as_slice())
            },
            None => false,
        }
    }

    /// The name of the filter, `TestFileFilter`.
    pub fn to_string(&self) -> (r: String)
        ensures
            r@ == "TestFileFilter"@,
    {
        crate::text::owned("TestFileFilter")
    }
}

impl FileFilter for TestFileFilter {
    open spec fn spec_is_match(&self, file: Seq<char>) -> bool {
        is_test_file(file)
    }

    fn is_match(&self, file: &str) -> (r: bool) {
        self.matches(file)
    }
}

/// Represents the state of a filtered [Source]
#[derive(Clone, Debug, PartialEq, Eq)]
pub enum SourceCompilationKind {
    /// We need a complete compilation output for the source.
    Complete(Source),
    /// A source for which we don't need a complete output and want to optimize its compilation by
    /// reducing output selection.
    Optimized(Source),
}

/// The source that a kind holds.
pub open spec fn kind_source(k: SourceCompilationKind) -> Source {
    match k {
        SourceCompilationKind::Complete(s) => s,
        SourceCompilationKind::Optimized(s) => s,
    }
}

impl SourceCompilationKind {
    /// Returns the underlying source
    pub fn source(&self) -> (r: &Source)
        ensures
            *r == kind_source(*self),
    {
        match self {
            Self::Complete(s) => s,
            Self::Optimized(s) => s,
        }
    }

    /// Consumes the type and returns the underlying source
    pub fn into_source(self) -> (r: Source)
        ensures
            r == kind_source(self),
    {
        match self {
            Self::Complete(s) => s,
            Self::Optimized(s) => s,
        }
    }

    /// Whether this file should be compiled with full output selection
    pub fn is_dirty(&self) -> (r: bool)
        ensures
            r == (*self is Complete),
    {
        matches!(self, Self::Complete(_))
    }

    /// A copy of the kind.
    pub fn duplicate(&self) -> (r: Self)
        ensures
            r == *self,
    {
        match self {
            Self::Complete(s) => Self::Complete(Source { content: s.content.clone() }),
            Self::Optimized(s) => Self::Optimized(Source { content: s.content.clone() }),
        }
    }
}

/// The entries of `v` whose source is dirty, in order.
pub open spec fn dirty_entries(v: Seq<(String, SourceCompilationKind)>) -> Seq<(String, SourceCompilationKind)>
    decreases v.len(),
{
    if v.len() == 0 {
        Seq::empty()
    } else if v.last().1 is Complete {
        dirty_entries(v.drop_last()).push(v.last())
    } else {
        dirty_entries(v.drop_last())
    }
}

/// The entries of `v` whose source is clean, in order.
pub open spec fn clean_entries(v: Seq<(String, SourceCompilationKind)>) -> Seq<(String, SourceCompilationKind)>
    decreases v.len(),
{
    if v.len() == 0 {
        Seq::empty()
    } else if v.last().1 is Optimized {
        clean_entries(v.drop_last()).push(v.last())
    } else {
        clean_entries(v.drop_last())
    }
}

/// The paths of entries.
pub open spec fn entry_paths(v: Seq<(String, SourceCompilationKind)>) -> Seq<Seq<char>> {
    v.map_values(|e: (String, SourceCompilationKind)| e.0@)
}

/// The sources of entries, with their paths.
pub open spec fn entry_sources(v: Seq<(String, SourceCompilationKind)>) -> Seq<(String, Source)> {
    v.map_values(|e: (String, SourceCompilationKind)| (e.0, kind_source(e.1)))
}

/// The entries' paths in strictly ascending path order: the shape of a map
/// ordered by path.
pub open spec fn paths_ascending(v: Seq<(String, SourceCompilationKind)>) -> bool {
    forall|i: int, j: int| 0 <= i < j < v.len() ==> path_lt(#[trigger] v[i].0@, #[trigger] v[j].0@)
}

/// Entries in ascending path order have no path twice.
pub proof fn lemma_ascending_distinct(v: Seq<(String, SourceCompilationKind)>)
    requires
        paths_ascending(v),
    ensures
        distinct_entry_paths(v),
{
    assert forall|i: int, j: int| 0 <= i < j < v.len() implies v[i].0@ != v[j].0@ by {
        lemma_path_order(v[i].0@, v[j].0@, v[j].0@);
    }
}

/// The dirty and the clean entries of entries in ascending path order are in
/// ascending path order, and each is an entry of `v`.
pub proof fn lemma_select_ascending(v: Seq<(String, SourceCompilationKind)>)
    requires
        paths_ascending(v),
    ensures
        paths_ascending(dirty_entries(v)),
        paths_ascending(clean_entries(v)),
        forall|k: int| 0 <= k < dirty_entries(v).len() ==> exists|j: int| 0 <= j < v.len() && #[trigger] dirty_entries(v)[k] == v[j],
        forall|k: int| 0 <= k < clean_entries(v).len() ==> exists|j: int| 0 <= j < v.len() && #[trigger] clean_entries(v)[k] == v[j],
    decreases v.len(),
{
    if v.len() > 0 {
        let w = v.drop_last();
        lemma_select_ascending(w);
        let d = dirty_entries(w);
        let c = clean_entries(w);
        assert forall|k: int| 0 <= k < d.len() implies path_lt(#[trigger] d[k].0@, v.last().0@) by {
            let j = choose|j: int| 0 <= j < w.len() && d[k] == w[j];
            assert(v[j] == w[j]);
        }
        assert forall|k: int| 0 <= k < c.len() implies path_lt(#[trigger] c[k].0@, v.last().0@) by {
            let j = choose|j: int| 0 <= j < w.len() && c[k] == w[j];
            assert(v[j] == w[j]);
        }
        assert forall|k: int| 0 <= k < dirty_entries(v).len() implies exists|j: int| 0 <= j < v.len() && #[trigger] dirty_entries(v)[k] == v[j] by {
            if k < d.len() {
                let j = choose|j: int| 0 <= j < w.len() && d[k] == w[j];
                assert(v[j] == w[j]);
            } else {
                assert(dirty_entries(v)[k] == v[v.len() - 1]);
            }
        }
        assert forall|k: int| 0 <= k < clean_entries(v).len() implies exists|j: int| 0 <= j < v.len() && #[trigger] clean_entries(v)[k] == v[j] by {
            if k < c.len() {
                let j = choose|j: int| 0 <= j < w.len() && c[k] == w[j];
                assert(v[j] == w[j]);
            } else {
                assert(clean_entries(v)[k] == v[v.len() - 1]);
            }
        }
    }
}

/// The dirty and the clean entries split the entries: each dirty entry is to
/// be compiled completely and each clean one optimized, and together there
/// are as many as entries.
pub proof fn lemma_dirty_clean_partition(v: Seq<(String, SourceCompilationKind)>)
    ensures
        dirty_entries(v).len() + clean_entries(v).len() == v.len(),
        forall|k: int| 0 <= k < dirty_entries(v).len() ==> (#[trigger] dirty_entries(v)[k]).1 is Complete,
        forall|k: int| 0 <= k < clean_entries(v).len() ==> (#[trigger] clean_entries(v)[k]).1 is Optimized,
    decreases v.len(),
{
    if v.len() > 0 {
        lemma_dirty_clean_partition(v.drop_last());
    }
}

/// Where the entries are in ascending path order, no path is both dirty and
/// clean.
pub proof fn lemma_dirty_clean_disjoint(v: Seq<(String, SourceCompilationKind)>)
    requires
        paths_ascending(v),
    ensures
        forall|a: int, b: int| 0 <= a < dirty_entries(v).len() && 0 <= b < clean_entries(v).len()
            ==> (#[trigger] dirty_entries(v)[a]).0@ != (#[trigger] clean_entries(v)[b]).0@,
{
    lemma_select_ascending(v);
    lemma_dirty_clean_partition(v);
    lemma_ascending_distinct(v);
    assert forall|a: int, b: int| 0 <= a < dirty_entries(v).len() && 0 <= b < clean_entries(v).len()
        implies (#[trigger] dirty_entries(v)[a]).0@ != (#[trigger] clean_entries(v)[b]).0@ by {
        let i = choose|j: int| 0 <= j < v.len() && dirty_entries(v)[a] == v[j];
        let k = choose|j: int| 0 <= j < v.len() && clean_entries(v)[b] == v[j];
        assert(dirty_entries(v)[a].1 is Complete);
        assert(clean_entries(v)[b].1 is Optimized);
        assert(i != k);
    }
}

/// Container type for a mapping from source path to [SourceCompilationKind]
#[derive(Clone, Debug, PartialEq, Eq)]
pub struct FilteredSources(pub Vec<(String, SourceCompilationKind)>);

impl FilteredSources {
    /// The entries are in ascending path order, each path once, as in a map
    /// ordered by path.
    pub open spec fn wf(&self) -> bool {
        paths_ascending(self.0@)
    }

    pub fn is_empty(&self) -> (r: bool)
        ensures
            r == (self.0@.len() == 0),
    {
        self.0.len() == 0
    }

    pub fn len(&self) -> (r: usize)
        ensures
            r == self.0@.len(),
    {
        self.0.len()
    }

    /// Returns `true` if no sources should have optimized output selection.
    pub fn all_dirty(&self) -> (r: bool)
        ensures
            r == forall|i: int| 0 <= i < self.0@.len() ==> (#[trigger] self.0@[i]).1 is Complete,
    {
        let mut i: usize = 0;
        while i < self.0.len()
            invariant
                i <= self.0@.len(),
                forall|k: int| 0 <= k < i ==> (#[trigger] self.0@[k]).1 is Complete,
            decreases self.0@.len() - i,
        {
            if !self.0[i].1.is_dirty() {
                return false;
            }
            i = i + 1;
        }
        true
    }

    /// Returns all entries that should not be optimized.
    pub fn dirty(&self) -> (r: Vec<(String, SourceCompilationKind)>)
        ensures
            r@ == dirty_entries(self.0@),
            self.wf() ==> paths_ascending(r@),
    {
        proof {
            if self.wf() {
                lemma_select_ascending(self.0@);
            }
        }
        self.select(true)
    }

    /// Returns all entries that should be optimized.
    pub fn clean(&self) -> (r: Vec<(String, SourceCompilationKind)>)
        ensures
            r@ == clean_entries(self.0@),
            self.wf() ==> paths_ascending(r@),
    {
        proof {
            if self.wf() {
                lemma_select_ascending(self.0@);
            }
        }
        self.select(false)
    }

    fn select(&self, dirty: bool) -> (r: Vec<(String, SourceCompilationKind)>)
        ensures
            dirty ==> r@ == dirty_entries(self.0@),
            !dirty ==> r@ == clean_entries(self.0@),
    {
        let mut r: Vec<(String, SourceCompilationKind)> = Vec::new();
        let mut i: usize = 0;
        while i < self.0.len()
            invariant
                i <= self.0@.len(),
                dirty ==> r@ == dirty_entries(self.0@.take(i as int)),
                !dirty ==> r@ == clean_entries(self.0@.take(i as int)),
            decreases self.0@.len() - i,
        {
            assert(self.0@.take(i + 1).drop_last() =~= self.0@.take(i as int));
            let (path, kind) = &self.0[i];
            if kind.is_dirty() == dirty {
                r.push((path.clone(), kind.duplicate()));
            }
            i = i + 1;
        }
        assert(self.0@.take(self.0@.len() as int) =~= self.0@);
        r
    }

    /// Returns all files that should not be optimized.
    pub fn dirty_files(&self) -> (r: Vec<String>)
        ensures
            r@.map_values(|s: String| s@) == entry_paths(dirty_entries(self.0@)),
    {
        let mut r: Vec<String> = Vec::new();
        let mut i: usize = 0;
        while i < self.0.len()
            invariant
                i <= self.0@.len(),
                r@.map_values(|s: String| s@) == entry_paths(dirty_entries(self.0@.take(i as int))),
            decreases self.0@.len() - i,
        {
            assert(self.0@.take(i + 1).drop_last() =~= self.0@.take(i as int));
            let ghost before = r@;
            let (path, kind) = &self.0[i];
            if kind.is_dirty() {
                r.push(path.clone());
                assert(r@.map_values(|s: String| s@) =~= before.map_values(|s: String| s@).push(path@));
                assert(entry_paths(dirty_entries(self.0@.take(i + 1))) =~= entry_paths(
                    dirty_entries(self.0@.take(i as int)),
                ).push(path@));
            }
            i = i + 1;
        }
        assert(self.0@.take(self.0@.len() as int) =~= self.0@);
        r
    }

    /// The sources, each with its path.
    pub fn into_sources(self) -> (r: Sources)
        ensures
            r@ == entry_sources(self.0@),
    {
        let mut r: Sources = Vec::new();
        let mut v = self.0;
        let ghost all = v@;
        let mut i: usize = 0;
        let n = v.len();
        while i < n
            invariant
                n == all.len(),
                i <= n,
                v@.len() == n,
                forall|k: int| i <= k < n ==> #[trigger] v@[k] == all[k],
                r@ == entry_sources(all.take(i as int)),
            decreases n - i,
        {
            assert(all.take(i + 1).drop_last() =~= all.take(i as int));
            let (path, kind) = &v[i];
            let s = kind.source();
            r.push((path.clone(), Source { content: s.content.clone() }));
            assert(entry_sources(all.take(i + 1)) =~= entry_sources(all.take(i as int)).push(
                (all[i as int].0, kind_source(all[i as int].1)),
            ));
            i = i + 1;
        }
        assert(all.take(n as int) =~= all);
        r
    }

    /// Every source, to be compiled completely.
    pub fn from_sources(sources: Sources) -> (r: Self)
        ensures
            r.0@.len() == sources@.len(),
            forall|i: int| 0 <= i < sources@.len() ==> #[trigger] r.0@[i] == (sources@[i].0, SourceCompilationKind::Complete(sources@[i].1)),
            (forall|i: int, j: int| 0 <= i < j < sources@.len() ==> path_lt(#[trigger] sources@[i].0@, #[trigger] sources@[j].0@)) ==> r.wf(),
    {
        let mut r: Vec<(String, SourceCompilationKind)> = Vec::new();
        let mut i: usize = 0;
        while i < sources.len()
            invariant
                i <= sources@.len(),
                r@.len() == i,
                forall|k: int| 0 <= k < i ==> #[trigger] r@[k] == (sources@[k].0, SourceCompilationKind::Complete(sources@[k].1)),
            decreases sources@.len() - i,
        {
            let (path, src) = &sources[i];
            r.push((path.clone(), SourceCompilationKind::Complete(Source { content: src.content.clone() })));
            i = i + 1;
        }
        assert forall|i: int, j: int| 0 <= i < j < r@.len() && path_lt(sources@[i].0@, sources@[j].0@) implies path_lt(#[trigger] r@[i].0@, #[trigger] r@[j].0@) by {
            assert(r@[i].0 == sources@[i].0 && r@[j].0 == sources@[j].0);
        }
        FilteredSources(r)
    }
}


/// No path occurs twice among the entries.
pub open spec fn distinct_entry_paths(v: Seq<(String, SourceCompilationKind)>) -> bool {
    forall|i: int, j: int| 0 <= i < j < v.len() ==> v[i].0@ != v[j].0@
}

/// A node of the import graph, as far as the filter reads it.
#[derive(Clone, Debug, PartialEq, Eq)]
pub struct GraphNode {
    /// The file of the node.
    pub path: String,
    /// The files of the graph that the file imports directly.
    pub imports: Vec<String>,
    /// Whether the file is a solidity source.
    pub is_sol: bool,
    /// Whether the file declares libraries.
    pub has_libraries: bool,
}

/// The first node of the graph for a path.
pub open spec fn find_node(g: Seq<GraphNode>, p: Seq<char>) -> Option<GraphNode>
    decreases g.len(),
{
    if g.len() == 0 {
        None
    } else if g[0].path@ == p {
        Some(g[0])
    } else {
        find_node(g.drop_first(), p)
    }
}

/// Whether importing `p` makes it a compilation dependency: a solidity file
/// with libraries, which must be compiled alongside for linking.
pub open spec fn is_library_node(g: Seq<GraphNode>, p: Seq<char>) -> bool {
    match find_node(g, p) {
        Some(n) => n.is_sol && n.has_libraries,
        None => false,
    }
}

/// Whether `p` is a compilation dependency of `file`: `file` is a solidity
/// source of the graph that imports `p`, a library node.
pub open spec fn is_dependency(g: Seq<GraphNode>, file: Seq<char>, p: Seq<char>) -> bool {
    match find_node(g, file) {
        Some(n) => n.is_sol && (exists|k: int| 0 <= k < n.imports@.len() && #[trigger] n.imports@[k]@ == p) && is_library_node(g, p),
        None => false,
    }
}

/// Whether the source at `p` is dirty.
pub open spec fn is_dirty_path(v: Seq<(String, SourceCompilationKind)>, p: Seq<char>) -> bool {
    exists|k: int| 0 <= k < v.len() && #[trigger] v[k].0@ == p && v[k].1 is Complete
}

/// Whether the dirty entry `i`, matched by the filter, requests `p`: itself
/// or one of its compilation dependencies.
pub open spec fn requests(v: Seq<(String, SourceCompilationKind)>, g: Seq<GraphNode>, matched: Seq<bool>, i: int, p: Seq<char>) -> bool {
    &&& v[i].1 is Complete
    &&& matched[i]
    &&& (v[i].0@ == p || is_dependency(g, v[i].0@, p))
}

/// Whether `p` gets full compilation output: a dirty source that one of the
/// first `n` entries requests.
pub open spec fn in_full_upto(v: Seq<(String, SourceCompilationKind)>, g: Seq<GraphNode>, matched: Seq<bool>, n: int, p: Seq<char>) -> bool {
    is_dirty_path(v, p) && exists|i: int| 0 <= i < n && #[trigger] requests(v, g, matched, i, p)
}

/// Whether `p` gets full compilation output.
pub open spec fn in_full(v: Seq<(String, SourceCompilationKind)>, g: Seq<GraphNode>, matched: Seq<bool>, p: Seq<char>) -> bool {
    in_full_upto(v, g, matched, v.len() as int, p)
}

/// The views of a list of strings.
pub open spec fn string_views(v: Seq<String>) -> Seq<Seq<char>> {
    v.map_values(|s: String| s@)
}

fn find_graph_node(g: &[GraphNode], p: &[char]) -> (r: Option<usize>)
    ensures
        match r {
            Some(i) => i < g@.len() && find_node(g@, p@) == Some(g@[i as int]),
            None => find_node(g@, p@) is None,
        },
{
    let mut i: usize = 0;
    assert(g@.skip(0) =~= g@);
    while i < g.len()
        invariant
            i <= g@.len(),
            find_node(g@, p@) == find_node(g@.skip(i as int), p@),
        decreases g@.len() - i,
    {
        assert(g@.skip(i as int).drop_first() =~= g@.skip(i + 1));
        let q = chars_of(g[i].path.as_str());
        if chars_eq(q.as_slice(), p) {
            return Some(i);
        }
        i = i + 1;
    }
    None
}

fn library_node(g: &[GraphNode], p: &[char]) -> (r: bool)
    ensures
        r == is_library_node(g@, p@),
{
    match find_graph_node(g, p) {
        Some(i) => g[i].is_sol && g[i].has_libraries,
        None => false,
    }
}

fn dirty_path(v: &[(String, SourceCompilationKind)], p: &[char]) -> (r: bool)
    requires
        distinct_entry_paths(v@),
    ensures
        r == is_dirty_path(v@, p@),
{
    let mut i: usize = 0;
    while i < v.len()
        invariant
            i <= v@.len(),
            distinct_entry_paths(v@),
            forall|k: int| 0 <= k < i ==> #[trigger] v@[k].0@ != p@,
        decreases v@.len() - i,
    {
        let q = chars_of(v[i].0.as_str());
        if chars_eq(q.as_slice(), p) {
            let d = v[i].1.is_dirty();
            proof {
                if !d {
                    assert forall|k: int| 0 <= k < v@.len() && #[trigger] v@[k].0@ == p@ implies !(v@[k].1 is Complete) by {
                        if k < i {
                            assert(v@[k].0@ != v@[i as int].0@);
                        } else if k > i {
                            assert(v@[i as int].0@ != v@[k].0@);
                        }
                    }
                }
            }
            return d;
        }
        i = i + 1;
    }
    false
}

fn contains_string(v: &Vec<String>, p: &[char]) -> (r: bool)
    ensures
        r == string_views(v@).contains(p@),
{
    let mut i: usize = 0;
    while i < v.len()
        invariant
            i <= v@.len(),
            forall|k: int| 0 <= k < i ==> #[trigger] v@[k]@ != p@,
        decreases v@.len() - i,
    {
        let q = chars_of(v[i].as_str());
        if chars_eq(q.as_slice(), p) {
            assert(string_views(v@)[i as int] == p@);
            return true;
        }
        i = i + 1;
    }
    proof {
        if string_views(v@).contains(p@) {
            let k = choose|k: int| 0 <= k < v@.len() && #[trigger] string_views(v@)[k] == p@;
            assert(v@[k]@ == p@);
        }
    }
    false
}


/// `rv` holds exactly the paths that the first `n` entries send to full compilation.
pub open spec fn holds_full_upto(rv: Seq<Seq<char>>, v: Seq<(String, SourceCompilationKind)>, g: Seq<GraphNode>, m: Seq<bool>, n: int) -> bool {
    forall|p: Seq<char>|
        #![trigger rv.contains(p)]
        #![trigger in_full_upto(v, g, m, n, p)]
        rv.contains(p) <==> in_full_upto(v, g, m, n, p)
}

/// `rv` holds the paths of the first `i` entries, entry `i` itself when dirty,
/// and the first `k` of `imports` that are dirty library nodes.
spec fn holds_partial(rv: Seq<Seq<char>>, v: Seq<(String, SourceCompilationKind)>, g: Seq<GraphNode>, m: Seq<bool>, i: int, imports: Seq<Seq<char>>, k: int) -> bool {
    forall|p: Seq<char>|
        #![trigger rv.contains(p)]
        rv.contains(p) <==> (in_full_upto(v, g, m, i, p) || (is_dirty_path(v, p) && (p == v[i].0@ || (imports.take(k).contains(p) && is_library_node(g, p)))))
}

proof fn lemma_in_full_step(v: Seq<(String, SourceCompilationKind)>, g: Seq<GraphNode>, m: Seq<bool>, i: int, p: Seq<char>)
    requires
        0 <= i < v.len(),
    ensures
        in_full_upto(v, g, m, i + 1, p) == (in_full_upto(v, g, m, i, p) || (is_dirty_path(v, p) && requests(v, g, m, i, p))),
{
    if in_full_upto(v, g, m, i + 1, p) {
        let j = choose|j: int| 0 <= j < i + 1 && #[trigger] requests(v, g, m, j, p);
        if j < i {
            assert(in_full_upto(v, g, m, i, p));
        }
    }
    if in_full_upto(v, g, m, i, p) {
        let j = choose|j: int| 0 <= j < i && #[trigger] requests(v, g, m, j, p);
        assert(0 <= j < i + 1 && requests(v, g, m, j, p));
    }
    if is_dirty_path(v, p) && requests(v, g, m, i, p) {
        assert(0 <= i < i + 1 && requests(v, g, m, i, p));
    }
}

proof fn lemma_partial_step(before: Seq<Seq<char>>, after: Seq<Seq<char>>, v: Seq<(String, SourceCompilationKind)>, g: Seq<GraphNode>, m: Seq<bool>, i: int, imports: Seq<Seq<char>>, k: int, pushed: bool)
    requires
        0 <= k < imports.len(),
        holds_partial(before, v, g, m, i, imports, k),
        pushed == (is_library_node(g, imports[k]) && is_dirty_path(v, imports[k])),
        pushed ==> forall|p: Seq<char>| #[trigger] after.contains(p) <==> (before.contains(p) || p == imports[k]),
        !pushed ==> after == before,
    ensures
        holds_partial(after, v, g, m, i, imports, k + 1),
{
    let t0 = imports.take(k);
    let t1 = imports.take(k + 1);
    assert(t1 =~= t0.push(imports[k]));
    assert forall|p: Seq<char>| #[trigger] after.contains(p) <==> (in_full_upto(v, g, m, i, p) || (is_dirty_path(v, p) && (p == v[i].0@ || (t1.contains(p) && is_library_node(g, p))))) by {
        assert(before.contains(p) <==> (in_full_upto(v, g, m, i, p) || (is_dirty_path(v, p) && (p == v[i].0@ || (t0.contains(p) && is_library_node(g, p))))));
        if t1.contains(p) && !t0.contains(p) {
            let j = choose|j: int| 0 <= j < t1.len() && #[trigger] t1[j] == p;
            if j < k {
                assert(t0[j] == p);
            }
            assert(p == imports[k]);
        }
        if t0.contains(p) {
            let j = choose|j: int| 0 <= j < t0.len() && #[trigger] t0[j] == p;
            assert(t1[j] == p);
        }
        if p == imports[k] {
            assert(t1[k] == p);
        }
    }
}

fn push_new(r: &mut Vec<String>, s: &String)
    requires
        string_views(old(r)@).no_duplicates(),
    ensures
        string_views(final(r)@).no_duplicates(),
        forall|p: Seq<char>| #[trigger] string_views(final(r)@).contains(p) <==> (string_views(old(r)@).contains(p) || p == s@),
{
    let q = chars_of(s.as_str());
    if !contains_string(r, q.as_slice()) {
        let ghost before = string_views(r@);
        r.push(s.clone());
        assert(string_views(r@) =~= before.push(s@));
        assert forall|p: Seq<char>| #[trigger] string_views(r@).contains(p) <==> (before.contains(p) || p == s@) by {
            if string_views(r@).contains(p) {
                let k = choose|k: int| 0 <= k < string_views(r@).len() && string_views(r@)[k] == p;
                if k < before.len() {
                    assert(before[k] == p);
                }
            }
            if before.contains(p) {
                let k = choose|k: int| 0 <= k < before.len() && before[k] == p;
                assert(string_views(r@)[k] == p);
            }
            if p == s@ {
                assert(string_views(r@)[before.len() as int] == p);
            }
        }
    }
}

/// The files that get full compilation output: each dirty source that a dirty
/// entry matched by the filter requests (itself, and the libraries it imports
/// when it is a solidity source), once.
pub fn full_compilation(sources: &FilteredSources, graph: &[GraphNode], matched: &[bool]) -> (r: Vec<String>)
    requires
        distinct_entry_paths(sources.0@),
        matched@.len() == sources.0@.len(),
    ensures
        holds_full_upto(string_views(r@), sources.0@, graph@, matched@, sources.0@.len() as int),
        string_views(r@).no_duplicates(),
{
    let v = &sources.0;
    let mut r: Vec<String> = Vec::new();
    let mut i: usize = 0;
    assert(holds_full_upto(string_views(r@), v@, graph@, matched@, 0));
    while i < v.len()
        invariant
            i <= v@.len(),
            matched@.len() == v@.len(),
            distinct_entry_paths(v@),
            holds_full_upto(string_views(r@), v@, graph@, matched@, i as int),
            string_views(r@).no_duplicates(),
        decreases v@.len() - i,
    {
        if v[i].1.is_dirty() && matched[i] {
            let ghost base = string_views(r@);
            let path = chars_of(v[i].0.as_str());
            assert(v@[i as int].0@ == v@[i as int].0@ && v@[i as int].1 is Complete);
            assert(is_dirty_path(v@, v@[i as int].0@));
            push_new(&mut r, &v[i].0);
            let ghost empty_imports: Seq<Seq<char>> = Seq::empty();
            assert(holds_partial(string_views(r@), v@, graph@, matched@, i as int, empty_imports, 0));
            match find_graph_node(graph, path.as_slice()) {
                Some(n) => {
                    if graph[n].is_sol {
                        let imports = &graph[n].imports;
                        let mut k: usize = 0;
                        assert(holds_partial(string_views(r@), v@, graph@, matched@, i as int, string_views(imports@), 0));
                        while k < imports.len()
                            invariant
                                i < v@.len(),
                                k <= imports@.len(),
                                distinct_entry_paths(v@),
                                holds_partial(string_views(r@), v@, graph@, matched@, i as int, string_views(imports@), k as int),
                                string_views(r@).no_duplicates(),
                            decreases imports@.len() - k,
                        {
                            let ghost before = string_views(r@);
                            let q = chars_of(imports[k].as_str());
                            let pushed = library_node(graph, q.as_slice()) && dirty_path(v.as_slice(), q.as_slice());
                            if pushed {
                                push_new(&mut r, &imports[k]);
                            }
                            proof {
                                lemma_partial_step(before, string_views(r@), v@, graph@, matched@, i as int, string_views(imports@), k as int, pushed);
                            }
                            k = k + 1;
                        }
                        assert(string_views(imports@).take(imports@.len() as int) =~= string_views(imports@));
                        assert forall|p: Seq<char>| #[trigger] string_views(r@).contains(p) <==> in_full_upto(v@, graph@, matched@, i + 1, p) by {
                            lemma_in_full_step(v@, graph@, matched@, i as int, p);
                            if string_views(imports@).contains(p) {
                                let j = choose|j: int| 0 <= j < imports@.len() && #[trigger] string_views(imports@)[j] == p;
                                assert(imports@[j]@ == p);
                            }
                            if exists|j: int| 0 <= j < imports@.len() && #[trigger] imports@[j]@ == p {
                                let j = choose|j: int| 0 <= j < imports@.len() && #[trigger] imports@[j]@ == p;
                                assert(string_views(imports@)[j] == p);
                            }
                        }
                    } else {
                        assert forall|p: Seq<char>| #[trigger] string_views(r@).contains(p) <==> in_full_upto(v@, graph@, matched@, i + 1, p) by {
                            lemma_in_full_step(v@, graph@, matched@, i as int, p);
                        }
                    }
                },
                None => {
                    assert forall|p: Seq<char>| #[trigger] string_views(r@).contains(p) <==> in_full_upto(v@, graph@, matched@, i + 1, p) by {
                        lemma_in_full_step(v@, graph@, matched@, i as int, p);
                    }
                },
            }
        } else {
            assert forall|p: Seq<char>| #[trigger] string_views(r@).contains(p) <==> in_full_upto(v@, graph@, matched@, i + 1, p) by {
                lemma_in_full_step(v@, graph@, matched@, i as int, p);
            }
        }
        i = i + 1;
    }
    r
}


/// Every entry matched.
pub open spec fn all_matched(n: int) -> Seq<bool> {
    Seq::new(n as nat, |i: int| true)
}

/// A type that can apply a filter to a set of preprocessed [FilteredSources] in order to set sparse
/// output for specific files
pub enum SparseOutputFilter<'a> {
    /// Sets the configured output selection for dirty files only.
    ///
    /// In other words, we request the output of solc only for files that have been detected as
    /// _dirty_.
    Optimized,
    /// Apply an additional filter to [FilteredSources] to
    Custom(&'a dyn FileFilter),
}

impl<'a> Default for SparseOutputFilter<'a> {
    fn default() -> (r: Self)
        ensures
            r is Optimized,
    {
        SparseOutputFilter::Optimized
    }
}

impl<'a> SparseOutputFilter<'a> {
    /// The kind of the filter as text: `Optimized` or `Custom`.
    pub fn kind_name(&self) -> (r: String)
        ensures
            r@ == (if *self is Optimized { "Optimized"@ } else { "Custom"@ }),
    {
        match self {
            SparseOutputFilter::Optimized => crate::text::owned("Optimized"),
            SparseOutputFilter::Custom(_) => crate::text::owned("Custom"),
        }
    }

    pub fn new(filter: Option<&'a dyn FileFilter>) -> (r: Self)
        ensures
            filter is None <==> r is Optimized,
            filter matches Some(f) ==> r == SparseOutputFilter::Custom(f),
    {
        if let Some(f) = filter {
            SparseOutputFilter::Custom(f)
        } else {
            SparseOutputFilter::Optimized
        }
    }

    /// Whether the filter matches each entry: every entry for the optimized
    /// filter; for a custom one, each clean entry (it requests nothing) and each
    /// dirty entry whose path the filter includes.
    pub open spec fn flags(&self, v: Seq<(String, SourceCompilationKind)>) -> Seq<bool> {
        match *self {
            SparseOutputFilter::Optimized => all_matched(v.len() as int),
            SparseOutputFilter::Custom(f) => Seq::new(
                v.len(),
                |i: int| !(v[i].1 is Complete) || f.spec_is_match(v[i].0@),
            ),
        }
    }

    /// Whether the filter matches each entry.
    fn match_flags(&self, v: &[(String, SourceCompilationKind)]) -> (m: Vec<bool>)
        ensures
            m@ == self.flags(v@),
    {
        let mut m: Vec<bool> = Vec::new();
        let mut i: usize = 0;
        while i < v.len()
            invariant
                i <= v@.len(),
                m@.len() == i,
                forall|k: int| 0 <= k < i ==> #[trigger] m@[k] == self.flags(v@)[k],
            decreases v@.len() - i,
        {
            let b = match self {
                SparseOutputFilter::Optimized => true,
                SparseOutputFilter::Custom(f) => !v[i].1.is_dirty() || f.is_match(v[i].0.as_str()),
            };
            m.push(b);
            i = i + 1;
        }
        assert(m@ =~= self.flags(v@));
        m
    }

    /// While solc needs all the files to compile the actual _dirty_ files, we can tell solc to
    /// output everything for those dirty files as currently configured in the settings, but output
    /// nothing for the other files that are _not_ dirty.
    ///
    /// Returns the sources and the files that get full output: the dirty files that the filter
    /// matches, with the libraries they import (which must be linked), as far as those are
    /// dirty too. Clean sources are read from the cache. The output selection is made sparse:
    /// its `*` entry is taken out, each source that gets full output gets what that entry asked
    /// for (or `default_file` where there was none), every other source `empty_file`.
    pub fn sparse_sources(
        &self,
        sources: FilteredSources,
        selection: &mut OutputSelection,
        default_file: &Vec<(String, Vec<String>)>,
        empty_file: &Vec<(String, Vec<String>)>,
        graph: &[GraphNode],
    ) -> (r: (Sources, Vec<String>))
        requires
            distinct_entry_paths(sources.0@),
            keys_in_order(old(selection)@),
        ensures
            r.0@ == entry_sources(sources.0@),
            string_views(r.1@).no_duplicates(),
            holds_full_upto(string_views(r.1@), sources.0@, graph@, self.flags(sources.0@), sources.0@.len() as int),
            final(selection)@ == sparse_selection(
                old(selection)@,
                full_flags(sources.0@, string_views(r.1@)),
                file_selection_view(default_file@),
                file_selection_view(empty_file@),
            ),
            keys_in_order(final(selection)@),
    {
        let matched = self.match_flags(sources.0.as_slice());
        let full = full_compilation(&sources, graph, matched.as_slice());
        let flags = output_selection(&sources, &full);
        assert(flagged_view(flags@) =~= full_flags(sources.0@, string_views(full@)));
        selection.make_sparse(&flags, default_file, empty_file);
        (sources.into_sources(), full)
    }
}

/// Each source's path, with whether it is among `full`.
pub open spec fn full_flags(v: Seq<(String, SourceCompilationKind)>, full: Seq<Seq<char>>) -> Seq<(Seq<char>, bool)> {
    Seq::new(v.len(), |i: int| (v[i].0@, full.contains(v[i].0@)))
}

/// For each source, in order, whether it gets full output (it is among `full`)
/// or none.
pub fn output_selection(sources: &FilteredSources, full: &Vec<String>) -> (r: Vec<(String, bool)>)
    ensures
        r@.len() == sources.0@.len(),
        forall|i: int| 0 <= i < r@.len() ==> (#[trigger] r@[i]).0 == sources.0@[i].0 && r@[i].1 == string_views(full@).contains(sources.0@[i].0@),
{
    let mut r: Vec<(String, bool)> = Vec::new();
    let mut i: usize = 0;
    while i < sources.0.len()
        invariant
            i <= sources.0@.len(),
            r@.len() == i,
            forall|k: int| 0 <= k < i ==> (#[trigger] r@[k]).0 == sources.0@[k].0 && r@[k].1 == string_views(full@).contains(sources.0@[k].0@),
        decreases sources.0@.len() - i,
    {
        let q = chars_of(sources.0[i].0.as_str());
        let b = contains_string(full, q.as_slice());
        r.push((sources.0[i].0.clone(), b));
        i = i + 1;
    }
    r
}

/// With the optimized filter, every dirty source gets full output: a dirty
/// file always requests itself.
pub proof fn lemma_optimized_keeps_dirty(v: Seq<(String, SourceCompilationKind)>, g: Seq<GraphNode>, i: int)
    requires
        0 <= i < v.len(),
        v[i].1 is Complete,
    ensures
        in_full(v, g, all_matched(v.len() as int), v[i].0@),
{
    let m = all_matched(v.len() as int);
    assert(v[i].0@ == v[i].0@ && v[i].1 is Complete);
    assert(is_dirty_path(v, v[i].0@));
    assert(requests(v, g, m, i, v[i].0@));
}

/// Only dirty sources get full output, whatever the filter matched.
pub proof fn lemma_full_only_dirty(v: Seq<(String, SourceCompilationKind)>, g: Seq<GraphNode>, m: Seq<bool>, p: Seq<char>)
    requires
        in_full(v, g, m, p),
    ensures
        exists|k: int| 0 <= k < v.len() && v[k].0@ == p && v[k].1 is Complete,
{
}

} // verus!
