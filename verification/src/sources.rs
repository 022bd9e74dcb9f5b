//! Source files and their contents.

use crate::hashing::{hex_lower, md5_hex, spec_md5};
use crate::order::{lemma_path_order, order_paths, path_lt, Order};
use crate::text::{chars_eq, chars_of, string_push};
use vstd::prelude::*;
use vstd::string::StringSliceAdditionalSpecFns;
use vstd::utf8::encode_utf8;

verus! {

/// Content of a solidity file
///
/// This contains the actual source code of a file
#[derive(Clone, Debug, PartialEq, Eq)]
pub struct Source {
    /// Content of the file
    pub content: String,
}

/// An error while reading a source file: the message and the file's path.
#[derive(Clone, Debug, PartialEq, Eq)]
pub struct SolcIoError {
    pub message: String,
    pub path: String,
}

/// An ordered list of files and their source
pub type Sources = Vec<(String, Source)>;

/// The contents of `s` with every `\r\n` replaced by `\n`.
pub open spec fn normalize_line_endings(s: Seq<char>) -> Seq<char>
    decreases s.len(),
{
    if s.len() == 0 {
        s
    } else if s.len() >= 2 && s[0] == '\r' && s[1] == '\n' {
        seq!['\n'] + normalize_line_endings(s.skip(2))
    } else {
        seq![s[0]] + normalize_line_endings(s.skip(1))
    }
}

/// The map from path to content of an ordered list of sources, later entries
/// replacing earlier ones.
pub open spec fn sources_map(v: Seq<(String, Source)>) -> Map<Seq<char>, Seq<char>>
    decreases v.len(),
{
    if v.len() == 0 {
        Map::empty()
    } else {
        sources_map(v.drop_last()).insert(v.last().0@, v.last().1.content@)
    }
}

/// No path occurs twice.
pub open spec fn distinct_paths(v: Seq<(String, Source)>) -> bool {
    forall|i: int, j: int| 0 <= i < j < v.len() ==> v[i].0@ != v[j].0@
}

/// The sources in path order, as a map ordered by path keeps them: none comes
/// before one that precedes it.
pub open spec fn paths_in_order(v: Seq<(String, Source)>) -> bool {
    forall|i: int, j: int| 0 <= i < j < v.len() ==> !path_lt(#[trigger] v[j].0@, #[trigger] v[i].0@)
}

/// Inserting a source with a path not among them adds it to their map.
proof fn lemma_sources_map_insert(v: Seq<(String, Source)>, q: int, e: (String, Source))
    requires
        0 <= q <= v.len(),
        forall|k: int| 0 <= k < v.len() ==> v[k].0@ != e.0@,
    ensures
        sources_map(v.insert(q, e)) == sources_map(v).insert(e.0@, e.1.content@),
    decreases v.len(),
{
    let w = v.insert(q, e);
    if q == v.len() {
        assert(w.drop_last() =~= v);
    } else {
        assert(w.drop_last() =~= v.drop_last().insert(q, e));
        lemma_sources_map_insert(v.drop_last(), q, e);
        assert(w.last() == v.last());
        assert(v.last().0@ != e.0@);
        assert(sources_map(w) =~= sources_map(v).insert(e.0@, e.1.content@));
    }
}

/// The first error among read results, if any.
pub open spec fn first_error(v: Seq<(String, Result<String, SolcIoError>)>) -> Option<SolcIoError>
    decreases v.len(),
{
    if v.len() == 0 {
        None
    } else {
        match v[0].1 {
            Err(e) => Some(e),
            Ok(_) => first_error(v.drop_first()),
        }
    }
}

/// The map from path to normalized content of read results, later entries
/// replacing earlier ones.
pub open spec fn read_map(v: Seq<(String, Result<String, SolcIoError>)>) -> Map<Seq<char>, Seq<char>>
    decreases v.len(),
{
    if v.len() == 0 {
        Map::empty()
    } else {
        read_map(v.drop_last()).insert(
            v.last().0@,
            match v.last().1 {
                Ok(c) => normalize_line_endings(c@),
                Err(_) => Seq::empty(),
            },
        )
    }
}

/// Replaces every `\r\n` with `\n`.
pub fn normalized(content: &str) -> (r: String)
    ensures
        r@ == normalize_line_endings(content@),
{
    let v = chars_of(content);
    let mut r = String::new();
    let mut i: usize = 0;
    assert(v@.skip(0) =~= v@);
    while i < v.len()
        invariant
            i <= v@.len(),
            normalize_line_endings(v@) == r@ + normalize_line_endings(v@.skip(i as int)),
        decreases v@.len() - i,
    {
        let ghost before = r@;
        let ghost t = v@.skip(i as int);
        if i + 1 < v.len() && v[i] == '\r' && v[i + 1] == '\n' {
            string_push(&mut r, '\n');
            assert(t.skip(2) =~= v@.skip(i + 2));
            assert(before + normalize_line_endings(t) =~= r@ + normalize_line_endings(v@.skip(i + 2)));
            i = i + 2;
        } else {
            string_push(&mut r, v[i]);
            assert(t.skip(1) =~= v@.skip(i + 1));
            assert(t[0] == v@[i as int]);
            assert(before + normalize_line_endings(t) =~= r@ + normalize_line_endings(v@.skip(i + 1)));
            i = i + 1;
        }
    }
    assert(v@.skip(i as int) =~= Seq::<char>::empty());
    assert(r@ + Seq::<char>::empty() =~= r@);
    r
}

fn find_path(v: &Sources, path: &Vec<char>) -> (r: Option<usize>)
    ensures
        match r {
            Some(i) => i < v@.len() && v@[i as int].0@ == path@,
            None => forall|k: int| 0 <= k < v@.len() ==> v@[k].0@ != path@,
        },
{
    let mut i: usize = 0;
    while i < v.len()
        invariant
            i <= v@.len(),
            forall|k: int| 0 <= k < i ==> v@[k].0@ != path@,
        decreases v@.len() - i,
    {
        let p = chars_of(v[i].0.as_str());
        if chars_eq(p.as_slice(), path.as_slice()) {
            return Some(i);
        }
        i = i + 1;
    }
    None
}

proof fn lemma_sources_map_update(v: Seq<(String, Source)>, i: int, e: (String, Source))
    requires
        0 <= i < v.len(),
        distinct_paths(v),
        v[i].0@ == e.0@,
    ensures
        sources_map(v.update(i, e)) == sources_map(v).insert(e.0@, e.1.content@),
        distinct_paths(v.update(i, e)),
    decreases v.len(),
{
    let w = v.update(i, e);
    if i == v.len() - 1 {
        assert(w.drop_last() =~= v.drop_last());
        lemma_sources_map_absent(v.drop_last(), e.0@);
        assert(sources_map(w) =~= sources_map(v).insert(e.0@, e.1.content@));
    } else {
        assert(w.drop_last() =~= v.drop_last().update(i, e));
        lemma_sources_map_update(v.drop_last(), i, e);
        assert(v.last().0@ != e.0@);
        assert(sources_map(w) =~= sources_map(v).insert(e.0@, e.1.content@));
    }
}

proof fn lemma_sources_map_absent(v: Seq<(String, Source)>, k: Seq<char>)
    requires
        forall|j: int| 0 <= j < v.len() ==> v[j].0@ != k,
    ensures
        !sources_map(v).contains_key(k),
    decreases v.len(),
{
    if v.len() > 0 {
        lemma_sources_map_absent(v.drop_last(), k);
    }
}

impl Source {
    /// Creates a new instance of [Source] with the given content.
    pub fn new(content: String) -> (r: Self)
        ensures
            r.content@ == content@,
    {
        Self { content }
    }

    /// A source read from a file: its line endings normalized to `\n`, so that
    /// metadata stays the same across platforms.
    pub fn from_file_contents(content: &str) -> (r: Self)
        ensures
            r.content@ == normalize_line_endings(content@),
    {
        Self { content: normalized(content) }
    }

    /// Generate a non-cryptographically secure checksum of the file's content
    pub fn content_hash(&self) -> (r: String)
        ensures
            r@ == hex_lower(spec_md5(encode_utf8(self.content@))),
    {
        md5_hex(self.content.as_str())
    }

    /// The checksum that [`Source::content_hash`] gives for a source with this content.
    pub fn content_hash_of(src: &str) -> (r: String)
        ensures
            r@ == hex_lower(spec_md5(src.spec_bytes())),
    {
        md5_hex(src)
    }

    /// Collects the results of reading files, in order, into sources: the first
    /// error, or every file with its normalized content (a path read twice keeps
    /// its last content).
    pub fn read_all(files: Vec<(String, Result<String, SolcIoError>)>) -> (r: Result<
        Sources,
        SolcIoError,
    >)
        ensures
            match first_error(files@) {
                Some(e) => r == Err::<Sources, SolcIoError>(e),
                None => r matches Ok(v) && distinct_paths(v@) && paths_in_order(v@) && sources_map(v@) == read_map(
                    files@,
                ),
            },
    {
        let mut out: Sources = Vec::new();
        let mut i: usize = 0;
        let ghost fs = files@;
        assert(fs.skip(0) =~= fs);
        while i < files.len()
            invariant
                i <= fs.len(),
                fs == files@,
                first_error(fs) == first_error(fs.skip(i as int)),
                distinct_paths(out@),
                paths_in_order(out@),
                sources_map(out@) == read_map(fs.take(i as int)),
            decreases fs.len() - i,
        {
            assert(fs.skip(i as int).drop_first() =~= fs.skip(i + 1));
            assert(fs.take(i + 1).drop_last() =~= fs.take(i as int));
            let (path, result) = &files[i];
            match result {
                Err(e) => {
                    return Err(e.clone_error());
                },
                Ok(content) => {
                    let src = Source::from_file_contents(content.as_str());
                    let key = chars_of(path.as_str());
                    let entry = (path.clone(), src);
                    match find_path(&out, &key) {
                        Some(k) => {
                            proof {
                                lemma_sources_map_update(out@, k as int, entry);
                            }
                            out.set(k, entry);
                        },
                        None => {
                            let ghost before = out@;
                            let mut q: usize = 0;
                            while q < out.len() && !(order_paths(path.as_str(), out[q].0.as_str()) == Order::Less)
                                invariant
                                    q <= out@.len(),
                                    out@ == before,
                                    forall|k: int| 0 <= k < q ==> !path_lt(path@, #[trigger] out@[k].0@),
                                decreases out@.len() - q,
                            {
                                q = q + 1;
                            }
                            proof {
                                lemma_sources_map_insert(before, q as int, entry);
                            }
                            out.insert(q, entry);
                            proof {
                                let w = out@;
                                assert(w =~= before.insert(q as int, entry));
                                assert forall|a: int, b: int| 0 <= a < b < w.len() implies !path_lt(#[trigger] w[b].0@, #[trigger] w[a].0@) by {
                                    if b == q {
                                        assert(w[a] == before[a]);
                                    } else if a == q {
                                        assert(w[b] == before[b - 1]);
                                        assert(path_lt(path@, before[q as int].0@));
                                        lemma_path_order(before[b - 1].0@, path@, before[q as int].0@);
                                    } else if b < q {
                                        assert(w[a] == before[a] && w[b] == before[b]);
                                    } else if a < q {
                                        assert(w[a] == before[a] && w[b] == before[b - 1]);
                                    } else {
                                        assert(w[a] == before[a - 1] && w[b] == before[b - 1]);
                                    }
                                }
                                assert forall|a: int, b: int| 0 <= a < b < w.len() implies w[a].0@ != w[b].0@ by {
                                    if b == q {
                                        assert(w[a] == before[a]);
                                    } else if a == q {
                                        assert(w[b] == before[b - 1]);
                                    } else if b < q {
                                        assert(w[a] == before[a] && w[b] == before[b]);
                                    } else if a < q {
                                        assert(w[a] == before[a] && w[b] == before[b - 1]);
                                    } else {
                                        assert(w[a] == before[a - 1] && w[b] == before[b - 1]);
                                    }
                                }
                            }
                        },
                    }
                },
            }
            i = i + 1;
        }
        assert(fs.take(fs.len() as int) =~= fs);
        assert(fs.skip(i as int) =~= Seq::<(String, Result<String, SolcIoError>)>::empty());
        Ok(out)
    }

    /// Same as [`Source::read_all`].
    pub fn read_all_files(files: Vec<(String, Result<String, SolcIoError>)>) -> (r: Result<
        Sources,
        SolcIoError,
    >)
        ensures
            match first_error(files@) {
                Some(e) => r == Err::<Sources, SolcIoError>(e),
                None => r matches Ok(v) && distinct_paths(v@) && paths_in_order(v@) && sources_map(v@) == read_map(
                    files@,
                ),
            },
    {
        Self::read_all(files)
    }
}

impl SolcIoError {
    /// A copy of the error.
    pub fn clone_error(&self) -> (r: Self)
        ensures
            r == *self,
    {
        SolcIoError { message: self.message.clone(), path: self.path.clone() }
    }
}

} // verus!
