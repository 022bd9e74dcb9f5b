//! Where contract artifacts are written, and the identifiers of artifacts.

use crate::order::{lemma_path_order, order_paths, path_lt, Order};
use crate::paths::{
    components, path_components, dot, dot_dot, file_name, file_stem, join, lemma_file_name_of_join, name_stem, path_file_name,
    path_file_stem, path_join,
};
use crate::text::{dec, last_index_of, lemma_last_index_of, owned, push_decimal, push_str, string_push};
use crate::version::{version_display, Version, VersionView};
use vstd::prelude::*;

verus! {

/// `.json`
pub open spec fn json_suffix() -> Seq<char> {
    seq!['.', 'j', 's', 'o', 'n']
}

/// The file name of a contract's artifact: `<name>.json`.
pub open spec fn spec_output_file_name(name: Seq<char>) -> Seq<char> {
    name + json_suffix()
}

/// The file name of a contract's artifact for a compiler version:
/// `<name>.<major>.<minor>.<patch>.json`.
pub open spec fn spec_output_file_name_versioned(name: Seq<char>, v: Version) -> Seq<char> {
    name + seq!['.'] + dec(v.major as nat) + seq!['.'] + dec(v.minor as nat) + seq!['.'] + dec(
        v.patch as nat,
    ) + json_suffix()
}

/// The artifact path for a contract: inside a directory named after the
/// contract's file, or at the top when the file has no name.
pub open spec fn spec_output_file(contract_file: Seq<char>, artifact: Seq<char>) -> Seq<char> {
    match file_name(contract_file) {
        Some(f) => path_join(f, artifact),
        None => artifact,
    }
}

/// Returns the file name for the contract's artifact
/// `Greeter.json`
pub fn output_file_name(name: &str) -> (r: String)
    ensures
        r@ == spec_output_file_name(name@),
{
    let mut s = owned(name);
    push_str(&mut s, ".json");
    proof {
        reveal_strlit(".json");
    }
    assert(s@ =~= spec_output_file_name(name@));
    s
}

/// Returns the file name for the contract's artifact and the given version
/// `Greeter.0.8.11.json`
pub fn output_file_name_versioned(name: &str, version: &Version) -> (r: String)
    ensures
        r@ == spec_output_file_name_versioned(name@, *version),
{
    let mut s = owned(name);
    string_push(&mut s, '.');
    push_decimal(&mut s, version.major);
    string_push(&mut s, '.');
    push_decimal(&mut s, version.minor);
    string_push(&mut s, '.');
    push_decimal(&mut s, version.patch);
    push_str(&mut s, ".json");
    proof {
        reveal_strlit(".json");
    }
    assert(s@ =~= spec_output_file_name_versioned(name@, *version));
    s
}

/// Returns the path to the contract's artifact location based on the contract's file and name
///
/// This returns `contract.sol/contract.json` by default
pub fn output_file(contract_file: &str, name: &str) -> (r: String)
    ensures
        r@ == spec_output_file(contract_file@, spec_output_file_name(name@)),
{
    let artifact = output_file_name(name);
    match path_file_name(contract_file) {
        Some(f) => join(f.as_str(), artifact.as_str()),
        None => artifact,
    }
}

/// Returns the path to the contract's artifact location based on the contract's file, name and
/// version
///
/// This returns `contract.sol/contract.0.8.11.json` by default
pub fn output_file_versioned(contract_file: &str, name: &str, version: &Version) -> (r: String)
    ensures
        r@ == spec_output_file(contract_file@, spec_output_file_name_versioned(name@, *version)),
{
    let artifact = output_file_name_versioned(name, version);
    match path_file_name(contract_file) {
        Some(f) => join(f.as_str(), artifact.as_str()),
        None => artifact,
    }
}

/// The name of the contract whose artifact is `file`: the stem of its file name.
pub fn contract_name(file: &str) -> (r: Option<String>)
    ensures
        match file_stem(file@) {
            Some(n) => r matches Some(x) && x@ == n,
            None => r is None,
        },
{
    path_file_stem(file)
}

/// The stem of `<name>.json` is the name.
proof fn lemma_stem_of_output_file_name(name: Seq<char>)
    requires
        name.len() > 0,
    ensures
        name_stem(spec_output_file_name(name)) == name,
{
    let n = spec_output_file_name(name);
    let k = name.len() as int;
    assert(n[k] == '.');
    assert(n[k + 1] == 'j' && n[k + 2] == 's' && n[k + 3] == 'o' && n[k + 4] == 'n');
    lemma_last_index_of(n, '.');
    match last_index_of(n, '.') {
        Some(i) => {
            if i < k {
                assert(n[k] != '.');
            }
            assert(i == k);
            assert(n.subrange(0, k) =~= name);
        },
        None => {
            assert(n[k] != '.');
        },
    }
}

/// Reading the contract name back from the artifact path of a contract gives
/// the contract's name, for a name that is not empty and holds no `/`.
pub proof fn lemma_contract_name_of_output_file(contract_file: Seq<char>, name: Seq<char>)
    requires
        name.len() > 0,
        !name.contains('/'),
    ensures
        file_stem(spec_output_file(contract_file, spec_output_file_name(name))) == Some(name),
{
    let a = spec_output_file_name(name);
    assert(!a.contains('/')) by {
        if a.contains('/') {
            let k = choose|k: int| 0 <= k < a.len() && a[k] == '/';
            if k < name.len() {
                assert(name[k] == '/');
            }
        }
    }
    assert(a.len() > 2);
    assert(a != dot() && a != dot_dot()) by {
        assert(dot().len() == 1 && dot_dot().len() == 2);
    }
    match file_name(contract_file) {
        Some(f) => lemma_file_name_of_join(f, a),
        None => lemma_file_name_of_join(Seq::empty(), a),
    }
    assert(path_join(Seq::<char>::empty(), a) =~= a);
    lemma_stem_of_output_file_name(name);
}

/// The number of components of a path.
pub open spec fn depth(p: Seq<char>) -> nat {
    components(p).len()
}

/// Whether `a` comes before `b` among files written out: fewer components
/// first, then in path order.
pub open spec fn shallower_first(a: Seq<char>, b: Seq<char>) -> bool {
    depth(a) < depth(b) || (depth(a) == depth(b) && path_lt(a, b))
}

/// The files in the order in which their artifacts are written: none comes
/// after one that it should come before.
pub open spec fn in_depth_order(v: Seq<String>) -> bool {
    forall|i: int, j: int| 0 <= i < j < v.len() ==> !shallower_first(#[trigger] v[j]@, #[trigger] v[i]@)
}

proof fn lemma_shallower_first_order(a: Seq<char>, b: Seq<char>, c: Seq<char>)
    ensures
        shallower_first(a, b) && shallower_first(b, c) ==> shallower_first(a, c),
        shallower_first(a, b) ==> !shallower_first(b, a),
{
    lemma_path_order(a, b, c);
    lemma_path_order(b, a, c);
}

/// Whether `a` comes before `b`.
fn comes_first(a: &str, b: &str) -> (r: bool)
    ensures
        r == shallower_first(a@, b@),
{
    let da = path_components(a).len();
    let db = path_components(b).len();
    if da != db {
        da < db
    } else {
        match order_paths(a, b) {
            Order::Less => true,
            _ => false,
        }
    }
}

/// The files ordered so that the top-most come first, to give them the
/// shortest artifact paths: by their number of components, then by path.
pub fn files_by_depth(files: &[String]) -> (r: Vec<String>)
    ensures
        in_depth_order(r@),
        r@.to_multiset() == files@.to_multiset(),
{
    let mut r: Vec<String> = Vec::new();
    let mut i: usize = 0;
    assert(files@.take(0) =~= r@);
    while i < files.len()
        invariant
            i <= files@.len(),
            in_depth_order(r@),
            r@.to_multiset() == files@.take(i as int).to_multiset(),
        decreases files@.len() - i,
    {
        let x = &files[i];
        let mut pos: usize = 0;
        while pos < r.len() && !comes_first(x.as_str(), r[pos].as_str())
            invariant
                pos <= r@.len(),
                forall|k: int| 0 <= k < pos ==> !shallower_first(x@, #[trigger] r@[k]@),
            decreases r@.len() - pos,
        {
            pos = pos + 1;
        }
        let ghost before = r@;
        r.insert(pos, x.clone());
        proof {
            assert forall|a: int, b: int| 0 <= a < b < r@.len() implies !shallower_first(#[trigger] r@[b]@, #[trigger] r@[a]@) by {
                if a < pos && b == pos {
                } else if a < pos && b > pos {
                    assert(r@[b] == before[b - 1] && r@[a] == before[a]);
                } else if a == pos {
                    assert(r@[b] == before[b - 1]);
                    if pos < before.len() {
                        assert(shallower_first(x@, before[pos as int]@));
                        lemma_shallower_first_order(before[b - 1]@, x@, before[pos as int]@);
                        if b - 1 > pos {
                            assert(!shallower_first(before[b - 1]@, before[pos as int]@));
                        }
                    }
                } else if b < pos {
                    assert(r@[b] == before[b] && r@[a] == before[a]);
                } else {
                    assert(r@[b] == before[b - 1] && r@[a] == before[a - 1]);
                }
            }
            assert(files@.take(i + 1) =~= files@.take(i as int).push(files@[i as int]));
            vstd::seq_lib::to_multiset_build(files@.take(i as int), files@[i as int]);
            vstd::seq_lib::to_multiset_insert(before, pos as int, files@[i as int]);
        }
        i = i + 1;
    }
    assert(files@.take(files@.len() as int) =~= files@);
    r
}

/// Identifies an artifact: its file, contract name, source file and compiler run.
#[derive(Clone, Debug, PartialEq, Eq)]
pub struct ArtifactId {
    /// The artifact file.
    pub path: String,
    /// The contract name.
    pub name: String,
    /// The source file the contract comes from.
    pub source: String,
    /// The compiler version.
    pub version: Version,
    /// The identifier of the build that produced the artifact.
    pub build_id: String,
}

/// A function that resolc compiles as recursive, with its block tags and
/// argument counts.
#[derive(Clone, Debug, PartialEq, Eq)]
pub struct RecursiveFunction {
    /// The function name.
    pub name: String,
    /// The creation code function block tag.
    pub creation_tag: Option<usize>,
    /// The runtime code function block tag.
    pub runtime_tag: Option<usize>,
    /// The number of input arguments.
    pub input_size: usize,
    /// The number of output arguments.
    pub output_size: usize,
}

/// Per-test inline configuration overrides.
#[derive(Clone, Debug, Default)]
pub struct InlineConfigEntries {
    /// The list of parsed inline config entries.
    pub entries: Vec<InlineConfigEntry>,
}

/// A single inline configuration override for a specific contract or function.
#[derive(Clone, Debug)]
pub struct InlineConfigEntry {
    /// The source file path (relative to project root).
    pub source: String,
    /// The contract identifier, in the form `path:ContractName`.
    pub contract: String,
    /// The function name, if this is a function-level override.
    pub function: Option<String>,
    /// The location in source (for error reporting), e.g. `"10:5"`.
    pub line: String,
    /// Raw configuration text, one config line each.
    pub config_values: Vec<String>,
}


/// An artifact written to a file, with the compiler run that produced it.
#[derive(Clone, Debug)]
pub struct ArtifactFile<T> {
    /// The artifact.
    pub artifact: T,
    /// The file it is written to.
    pub file: String,
    /// The compiler version.
    pub version: Version,
    /// The identifier of the build that produced it.
    pub build_id: String,
}

/// Artifacts by source file and contract name, each name with the artifacts
/// of its compiler runs.
pub struct Artifacts<T>(pub Vec<(String, Vec<(String, Vec<ArtifactFile<T>>)>)>);

/// The artifacts of one name whose files have a stem, each with its source.
pub open spec fn named_in_runs<T>(source: Seq<char>, runs: Seq<ArtifactFile<T>>) -> Seq<(Seq<char>, ArtifactFile<T>)>
    decreases runs.len(),
{
    if runs.len() == 0 {
        Seq::empty()
    } else {
        let before = named_in_runs(source, runs.drop_last());
        if file_stem(runs.last().file@) is Some {
            before.push((source, runs.last()))
        } else {
            before
        }
    }
}

/// The artifacts of one source file whose files have a stem, names in order.
pub open spec fn named_in_names<T>(source: Seq<char>, names: Seq<(String, Vec<ArtifactFile<T>>)>) -> Seq<(Seq<char>, ArtifactFile<T>)>
    decreases names.len(),
{
    if names.len() == 0 {
        Seq::empty()
    } else {
        named_in_names(source, names.drop_last()) + named_in_runs(source, names.last().1@)
    }
}

/// All artifacts whose files have a stem, each with its source file, in
/// order.
pub open spec fn named_artifacts<T>(files: Seq<(String, Vec<(String, Vec<ArtifactFile<T>>)>)>) -> Seq<(Seq<char>, ArtifactFile<T>)>
    decreases files.len(),
{
    if files.len() == 0 {
        Seq::empty()
    } else {
        named_artifacts(files.drop_last()) + named_in_names(files.last().0@, files.last().1@)
    }
}

/// Whether `id` identifies the artifact `a` of `source`: its file, the stem of
/// that file as the contract name, the source, the version and the build.
pub open spec fn identifies<T>(id: ArtifactId, source: Seq<char>, a: ArtifactFile<T>) -> bool {
    &&& id.path@ == a.file@
    &&& file_stem(a.file@) == Some(id.name@)
    &&& id.source@ == source
    &&& id.version == a.version
    &&& id.build_id@ == a.build_id@
}

/// The id of an artifact of `source`, where its file has a stem.
fn artifact_id(source: &String, file: &String, version: &Version, build_id: &String) -> (r: Option<ArtifactId>)
    ensures
        match file_stem(file@) {
            Some(n) => r matches Some(id) && id.path@ == file@ && id.name@ == n && id.source@ == source@ && id.version == *version && id.build_id@ == build_id@,
            None => r is None,
        },
{
    match contract_name(file.as_str()) {
        Some(name) => Some(ArtifactId {
            path: file.clone(),
            name,
            source: source.clone(),
            version: version.duplicate(),
            build_id: build_id.clone(),
        }),
        None => None,
    }
}

/// All artifacts with their ids, in order; an artifact whose file has no stem
/// to name its contract is left out.
pub fn artifacts_artifacts<T>(artifacts: &Artifacts<T>) -> (r: Vec<(ArtifactId, &T)>)
    ensures
        r@.len() == named_artifacts(artifacts.0@).len(),
        forall|k: int| 0 <= k < r@.len() ==> {
            &&& identifies((#[trigger] r@[k]).0, named_artifacts(artifacts.0@)[k].0, named_artifacts(artifacts.0@)[k].1)
            &&& *r@[k].1 == named_artifacts(artifacts.0@)[k].1.artifact
        },
{
    let files = &artifacts.0;
    let mut r: Vec<(ArtifactId, &T)> = Vec::new();
    let mut i: usize = 0;
    while i < files.len()
        invariant
            i <= files@.len(),
            r@.len() == named_artifacts(files@.take(i as int)).len(),
            forall|k: int| 0 <= k < r@.len() ==> {
                &&& identifies((#[trigger] r@[k]).0, named_artifacts(files@.take(i as int))[k].0, named_artifacts(files@.take(i as int))[k].1)
                &&& *r@[k].1 == named_artifacts(files@.take(i as int))[k].1.artifact
            },
        decreases files@.len() - i,
    {
        let source = &files[i].0;
        let names = &files[i].1;
        let ghost before = named_artifacts(files@.take(i as int));
        let mut j: usize = 0;
        while j < names.len()
            invariant
                i < files@.len(),
                *source == files@[i as int].0,
                *names == files@[i as int].1,
                j <= names@.len(),
                r@.len() == (before + named_in_names(source@, names@.take(j as int))).len(),
                forall|k: int| 0 <= k < r@.len() ==> {
                    &&& identifies((#[trigger] r@[k]).0, (before + named_in_names(source@, names@.take(j as int)))[k].0, (before + named_in_names(source@, names@.take(j as int)))[k].1)
                    &&& *r@[k].1 == (before + named_in_names(source@, names@.take(j as int)))[k].1.artifact
                },
            decreases names@.len() - j,
        {
            let runs = &names[j].1;
            let ghost mid = before + named_in_names(source@, names@.take(j as int));
            let mut m: usize = 0;
            while m < runs.len()
                invariant
                    j < names@.len(),
                    *runs == names@[j as int].1,
                    m <= runs@.len(),
                    r@.len() == (mid + named_in_runs(source@, runs@.take(m as int))).len(),
                    forall|k: int| 0 <= k < r@.len() ==> {
                        &&& identifies((#[trigger] r@[k]).0, (mid + named_in_runs(source@, runs@.take(m as int)))[k].0, (mid + named_in_runs(source@, runs@.take(m as int)))[k].1)
                        &&& *r@[k].1 == (mid + named_in_runs(source@, runs@.take(m as int)))[k].1.artifact
                    },
                decreases runs@.len() - m,
            {
                let a = &runs[m];
                let id = artifact_id(source, &a.file, &a.version, &a.build_id);
                proof {
                    assert(runs@.take(m + 1).drop_last() =~= runs@.take(m as int));
                    assert(runs@.take(m + 1).last() == runs@[m as int]);
                }
                match id {
                    Some(id) => {
                        r.push((id, &a.artifact));
                        assert(mid + named_in_runs(source@, runs@.take(m + 1)) =~= (mid + named_in_runs(source@, runs@.take(m as int))).push((source@, runs@[m as int])));
                    },
                    None => {
                        assert(mid + named_in_runs(source@, runs@.take(m + 1)) =~= mid + named_in_runs(source@, runs@.take(m as int)));
                    },
                }
                m = m + 1;
            }
            proof {
                assert(runs@.take(m as int) =~= runs@);
                assert(names@.take(j + 1).drop_last() =~= names@.take(j as int));
                assert(names@.take(j + 1).last() == names@[j as int]);
                assert(before + named_in_names(source@, names@.take(j + 1)) =~= mid + named_in_runs(source@, runs@));
            }
            j = j + 1;
        }
        proof {
            assert(names@.take(j as int) =~= names@);
            assert(files@.take(i + 1).drop_last() =~= files@.take(i as int));
            assert(files@.take(i + 1).last() == files@[i as int]);
        }
        i = i + 1;
    }
    assert(files@.take(i as int) =~= files@);
    r
}


/// All artifacts with their ids, in order, taken out of the collection; an
/// artifact whose file has no stem to name its contract is left out.
pub fn artifacts_into_artifacts<T>(artifacts: Artifacts<T>) -> (r: Vec<(ArtifactId, T)>)
    ensures
        r@.len() == named_artifacts(artifacts.0@).len(),
        forall|k: int| 0 <= k < r@.len() ==> {
            &&& identifies((#[trigger] r@[k]).0, named_artifacts(artifacts.0@)[k].0, named_artifacts(artifacts.0@)[k].1)
            &&& r@[k].1 == named_artifacts(artifacts.0@)[k].1.artifact
        },
{
    let ghost fv = artifacts.0@;
    let mut files = artifacts.0;
    let mut r: Vec<(ArtifactId, T)> = Vec::new();
    let ghost mut i: int = 0;
    while files.len() > 0
        invariant
            0 <= i <= fv.len(),
            files@ == fv.skip(i),
            r@.len() == named_artifacts(fv.take(i)).len(),
            forall|k: int| 0 <= k < r@.len() ==> {
                &&& identifies((#[trigger] r@[k]).0, named_artifacts(fv.take(i))[k].0, named_artifacts(fv.take(i))[k].1)
                &&& r@[k].1 == named_artifacts(fv.take(i))[k].1.artifact
            },
        decreases files@.len(),
    {
        let ghost before = named_artifacts(fv.take(i));
        assert(fv.skip(i).len() == files@.len());
        assert(fv.skip(i)[0] == fv[i]);
        let (source, names) = files.remove(0);
        assert(files@ =~= fv.skip(i + 1));
        let ghost nv = names@;
        assert(fv[i] == (source, names));
        let mut names = names;
        let ghost mut j: int = 0;
        while names.len() > 0
            invariant
                0 <= j <= nv.len(),
                names@ == nv.skip(j),
                r@.len() == (before + named_in_names(source@, nv.take(j))).len(),
                forall|k: int| 0 <= k < r@.len() ==> {
                    &&& identifies((#[trigger] r@[k]).0, (before + named_in_names(source@, nv.take(j)))[k].0, (before + named_in_names(source@, nv.take(j)))[k].1)
                    &&& r@[k].1 == (before + named_in_names(source@, nv.take(j)))[k].1.artifact
                },
            decreases names@.len(),
        {
            let ghost mid = before + named_in_names(source@, nv.take(j));
            assert(nv.skip(j).len() == names@.len());
            assert(nv.skip(j)[0] == nv[j]);
            let (name, runs) = names.remove(0);
            assert(names@ =~= nv.skip(j + 1));
            let ghost rv = runs@;
            assert(nv[j].1@ == rv);
            let mut runs = runs;
            let ghost mut m: int = 0;
            while runs.len() > 0
                invariant
                    0 <= m <= rv.len(),
                    runs@ == rv.skip(m),
                    r@.len() == (mid + named_in_runs(source@, rv.take(m))).len(),
                    forall|k: int| 0 <= k < r@.len() ==> {
                        &&& identifies((#[trigger] r@[k]).0, (mid + named_in_runs(source@, rv.take(m)))[k].0, (mid + named_in_runs(source@, rv.take(m)))[k].1)
                        &&& r@[k].1 == (mid + named_in_runs(source@, rv.take(m)))[k].1.artifact
                    },
                decreases runs@.len(),
            {
                assert(rv.skip(m).len() == runs@.len());
                assert(rv.skip(m)[0] == rv[m]);
                let a = runs.remove(0);
                assert(runs@ =~= rv.skip(m + 1));
                proof {
                    assert(rv.take(m + 1).drop_last() =~= rv.take(m));
                    assert(rv.take(m + 1).last() == rv[m]);
                }
                let id = artifact_id(&source, &a.file, &a.version, &a.build_id);
                match id {
                    Some(id) => {
                        assert(mid + named_in_runs(source@, rv.take(m + 1)) =~= (mid + named_in_runs(source@, rv.take(m))).push((source@, rv[m])));
                        r.push((id, a.artifact));
                    },
                    None => {
                        assert(mid + named_in_runs(source@, rv.take(m + 1)) =~= mid + named_in_runs(source@, rv.take(m)));
                    },
                }
                proof {
                    m = m + 1;
                }
            }
            proof {
                assert(rv.take(m) =~= rv);
                assert(nv.take(j + 1).drop_last() =~= nv.take(j));
                assert(nv.take(j + 1).last() == nv[j]);
                assert(before + named_in_names(source@, nv.take(j + 1)) =~= mid + named_in_runs(source@, rv));
                j = j + 1;
            }
        }
        proof {
            assert(nv.take(j) =~= nv);
            assert(fv.take(i + 1).drop_last() =~= fv.take(i));
            assert(fv.take(i + 1).last() == fv[i]);
            i = i + 1;
        }
    }
    assert(fv.take(i) =~= fv);
    r
}

/// The versioned artifact file name of a contract is its name, a dot, its
/// version as the version displays (`major.minor.patch`; pre-release and build
/// are not part of it), and `.json`.
pub proof fn lemma_versioned_name_shows_version(name: Seq<char>, v: Version)
    ensures
        spec_output_file_name_versioned(name, v) == name + seq!['.'] + version_display(
            VersionView { major: v.major, minor: v.minor, patch: v.patch, pre: Seq::empty(), build: Seq::empty() },
        ) + seq!['.', 'j', 's', 'o', 'n'],
{
    assert(spec_output_file_name_versioned(name, v) =~= name + seq!['.'] + version_display(
        VersionView { major: v.major, minor: v.minor, patch: v.patch, pre: Seq::empty(), build: Seq::empty() },
    ) + seq!['.', 'j', 's', 'o', 'n']);
}

} // verus!
