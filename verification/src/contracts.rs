//! The contracts of a compilation, by file and by contract name, each with
//! the compiler version that produced it.
//!
//! Files are kept in the order of their paths, contract names in the order
//! of their characters, as sorted maps keep them.

use crate::order::{chars_lt, order_paths, order_strs, path_eq, path_lt, same_path, same_str, Order};
use crate::version::Version;
use vstd::prelude::*;

verus! {

/// A contract and the compiler version used to compile it.
#[derive(Clone, Debug)]
pub struct VersionedContract<C> {
    pub contract: C,
    pub version: Version,
    pub build_id: String,
}

/// file -> [(contract name -> contract + compiler version)]
///
/// Each file holds its contracts by name; under a name, the versions of the
/// contract that were compiled, in the order in which they were added.
pub struct VersionedContracts<C>(pub Vec<(String, Vec<(String, Vec<VersionedContract<C>>)>)>);

/// The contracts of one file, by name.
pub type NamesView<C> = Seq<(Seq<char>, Seq<VersionedContract<C>>)>;

/// The contracts of all files.
pub type FilesView<C> = Seq<(Seq<char>, NamesView<C>)>;

/// The model of the contracts of one file.
pub open spec fn names_view<C>(names: Seq<(String, Vec<VersionedContract<C>>)>) -> NamesView<C> {
    names.map_values(|e: (String, Vec<VersionedContract<C>>)| (e.0@, e.1@))
}

impl<C> View for VersionedContracts<C> {
    type V = FilesView<C>;

    open spec fn view(&self) -> FilesView<C> {
        files_view(self.0@)
    }
}

/// Names in strictly increasing order.
pub open spec fn names_sorted<V>(names: Seq<(Seq<char>, V)>) -> bool {
    forall|i: int, j: int| 0 <= i < j < names.len() ==> chars_lt(#[trigger] names[i].0, #[trigger] names[j].0)
}

/// Files in strictly increasing path order.
pub open spec fn files_sorted<V>(files: Seq<(Seq<char>, V)>) -> bool {
    forall|i: int, j: int| 0 <= i < j < files.len() ==> path_lt(#[trigger] files[i].0, #[trigger] files[j].0)
}

/// Files in path order, each with its names in order: the shape of a sorted map
/// of sorted maps.
pub open spec fn files_wf<C>(files: FilesView<C>) -> bool {
    &&& files_sorted(files)
    &&& forall|i: int| 0 <= i < files.len() ==> names_sorted(#[trigger] files[i].1)
}

/// One contract in the flattened collection: its file, its name, and the
/// versioned contract.
pub type FlatEntry<C> = (Seq<char>, Seq<char>, VersionedContract<C>);

/// The versions of one contract, flattened.
pub open spec fn flat_versions<C>(file: Seq<char>, name: Seq<char>, vs: Seq<VersionedContract<C>>) -> Seq<FlatEntry<C>> {
    vs.map_values(|c: VersionedContract<C>| (file, name, c))
}

/// The contracts of one file, flattened, names in order.
pub open spec fn flat_names<C>(file: Seq<char>, names: NamesView<C>) -> Seq<FlatEntry<C>>
    decreases names.len(),
{
    if names.len() == 0 {
        Seq::empty()
    } else {
        flat_names(file, names.drop_last()) + flat_versions(file, names.last().0, names.last().1)
    }
}

/// All contracts, flattened, files in order.
pub open spec fn flat_files<C>(files: FilesView<C>) -> Seq<FlatEntry<C>>
    decreases files.len(),
{
    if files.len() == 0 {
        Seq::empty()
    } else {
        flat_files(files.drop_last()) + flat_names(files.last().0, files.last().1)
    }
}

/// Whether `i` is the first file whose path names `path`.
pub open spec fn is_first_file<C>(files: FilesView<C>, path: Seq<char>, i: int) -> bool {
    &&& 0 <= i < files.len()
    &&& path_eq(files[i].0, path)
    &&& forall|k: int| 0 <= k < i ==> !path_eq(#[trigger] files[k].0, path)
}

/// Whether `j` is the first entry with the name `name`.
pub open spec fn is_first_name<C>(names: NamesView<C>, name: Seq<char>, j: int) -> bool {
    &&& 0 <= j < names.len()
    &&& names[j].0 == name
    &&& forall|k: int| 0 <= k < j ==> #[trigger] names[k].0 != name
}

/// The versions of the contract `name` in the file `path`; none where the
/// collection has no such entry.
pub open spec fn versions_at<C>(files: FilesView<C>, path: Seq<char>, name: Seq<char>) -> Seq<VersionedContract<C>> {
    if exists|i: int, j: int| is_first_file(files, path, i) && is_first_name(files[i].1, name, j) {
        let (i, j) = choose|i: int, j: int| is_first_file(files, path, i) && is_first_name(files[i].1, name, j);
        files[i].1[j].1
    } else {
        Seq::empty()
    }
}

/// Whether `k` is the first flattened contract with the name `name`.
pub open spec fn is_first_named<C>(flat: Seq<FlatEntry<C>>, name: Seq<char>, k: int) -> bool {
    &&& 0 <= k < flat.len()
    &&& flat[k].1 == name
    &&& forall|j: int| 0 <= j < k ==> (#[trigger] flat[j]).1 != name
}

/// Whether a flattened contract is in the file `path` and has the name `name`.
pub open spec fn at_file_and_name<C>(e: FlatEntry<C>, path: Seq<char>, name: Seq<char>) -> bool {
    path_eq(e.0, path) && e.1 == name
}

/// Whether `k` is the first flattened contract in the file `path` with the
/// name `name`.
pub open spec fn is_first_at<C>(flat: Seq<FlatEntry<C>>, path: Seq<char>, name: Seq<char>, k: int) -> bool {
    &&& 0 <= k < flat.len()
    &&& at_file_and_name(flat[k], path, name)
    &&& forall|j: int| 0 <= j < k ==> !at_file_and_name(#[trigger] flat[j], path, name)
}

proof fn lemma_flat_versions_push<C>(file: Seq<char>, name: Seq<char>, vs: Seq<VersionedContract<C>>, c: VersionedContract<C>)
    ensures
        flat_versions(file, name, vs.push(c)) == flat_versions(file, name, vs).push((file, name, c)),
{
    assert(flat_versions(file, name, vs.push(c)) =~= flat_versions(file, name, vs).push((file, name, c)));
}

proof fn lemma_first_file_unique<C>(files: FilesView<C>, path: Seq<char>, i: int, i2: int)
    requires
        is_first_file(files, path, i),
        is_first_file(files, path, i2),
    ensures
        i == i2,
{
    if i < i2 {
        assert(!path_eq(files[i].0, path));
    } else if i2 < i {
        assert(!path_eq(files[i2].0, path));
    }
}

proof fn lemma_first_name_unique<C>(names: NamesView<C>, name: Seq<char>, j: int, j2: int)
    requires
        is_first_name(names, name, j),
        is_first_name(names, name, j2),
    ensures
        j == j2,
{
    if j < j2 {
        assert(names[j].0 != name);
    } else if j2 < j {
        assert(names[j2].0 != name);
    }
}

/// The versions at a file and name, read from the first matching entries.
proof fn lemma_versions_at<C>(files: FilesView<C>, path: Seq<char>, name: Seq<char>, i: int, j: int)
    requires
        is_first_file(files, path, i),
        is_first_name(files[i].1, name, j),
    ensures
        versions_at(files, path, name) == files[i].1[j].1,
{
    let (i2, j2) = choose|i2: int, j2: int| is_first_file(files, path, i2) && is_first_name(files[i2].1, name, j2);
    lemma_first_file_unique(files, path, i, i2);
    lemma_first_name_unique(files[i].1, name, j, j2);
}

/// No versions where no file or no name matches.
proof fn lemma_versions_at_none<C>(files: FilesView<C>, path: Seq<char>, name: Seq<char>)
    requires
        forall|i: int, j: int| !(is_first_file(files, path, i) && is_first_name(files[i].1, name, j)),
    ensures
        versions_at(files, path, name) == Seq::<VersionedContract<C>>::empty(),
{
}

/// Whether `p` is where `file` stands, or would stand, among the files: every
/// file before it comes before `file`, none from it on does.
pub open spec fn file_slot<V>(files: Seq<(Seq<char>, V)>, file: Seq<char>, p: int) -> bool {
    &&& 0 <= p <= files.len()
    &&& forall|k: int| 0 <= k < p ==> path_lt(#[trigger] files[k].0, file)
    &&& forall|k: int| p <= k < files.len() ==> !path_lt(#[trigger] files[k].0, file)
}

/// Whether `q` is where `name` stands, or would stand, among the names.
pub open spec fn name_slot<C>(names: NamesView<C>, name: Seq<char>, q: int) -> bool {
    &&& 0 <= q <= names.len()
    &&& forall|k: int| 0 <= k < q ==> chars_lt(#[trigger] names[k].0, name)
    &&& forall|k: int| q <= k < names.len() ==> !chars_lt(#[trigger] names[k].0, name)
}

/// The names with `c` added under `name`, `q` being its slot: appended to the
/// versions of that name where it is present, else a new entry there.
pub open spec fn names_with<C>(names: NamesView<C>, name: Seq<char>, c: VersionedContract<C>, q: int) -> NamesView<C> {
    if q < names.len() && names[q].0 == name {
        names.update(q, (names[q].0, names[q].1.push(c)))
    } else {
        names.insert(q, (name, seq![c]))
    }
}

/// The files with `c` added under `file` and `name`, `p` being the file's slot
/// and `q` the name's slot in that file: a file already present keeps its key.
pub open spec fn files_with<C>(files: FilesView<C>, file: Seq<char>, name: Seq<char>, c: VersionedContract<C>, p: int, q: int) -> FilesView<C> {
    if p < files.len() && path_eq(files[p].0, file) {
        files.update(p, (files[p].0, names_with(files[p].1, name, c, q)))
    } else {
        files.insert(p, (file, seq![(name, seq![c])]))
    }
}

proof fn lemma_names_insert_sorted<C>(names: NamesView<C>, name: Seq<char>, q: int, x: Seq<VersionedContract<C>>)
    requires
        names_sorted(names),
        name_slot(names, name, q),
        !(q < names.len() && names[q].0 == name),
    ensures
        names_sorted(names.insert(q, (name, x))),
{
    let n = names.insert(q, (name, x));
    if q < names.len() {
        crate::order::lemma_chars_order(name, names[q].0, name);
    }
    assert forall|i: int, j: int| 0 <= i < j < n.len() implies chars_lt(#[trigger] n[i].0, #[trigger] n[j].0) by {
        if j == q {
            assert(chars_lt(names[i].0, name));
        } else if i == q {
            assert(!chars_lt(names[j - 1].0, name));
            if j - 1 > q {
                assert(chars_lt(names[q].0, names[j - 1].0));
                crate::order::lemma_chars_order(name, names[q].0, names[j - 1].0);
            }
        } else if i < q && j > q {
            assert(chars_lt(names[i].0, names[j - 1].0));
        } else if i > q {
            assert(chars_lt(names[i - 1].0, names[j - 1].0));
        } else {
            assert(chars_lt(names[i].0, names[j].0));
        }
    }
}

/// Inserting a key at its slot, where no key names the same path, keeps the keys in order.
pub(crate) proof fn lemma_files_insert_sorted<V>(files: Seq<(Seq<char>, V)>, file: Seq<char>, p: int, x: V)
    requires
        files_sorted(files),
        file_slot(files, file, p),
        !(p < files.len() && path_eq(files[p].0, file)),
    ensures
        files_sorted(files.insert(p, (file, x))),
{
    let n = files.insert(p, (file, x));
    if p < files.len() {
        crate::order::lemma_path_order(file, files[p].0, file);
        crate::order::lemma_path_order(files[p].0, file, file);
    }
    assert forall|i: int, j: int| 0 <= i < j < n.len() implies path_lt(#[trigger] n[i].0, #[trigger] n[j].0) by {
        if j == p {
            assert(path_lt(files[i].0, file));
        } else if i == p {
            assert(!path_lt(files[j - 1].0, file));
            if j - 1 > p {
                assert(path_lt(files[p].0, files[j - 1].0));
                crate::order::lemma_path_order(file, files[p].0, files[j - 1].0);
            }
        } else if i < p && j > p {
            assert(path_lt(files[i].0, files[j - 1].0));
        } else if i > p {
            assert(path_lt(files[i - 1].0, files[j - 1].0));
        } else {
            assert(path_lt(files[i].0, files[j].0));
        }
    }
}

/// Adding a contract keeps the collection sorted.
proof fn lemma_files_with_wf<C>(files: FilesView<C>, file: Seq<char>, name: Seq<char>, c: VersionedContract<C>, p: int, q: int)
    requires
        files_wf(files),
        file_slot(files, file, p),
        p < files.len() && path_eq(files[p].0, file) ==> name_slot(files[p].1, name, q),
    ensures
        files_wf(files_with(files, file, name, c, p, q)),
{
    let r = files_with(files, file, name, c, p, q);
    if p < files.len() && path_eq(files[p].0, file) {
        let names = files[p].1;
        assert(names_sorted(names));
        if !(q < names.len() && names[q].0 == name) {
            lemma_names_insert_sorted(names, name, q, seq![c]);
        }
        assert(names_sorted(names_with(names, name, c, q)));
        assert forall|i: int, j: int| 0 <= i < j < r.len() implies path_lt(#[trigger] r[i].0, #[trigger] r[j].0) by {
            assert(path_lt(files[i].0, files[j].0));
        }
        assert forall|i: int| 0 <= i < r.len() implies names_sorted(#[trigger] r[i].1) by {
            if i != p {
                assert(names_sorted(files[i].1));
            }
        }
    } else {
        lemma_files_insert_sorted(files, file, p, seq![(name, seq![c])]);
        assert forall|i: int| 0 <= i < r.len() implies names_sorted(#[trigger] r[i].1) by {
            if i < p {
                assert(names_sorted(files[i].1));
            } else if i > p {
                assert(names_sorted(files[i - 1].1));
            }
        }
    }
}

/// In a sorted collection, the versions that [`VersionedContracts::get`] reads
/// at a file and a name, after [`VersionedContracts::insert`] added a contract
/// there, are those before with the new one last.
pub proof fn lemma_insert_then_get<C>(files: FilesView<C>, file: Seq<char>, name: Seq<char>, c: VersionedContract<C>, p: int, q: int)
    requires
        files_wf(files),
        file_slot(files, file, p),
        p < files.len() && path_eq(files[p].0, file) ==> name_slot(files[p].1, name, q),
    ensures
        versions_at(files_with(files, file, name, c, p, q), file, name) == versions_at(files, file, name).push(c),
{
    let r = files_with(files, file, name, c, p, q);
    assert forall|k: int| 0 <= k < p implies !path_eq(#[trigger] files[k].0, file) by {
        crate::order::lemma_path_order(files[k].0, file, file);
    }
    if p < files.len() && path_eq(files[p].0, file) {
        let nv = files[p].1;
        assert(is_first_file(files, file, p));
        assert(is_first_file(r, file, p)) by {
            assert forall|k: int| 0 <= k < p implies !path_eq(#[trigger] r[k].0, file) by {
                assert(r[k] == files[k]);
            }
        }
        assert forall|k: int| 0 <= k < q implies #[trigger] nv[k].0 != name by {
            crate::order::lemma_chars_order(nv[k].0, name, name);
        }
        if q < nv.len() && nv[q].0 == name {
            assert(is_first_name(nv, name, q));
            assert(is_first_name(r[p].1, name, q)) by {
                assert forall|k: int| 0 <= k < q implies #[trigger] r[p].1[k].0 != name by {
                    assert(r[p].1[k] == nv[k]);
                }
            }
            lemma_versions_at(files, file, name, p, q);
            lemma_versions_at(r, file, name, p, q);
        } else {
            assert(is_first_name(r[p].1, name, q)) by {
                assert forall|k: int| 0 <= k < q implies #[trigger] r[p].1[k].0 != name by {
                    assert(r[p].1[k] == nv[k]);
                }
            }
            lemma_versions_at(r, file, name, p, q);
            assert forall|i: int, j: int| !(is_first_file(files, file, i) && is_first_name(files[i].1, name, j)) by {
                if is_first_file(files, file, i) && is_first_name(files[i].1, name, j) {
                    lemma_first_file_unique(files, file, i, p);
                    if j > q {
                        assert(chars_lt(nv[q].0, nv[j].0));
                    }
                }
            }
            lemma_versions_at_none(files, file, name);
            assert(seq![c] =~= Seq::<VersionedContract<C>>::empty().push(c));
        }
    } else {
        assert(is_first_file(r, file, p)) by {
            assert forall|k: int| 0 <= k < p implies !path_eq(#[trigger] r[k].0, file) by {
                assert(r[k] == files[k]);
            }
        }
        assert(is_first_name(r[p].1, name, 0));
        lemma_versions_at(r, file, name, p, 0);
        assert forall|i: int, j: int| !(is_first_file(files, file, i) && is_first_name(files[i].1, name, j)) by {
            if is_first_file(files, file, i) && is_first_name(files[i].1, name, j) {
                if i > p {
                    assert(path_lt(files[p].0, files[i].0));
                    assert(path_lt(files[p].0, file));
                }
            }
        }
        lemma_versions_at_none(files, file, name);
        assert(seq![c] =~= Seq::<VersionedContract<C>>::empty().push(c));
    }
}

proof fn lemma_first_file_insert<C>(files: FilesView<C>, p: int, e: (Seq<char>, NamesView<C>), f: Seq<char>)
    requires
        0 <= p <= files.len(),
        !path_eq(e.0, f),
    ensures
        forall|i: int| is_first_file(files, f, i) ==> is_first_file(files.insert(p, e), f, if i < p { i } else { i + 1 }),
        forall|i: int| is_first_file(files.insert(p, e), f, i) ==> i != p && is_first_file(files, f, if i < p { i } else { i - 1 }),
{
    let r = files.insert(p, e);
    assert forall|i: int| is_first_file(files, f, i) implies is_first_file(r, f, if i < p { i } else { i + 1 }) by {
        let i2 = if i < p { i } else { i + 1 };
        assert forall|k: int| 0 <= k < i2 implies !path_eq(#[trigger] r[k].0, f) by {
            if k < p {
                assert(r[k] == files[k]);
            } else if k > p {
                assert(r[k] == files[k - 1]);
            }
        }
    }
    assert forall|i: int| is_first_file(r, f, i) implies i != p && is_first_file(files, f, if i < p { i } else { i - 1 }) by {
        let i2 = if i < p { i } else { i - 1 };
        assert forall|k: int| 0 <= k < i2 implies !path_eq(#[trigger] files[k].0, f) by {
            if k < p {
                assert(r[k] == files[k]);
            } else {
                assert(r[k + 1] == files[k]);
            }
        }
    }
}

proof fn lemma_first_name_insert<C>(names: NamesView<C>, q: int, e: (Seq<char>, Seq<VersionedContract<C>>), n: Seq<char>)
    requires
        0 <= q <= names.len(),
        e.0 != n,
    ensures
        forall|j: int| is_first_name(names, n, j) ==> is_first_name(names.insert(q, e), n, if j < q { j } else { j + 1 }),
        forall|j: int| is_first_name(names.insert(q, e), n, j) ==> j != q && is_first_name(names, n, if j < q { j } else { j - 1 }),
{
    let r = names.insert(q, e);
    assert forall|j: int| is_first_name(names, n, j) implies is_first_name(r, n, if j < q { j } else { j + 1 }) by {
        let j2 = if j < q { j } else { j + 1 };
        assert forall|k: int| 0 <= k < j2 implies #[trigger] r[k].0 != n by {
            if k < q {
                assert(r[k] == names[k]);
            } else if k > q {
                assert(r[k] == names[k - 1]);
            }
        }
    }
    assert forall|j: int| is_first_name(r, n, j) implies j != q && is_first_name(names, n, if j < q { j } else { j - 1 }) by {
        let j2 = if j < q { j } else { j - 1 };
        assert forall|k: int| 0 <= k < j2 implies #[trigger] names[k].0 != n by {
            if k < q {
                assert(r[k] == names[k]);
            } else {
                assert(r[k + 1] == names[k]);
            }
        }
    }
}

/// In a sorted collection, adding a contract under a file and a name leaves
/// what [`VersionedContracts::get`] reads at every other file or name as it was.
pub proof fn lemma_insert_keeps_others<C>(files: FilesView<C>, file: Seq<char>, name: Seq<char>, c: VersionedContract<C>, p: int, q: int, f2: Seq<char>, n2: Seq<char>)
    requires
        files_wf(files),
        file_slot(files, file, p),
        p < files.len() && path_eq(files[p].0, file) ==> name_slot(files[p].1, name, q),
        !(path_eq(f2, file) && n2 == name),
    ensures
        versions_at(files_with(files, file, name, c, p, q), f2, n2) == versions_at(files, f2, n2),
{
    let r = files_with(files, file, name, c, p, q);
    let found = p < files.len() && path_eq(files[p].0, file);
    if !path_eq(f2, file) {
        if found {
            assert(!path_eq(files[p].0, f2));
            assert forall|i: int| is_first_file(r, f2, i) == is_first_file(files, f2, i) by {
                if 0 <= i < files.len() {
                    if i != p {
                        assert(r[i] == files[i]);
                    }
                    assert forall|k: int| 0 <= k < i implies r[k].0 == #[trigger] files[k].0 by {
                        if k != p {
                            assert(r[k] == files[k]);
                        }
                    }
                }
            }
            if exists|i: int, j: int| is_first_file(files, f2, i) && is_first_name(files[i].1, n2, j) {
                let (i, j) = choose|i: int, j: int| is_first_file(files, f2, i) && is_first_name(files[i].1, n2, j);
                assert(i != p);
                assert(r[i] == files[i]);
                lemma_versions_at(files, f2, n2, i, j);
                lemma_versions_at(r, f2, n2, i, j);
            } else {
                assert forall|i: int, j: int| !(is_first_file(r, f2, i) && is_first_name(r[i].1, n2, j)) by {
                    if is_first_file(r, f2, i) && is_first_name(r[i].1, n2, j) {
                        assert(i != p);
                        assert(r[i] == files[i]);
                    }
                }
                lemma_versions_at_none(files, f2, n2);
                lemma_versions_at_none(r, f2, n2);
            }
        } else {
            let e = (file, seq![(name, seq![c])]);
            assert(!path_eq(e.0, f2));
            lemma_first_file_insert(files, p, e, f2);
            if exists|i: int, j: int| is_first_file(files, f2, i) && is_first_name(files[i].1, n2, j) {
                let (i, j) = choose|i: int, j: int| is_first_file(files, f2, i) && is_first_name(files[i].1, n2, j);
                let i2 = if i < p { i } else { i + 1 };
                assert(r[i2] == files[i]);
                lemma_versions_at(files, f2, n2, i, j);
                lemma_versions_at(r, f2, n2, i2, j);
            } else {
                assert forall|i: int, j: int| !(is_first_file(r, f2, i) && is_first_name(r[i].1, n2, j)) by {
                    if is_first_file(r, f2, i) && is_first_name(r[i].1, n2, j) {
                        let i1 = if i < p { i } else { i - 1 };
                        assert(r[i] == files[i1]);
                    }
                }
                lemma_versions_at_none(files, f2, n2);
                lemma_versions_at_none(r, f2, n2);
            }
        }
    } else {
        assert(n2 != name);
        assert forall|k: int| 0 <= k < p implies !path_eq(#[trigger] files[k].0, f2) by {
            crate::order::lemma_path_order(files[k].0, file, file);
        }
        if found {
            assert(is_first_file(files, f2, p));
            assert(is_first_file(r, f2, p)) by {
                assert forall|k: int| 0 <= k < p implies !path_eq(#[trigger] r[k].0, f2) by {
                    assert(r[k] == files[k]);
                }
            }
            let nv = files[p].1;
            let nr = r[p].1;
            if q < nv.len() && nv[q].0 == name {
                assert(nr == nv.update(q, (nv[q].0, nv[q].1.push(c))));
                assert forall|j: int| is_first_name(nr, n2, j) == is_first_name(nv, n2, j) by {
                    if 0 <= j < nv.len() {
                        assert forall|k: int| 0 <= k < j implies nr[k].0 == #[trigger] nv[k].0 by {
                            if k != q {
                                assert(nr[k] == nv[k]);
                            }
                        }
                        if j != q {
                            assert(nr[j] == nv[j]);
                        }
                    }
                }
                if exists|j: int| is_first_name(nv, n2, j) {
                    let j = choose|j: int| is_first_name(nv, n2, j);
                    assert(j != q);
                    assert(nr[j] == nv[j]);
                    lemma_versions_at(files, f2, n2, p, j);
                    lemma_versions_at(r, f2, n2, p, j);
                } else {
                    assert forall|i: int, j: int| !(is_first_file(files, f2, i) && is_first_name(files[i].1, n2, j)) by {
                        if is_first_file(files, f2, i) && is_first_name(files[i].1, n2, j) {
                            lemma_first_file_unique(files, f2, i, p);
                        }
                    }
                    assert forall|i: int, j: int| !(is_first_file(r, f2, i) && is_first_name(r[i].1, n2, j)) by {
                        if is_first_file(r, f2, i) && is_first_name(r[i].1, n2, j) {
                            lemma_first_file_unique(r, f2, i, p);
                        }
                    }
                    lemma_versions_at_none(files, f2, n2);
                    lemma_versions_at_none(r, f2, n2);
                }
            } else {
                let e = (name, seq![c]);
                assert(nr == nv.insert(q, e));
                lemma_first_name_insert(nv, q, e, n2);
                if exists|j: int| is_first_name(nv, n2, j) {
                    let j = choose|j: int| is_first_name(nv, n2, j);
                    let j2 = if j < q { j } else { j + 1 };
                    assert(nr[j2] == nv[j]);
                    lemma_versions_at(files, f2, n2, p, j);
                    lemma_versions_at(r, f2, n2, p, j2);
                } else {
                    assert forall|i: int, j: int| !(is_first_file(files, f2, i) && is_first_name(files[i].1, n2, j)) by {
                        if is_first_file(files, f2, i) && is_first_name(files[i].1, n2, j) {
                            lemma_first_file_unique(files, f2, i, p);
                        }
                    }
                    assert forall|i: int, j: int| !(is_first_file(r, f2, i) && is_first_name(r[i].1, n2, j)) by {
                        if is_first_file(r, f2, i) && is_first_name(r[i].1, n2, j) {
                            lemma_first_file_unique(r, f2, i, p);
                            let j1 = if j < q { j } else { j - 1 };
                            assert(j != q);
                            assert(is_first_name(nv, n2, j1));
                        }
                    }
                    lemma_versions_at_none(files, f2, n2);
                    lemma_versions_at_none(r, f2, n2);
                }
            }
        } else {
            assert forall|i: int, j: int| !(is_first_file(files, f2, i) && is_first_name(files[i].1, n2, j)) by {
                if is_first_file(files, f2, i) && is_first_name(files[i].1, n2, j) {
                    if i > p {
                        assert(path_lt(files[p].0, files[i].0));
                        assert(path_lt(files[p].0, file));
                    }
                }
            }
            assert(is_first_file(r, f2, p)) by {
                assert forall|k: int| 0 <= k < p implies !path_eq(#[trigger] r[k].0, f2) by {
                    assert(r[k] == files[k]);
                }
            }
            assert forall|i: int, j: int| !(is_first_file(r, f2, i) && is_first_name(r[i].1, n2, j)) by {
                if is_first_file(r, f2, i) && is_first_name(r[i].1, n2, j) {
                    lemma_first_file_unique(r, f2, i, p);
                }
            }
            lemma_versions_at_none(files, f2, n2);
            lemma_versions_at_none(r, f2, n2);
        }
    }
}

/// The names after the first version under entry `j` is taken: the entry keeps
/// the rest, or goes where nothing is left.
pub open spec fn names_without_first<C>(names: NamesView<C>, j: int) -> NamesView<C> {
    if names[j].1.len() > 1 {
        names.update(j, (names[j].0, names[j].1.drop_first()))
    } else {
        names.remove(j)
    }
}

/// The names after the first version of `name` is taken, with that version's
/// contract: an entry for `name` goes where nothing is left under it; no
/// contract comes out where it holds none.
pub open spec fn names_take<C>(names: NamesView<C>, name: Seq<char>) -> (NamesView<C>, Option<C>) {
    if exists|j: int| is_first_name(names, name, j) {
        let j = choose|j: int| is_first_name(names, name, j);
        (
            names_without_first(names, j),
            if names[j].1.len() > 0 { Some(names[j].1[0].contract) } else { None },
        )
    } else {
        (names, None)
    }
}

/// The files after [`VersionedContracts::remove`] of `name` in `path`: the file
/// goes where it is left with no names.
pub open spec fn files_without<C>(files: FilesView<C>, path: Seq<char>, name: Seq<char>) -> FilesView<C> {
    if exists|i: int| is_first_file(files, path, i) {
        let i = choose|i: int| is_first_file(files, path, i);
        let names = names_take(files[i].1, name).0;
        if names.len() > 0 {
            files.update(i, (files[i].0, names))
        } else {
            files.remove(i)
        }
    } else {
        files
    }
}

/// The files after [`VersionedContracts::remove_first`] of `name`, and the
/// contract taken: files are searched in order until one yields a contract;
/// each file searched loses its entry for `name` where that holds nothing.
pub open spec fn files_take_first<C>(files: FilesView<C>, name: Seq<char>) -> (FilesView<C>, Option<C>)
    decreases files.len(),
{
    if files.len() == 0 {
        (files, None)
    } else {
        let (n0, r0) = names_take(files[0].1, name);
        if r0 is Some {
            (files.update(0, (files[0].0, n0)), r0)
        } else {
            let (rest, r) = files_take_first(files.drop_first(), name);
            (seq![(files[0].0, n0)] + rest, r)
        }
    }
}

proof fn lemma_names_take_sorted<C>(names: NamesView<C>, name: Seq<char>)
    requires
        names_sorted(names),
    ensures
        names_sorted(names_take(names, name).0),
{
    if exists|j: int| is_first_name(names, name, j) {
        let j = choose|j: int| is_first_name(names, name, j);
        let n = names_take(names, name).0;
        if names[j].1.len() <= 1 {
            assert forall|a: int, b: int| 0 <= a < b < n.len() implies chars_lt(#[trigger] n[a].0, #[trigger] n[b].0) by {
                let a1 = if a < j { a } else { a + 1 };
                let b1 = if b < j { b } else { b + 1 };
                assert(n[a] == names[a1]);
                assert(n[b] == names[b1]);
            }
        } else {
            assert forall|a: int, b: int| 0 <= a < b < n.len() implies chars_lt(#[trigger] n[a].0, #[trigger] n[b].0) by {
                assert(n[a].0 == names[a].0);
                assert(n[b].0 == names[b].0);
            }
        }
    }
}

/// The files after names were searched in the first `i` files without a
/// contract coming out.
pub open spec fn searched<C>(files: FilesView<C>, name: Seq<char>, i: int) -> FilesView<C> {
    Seq::new(i as nat, |k: int| (files[k].0, names_take(files[k].1, name).0))
}

proof fn lemma_take_first_prefix<C>(files: FilesView<C>, name: Seq<char>, i: int)
    requires
        0 <= i <= files.len(),
        forall|k: int| 0 <= k < i ==> names_take(#[trigger] files[k].1, name).1 is None,
    ensures
        files_take_first(files, name) == (
            searched(files, name, i) + files_take_first(files.skip(i), name).0,
            files_take_first(files.skip(i), name).1,
        ),
    decreases i,
{
    if i == 0 {
        assert(files.skip(0) =~= files);
        assert(searched(files, name, 0) + files_take_first(files, name).0 =~= files_take_first(files, name).0);
    } else {
        let t = files.drop_first();
        assert forall|k: int| 0 <= k < i - 1 implies names_take(#[trigger] t[k].1, name).1 is None by {
            assert(t[k] == files[k + 1]);
        }
        lemma_take_first_prefix(t, name, i - 1);
        assert(t.skip(i - 1) =~= files.skip(i));
        assert(names_take(files[0].1, name).1 is None);
        assert(seq![(files[0].0, names_take(files[0].1, name).0)] + searched(t, name, i - 1) =~= searched(files, name, i));
    }
}

/// The slot of `file` among sorted files.
pub open spec fn slot_of<V>(files: Seq<(Seq<char>, V)>, file: Seq<char>) -> int {
    choose|p: int| file_slot(files, file, p)
}

/// The files with the entry `(file, names)` put in: it replaces, key and all,
/// the entry with the same path; otherwise it goes in at its place in order.
pub open spec fn file_put<V>(files: Seq<(Seq<char>, V)>, file: Seq<char>, names: V) -> Seq<(Seq<char>, V)> {
    let p = slot_of(files, file);
    if p < files.len() && path_eq(files[p].0, file) {
        files.update(p, (file, names))
    } else {
        files.insert(p, (file, names))
    }
}

/// Entries collected one after the other into sorted files, as a sorted map is
/// collected: of entries with the same path, the last stays.
pub open spec fn files_collected<V>(entries: Seq<(Seq<char>, V)>) -> Seq<(Seq<char>, V)>
    decreases entries.len(),
{
    if entries.len() == 0 {
        Seq::empty()
    } else {
        file_put(files_collected(entries.drop_last()), entries.last().0, entries.last().1)
    }
}

/// The files with every path joined onto `root`.
pub open spec fn files_joined<V>(files: Seq<(Seq<char>, V)>, root: Seq<char>) -> Seq<(Seq<char>, V)> {
    files.map_values(|e: (Seq<char>, V)| (crate::paths::path_join(root, e.0), e.1))
}

/// The files with `base` taken off the front of every path it begins.
pub open spec fn files_stripped<C>(files: FilesView<C>, base: Seq<char>) -> FilesView<C> {
    files.map_values(|e: (Seq<char>, NamesView<C>)| (crate::paths::stripped(e.0, base), e.1))
}

/// Every file's names in order.
pub open spec fn all_names_sorted<C>(files: FilesView<C>) -> bool {
    forall|i: int| 0 <= i < files.len() ==> names_sorted(#[trigger] files[i].1)
}

/// Among keys in order, every key has its slot.
pub(crate) proof fn lemma_file_slot_exists<V>(files: Seq<(Seq<char>, V)>, file: Seq<char>)
    requires
        files_sorted(files),
    ensures
        file_slot(files, file, slot_of(files, file)),
    decreases files.len(),
{
    if files.len() == 0 {
        assert(file_slot(files, file, 0));
    } else {
        let t = files.drop_last();
        assert(files_sorted(t)) by {
            assert forall|i: int, j: int| 0 <= i < j < t.len() implies path_lt(#[trigger] t[i].0, #[trigger] t[j].0) by {
                assert(t[i] == files[i]);
                assert(t[j] == files[j]);
            }
        }
        lemma_file_slot_exists(t, file);
        let p = slot_of(t, file);
        let last = files.len() - 1;
        if p < t.len() {
            assert(file_slot(files, file, p)) by {
                assert(t[p] == files[p]);
                assert(path_lt(files[p].0, files[last].0));
                crate::order::lemma_path_order(files[p].0, files[last].0, file);
                assert forall|k: int| 0 <= k < p implies path_lt(#[trigger] files[k].0, file) by {
                    assert(files[k] == t[k]);
                }
                assert forall|k: int| p <= k < files.len() implies !path_lt(#[trigger] files[k].0, file) by {
                    if k < last {
                        assert(files[k] == t[k]);
                    }
                }
            }
        } else if path_lt(files[last].0, file) {
            assert(file_slot(files, file, files.len() as int)) by {
                assert forall|k: int| 0 <= k < files.len() implies path_lt(#[trigger] files[k].0, file) by {
                    if k < last {
                        assert(files[k] == t[k]);
                    }
                }
            }
        } else {
            assert(file_slot(files, file, last)) by {
                assert forall|k: int| 0 <= k < last implies path_lt(#[trigger] files[k].0, file) by {
                    assert(files[k] == t[k]);
                }
            }
        }
    }
}

/// A key has one slot.
pub(crate) proof fn lemma_file_slot_unique<V>(files: Seq<(Seq<char>, V)>, file: Seq<char>, p: int, p2: int)
    requires
        file_slot(files, file, p),
        file_slot(files, file, p2),
    ensures
        p == p2,
{
    if p < p2 {
        assert(path_lt(files[p].0, file));
    } else if p2 < p {
        assert(path_lt(files[p2].0, file));
    }
}

/// Putting an entry in keeps the keys in order.
pub(crate) proof fn lemma_file_put_sorted<V>(files: Seq<(Seq<char>, V)>, file: Seq<char>, names: V)
    requires
        files_sorted(files),
    ensures
        files_sorted(file_put(files, file, names)),
{
    lemma_file_slot_exists(files, file);
    let p = slot_of(files, file);
    let r = file_put(files, file, names);
    if p < files.len() && path_eq(files[p].0, file) {
        assert forall|i: int, j: int| 0 <= i < j < r.len() implies path_lt(#[trigger] r[i].0, #[trigger] r[j].0) by {
            assert(path_lt(files[i].0, files[j].0));
        }
    } else {
        lemma_files_insert_sorted(files, file, p, names);
    }
}

proof fn lemma_file_put_wf<C>(files: FilesView<C>, file: Seq<char>, names: NamesView<C>)
    requires
        files_sorted(files),
        all_names_sorted(files),
        names_sorted(names),
    ensures
        files_sorted(file_put(files, file, names)),
        all_names_sorted(file_put(files, file, names)),
{
    lemma_file_slot_exists(files, file);
    let p = slot_of(files, file);
    let r = file_put(files, file, names);
    if p < files.len() && path_eq(files[p].0, file) {
        assert forall|i: int, j: int| 0 <= i < j < r.len() implies path_lt(#[trigger] r[i].0, #[trigger] r[j].0) by {
            assert(path_lt(files[i].0, files[j].0));
        }
        assert forall|i: int| 0 <= i < r.len() implies names_sorted(#[trigger] r[i].1) by {
            if i != p {
                assert(r[i] == files[i]);
            }
        }
    } else {
        lemma_files_insert_sorted(files, file, p, names);
        assert forall|i: int| 0 <= i < r.len() implies names_sorted(#[trigger] r[i].1) by {
            if i < p {
                assert(r[i] == files[i]);
            } else if i > p {
                assert(r[i] == files[i - 1]);
            }
        }
    }
}

/// Collected entries are sorted by path, and their names stay in order where
/// they were.
pub proof fn lemma_collected_wf<C>(entries: FilesView<C>)
    requires
        all_names_sorted(entries),
    ensures
        files_sorted(files_collected(entries)),
        all_names_sorted(files_collected(entries)),
    decreases entries.len(),
{
    if entries.len() > 0 {
        let t = entries.drop_last();
        assert(all_names_sorted(t)) by {
            assert forall|i: int| 0 <= i < t.len() implies names_sorted(#[trigger] t[i].1) by {
                assert(t[i] == entries[i]);
            }
        }
        lemma_collected_wf(t);
        assert(names_sorted(entries[entries.len() - 1].1));
        lemma_file_put_wf(files_collected(t), entries.last().0, entries.last().1);
    }
}

/// In a sorted collection whose files all hold some name and whose names all
/// hold some version, adding a contract under a file and a name that hold
/// none, then removing the first contract there, gives back that contract and
/// the collection as it was.
pub proof fn lemma_insert_then_remove<C>(files: FilesView<C>, file: Seq<char>, name: Seq<char>, c: VersionedContract<C>, p: int, q: int)
    requires
        files_wf(files),
        forall|i: int| 0 <= i < files.len() ==> (#[trigger] files[i]).1.len() > 0,
        forall|i: int, j: int| 0 <= i < files.len() && 0 <= j < files[i].1.len() ==> (#[trigger] files[i].1[j]).1.len() > 0,
        file_slot(files, file, p),
        p < files.len() && path_eq(files[p].0, file) ==> name_slot(files[p].1, name, q),
        versions_at(files, file, name).len() == 0,
    ensures
        files_without(files_with(files, file, name, c, p, q), file, name) == files,
        versions_at(files_with(files, file, name, c, p, q), file, name) == seq![c],
{
    lemma_insert_then_get(files, file, name, c, p, q);
    assert(Seq::<VersionedContract<C>>::empty().push(c) =~= seq![c]);
    let r = files_with(files, file, name, c, p, q);
    assert forall|k: int| 0 <= k < p implies !path_eq(#[trigger] files[k].0, file) by {
        crate::order::lemma_path_order(files[k].0, file, file);
    }
    if p < files.len() && path_eq(files[p].0, file) {
        let nv = files[p].1;
        assert(is_first_file(files, file, p));
        assert(is_first_file(r, file, p)) by {
            assert forall|k: int| 0 <= k < p implies !path_eq(#[trigger] r[k].0, file) by {
                assert(r[k] == files[k]);
            }
        }
        assert(exists|i: int| is_first_file(r, file, i));
        let i = choose|i: int| is_first_file(r, file, i);
        lemma_first_file_unique(r, file, i, p);
        assert forall|k: int| 0 <= k < q implies #[trigger] nv[k].0 != name by {
            crate::order::lemma_chars_order(nv[k].0, name, name);
        }
        if q < nv.len() && nv[q].0 == name {
            assert(is_first_name(nv, name, q));
            lemma_versions_at(files, file, name, p, q);
            assert(false);
        }
        let nr = nv.insert(q, (name, seq![c]));
        assert(r[p].1 == nr);
        assert(is_first_name(nr, name, q)) by {
            assert forall|k: int| 0 <= k < q implies #[trigger] nr[k].0 != name by {
                assert(nr[k] == nv[k]);
            }
        }
        let j = choose|j: int| is_first_name(nr, name, j);
        lemma_first_name_unique(nr, name, j, q);
        assert(names_take(nr, name).0 =~= nv);
        assert(nv.len() > 0);
        assert(files_without(r, file, name) =~= files);
    } else {
        assert(is_first_file(r, file, p)) by {
            assert forall|k: int| 0 <= k < p implies !path_eq(#[trigger] r[k].0, file) by {
                assert(r[k] == files[k]);
            }
        }
        let i = choose|i: int| is_first_file(r, file, i);
        lemma_first_file_unique(r, file, i, p);
        let nr = seq![(name, seq![c])];
        assert(r[p].1 == nr);
        assert(is_first_name(nr, name, 0));
        let j = choose|j: int| is_first_name(nr, name, j);
        lemma_first_name_unique(nr, name, j, 0);
        assert(names_take(nr, name).0 =~= Seq::<(Seq<char>, Seq<VersionedContract<C>>)>::empty());
        assert(files_without(r, file, name) =~= files);
    }
}

proof fn lemma_flat_names_append<C>(file: Seq<char>, a: NamesView<C>, b: NamesView<C>)
    ensures
        flat_names(file, a + b) == flat_names(file, a) + flat_names(file, b),
    decreases b.len(),
{
    if b.len() == 0 {
        assert(a + b =~= a);
        assert(flat_names(file, a) + flat_names(file, b) =~= flat_names(file, a));
    } else {
        lemma_flat_names_append(file, a, b.drop_last());
        assert((a + b).drop_last() =~= a + b.drop_last());
        assert((a + b).last() == b.last());
        assert(flat_names(file, a) + flat_names(file, b) =~= flat_names(file, a) + flat_names(file, b.drop_last()) + flat_versions(file, b.last().0, b.last().1));
    }
}

proof fn lemma_flat_files_append<C>(a: FilesView<C>, b: FilesView<C>)
    ensures
        flat_files(a + b) == flat_files(a) + flat_files(b),
    decreases b.len(),
{
    if b.len() == 0 {
        assert(a + b =~= a);
        assert(flat_files(a) + flat_files(b) =~= flat_files(a));
    } else {
        lemma_flat_files_append(a, b.drop_last());
        assert((a + b).drop_last() =~= a + b.drop_last());
        assert((a + b).last() == b.last());
        assert(flat_files(a) + flat_files(b) =~= flat_files(a) + flat_files(b.drop_last()) + flat_names(b.last().0, b.last().1));
    }
}

/// Every flattened contract of a file carries that file and one of its names.
proof fn lemma_flat_names_members<C>(file: Seq<char>, names: NamesView<C>)
    ensures
        forall|k: int| 0 <= k < flat_names(file, names).len() ==> {
            &&& (#[trigger] flat_names(file, names)[k]).0 == file
            &&& exists|j: int| 0 <= j < names.len() && flat_names(file, names)[k].1 == names[j].0
        },
    decreases names.len(),
{
    if names.len() > 0 {
        let t = names.drop_last();
        lemma_flat_names_members(file, t);
        let f = flat_names(file, names);
        let ft = flat_names(file, t);
        assert forall|k: int| 0 <= k < f.len() implies {
            &&& (#[trigger] f[k]).0 == file
            &&& exists|j: int| 0 <= j < names.len() && f[k].1 == names[j].0
        } by {
            if k < ft.len() {
                assert(f[k] == ft[k]);
                let j = choose|j: int| 0 <= j < t.len() && ft[k].1 == t[j].0;
                assert(names[j] == t[j]);
            } else {
                assert(f[k] == flat_versions(file, names.last().0, names.last().1)[k - ft.len()]);
                assert(f[k].1 == names[names.len() - 1].0);
            }
        }
    }
}

/// Every flattened contract carries one of the files and one of that file's
/// names.
proof fn lemma_flat_files_members<C>(files: FilesView<C>)
    ensures
        forall|k: int| 0 <= k < flat_files(files).len() ==> exists|i: int| 0 <= i < files.len() && (#[trigger] flat_files(files)[k]).0 == files[i].0 && exists|j: int| 0 <= j < files[i].1.len() && flat_files(files)[k].1 == files[i].1[j].0,
    decreases files.len(),
{
    if files.len() > 0 {
        let t = files.drop_last();
        lemma_flat_files_members(t);
        let last = files.len() - 1;
        lemma_flat_names_members(files[last].0, files[last].1);
        let f = flat_files(files);
        let ft = flat_files(t);
        assert forall|k: int| 0 <= k < f.len() implies exists|i: int| 0 <= i < files.len() && (#[trigger] f[k]).0 == files[i].0 && exists|j: int| 0 <= j < files[i].1.len() && f[k].1 == files[i].1[j].0 by {
            if k < ft.len() {
                assert(f[k] == ft[k]);
                let i = choose|i: int| 0 <= i < t.len() && ft[k].0 == t[i].0 && exists|j: int| 0 <= j < t[i].1.len() && ft[k].1 == t[i].1[j].0;
                assert(files[i] == t[i]);
            } else {
                let fl = flat_names(files[last].0, files[last].1);
                assert(f[k] == fl[k - ft.len()]);
                assert(fl[k - ft.len()].0 == files[last].0);
            }
        }
    }
}

/// In a sorted collection, [`VersionedContracts::find`] and
/// [`VersionedContracts::get`] agree: the first contract listed under a file
/// and a name is the first version that `get` reads there, and there is none
/// exactly where `get` reads no version.
pub proof fn lemma_find_is_get<C>(files: FilesView<C>, path: Seq<char>, name: Seq<char>)
    requires
        files_wf(files),
    ensures
        versions_at(files, path, name).len() > 0 ==> exists|k: int| #[trigger] is_first_at(flat_files(files), path, name, k) && flat_files(files)[k].2 == versions_at(files, path, name)[0],
        versions_at(files, path, name).len() == 0 ==> forall|k: int| 0 <= k < flat_files(files).len() ==> !at_file_and_name(#[trigger] flat_files(files)[k], path, name),
{
    let flat = flat_files(files);
    lemma_flat_files_members(files);
    if exists|i: int, j: int| is_first_file(files, path, i) && is_first_name(files[i].1, name, j) {
        let (i, j) = choose|i: int, j: int| is_first_file(files, path, i) && is_first_name(files[i].1, name, j);
        lemma_versions_at(files, path, name, i, j);
        let names = files[i].1;
        let file = files[i].0;
        // only file `i` has the path, only entry `j` the name
        assert forall|i2: int| 0 <= i2 < files.len() && i2 != i implies !path_eq(#[trigger] files[i2].0, path) by {
            if i2 < i {
                assert(path_lt(files[i2].0, files[i].0));
                crate::order::lemma_path_order(files[i2].0, files[i].0, files[i].0);
            } else {
                assert(path_lt(files[i].0, files[i2].0));
                crate::order::lemma_path_order(files[i].0, files[i2].0, files[i].0);
            }
        }
        assert forall|j2: int| 0 <= j2 < names.len() && j2 != j implies #[trigger] names[j2].0 != name by {
            assert(names_sorted(names));
            if j2 < j {
                assert(chars_lt(names[j2].0, names[j].0));
                crate::order::lemma_chars_order(names[j2].0, names[j].0, names[j].0);
            } else {
                assert(chars_lt(names[j].0, names[j2].0));
                crate::order::lemma_chars_order(names[j].0, names[j2].0, names[j].0);
            }
        }
        // the flattened contracts around file `i` and entry `j`
        let fa = files.take(i);
        let fb = files.skip(i + 1);
        assert(files =~= fa + seq![files[i]] + fb);
        lemma_flat_files_append(fa + seq![files[i]], fb);
        lemma_flat_files_append(fa, seq![files[i]]);
        assert(seq![files[i]].drop_last() =~= Seq::<(Seq<char>, NamesView<C>)>::empty());
        assert(seq![files[i]].last() == files[i]);
        assert(flat_files(Seq::<(Seq<char>, NamesView<C>)>::empty()) =~= Seq::<FlatEntry<C>>::empty());
        assert(flat_files(seq![files[i]]) =~= flat_names(file, names));
        let na = names.take(j);
        let nb = names.skip(j + 1);
        assert(names =~= na + seq![names[j]] + nb);
        lemma_flat_names_append(file, na + seq![names[j]], nb);
        lemma_flat_names_append(file, na, seq![names[j]]);
        assert(seq![names[j]].drop_last() =~= Seq::<(Seq<char>, Seq<VersionedContract<C>>)>::empty());
        assert(seq![names[j]].last() == names[j]);
        assert(flat_names(file, Seq::<(Seq<char>, Seq<VersionedContract<C>>)>::empty()) =~= Seq::<FlatEntry<C>>::empty());
        assert(flat_names(file, seq![names[j]]) =~= flat_versions(file, name, names[j].1));
        let pa = flat_files(fa);
        let pb = flat_names(file, na);
        let pv = flat_versions(file, name, names[j].1);
        let pc = flat_names(file, nb);
        let pd = flat_files(fb);
        assert(flat =~= pa + pb + pv + pc + pd);
        lemma_flat_files_members(fa);
        lemma_flat_files_members(fb);
        lemma_flat_names_members(file, na);
        lemma_flat_names_members(file, nb);
        assert forall|k: int| 0 <= k < pa.len() implies !at_file_and_name(#[trigger] pa[k], path, name) by {
            let i2 = choose|i2: int| 0 <= i2 < fa.len() && pa[k].0 == fa[i2].0 && exists|j2: int| 0 <= j2 < fa[i2].1.len() && pa[k].1 == fa[i2].1[j2].0;
            assert(fa[i2] == files[i2]);
        }
        assert forall|k: int| 0 <= k < pd.len() implies !at_file_and_name(#[trigger] pd[k], path, name) by {
            let i2 = choose|i2: int| 0 <= i2 < fb.len() && pd[k].0 == fb[i2].0 && exists|j2: int| 0 <= j2 < fb[i2].1.len() && pd[k].1 == fb[i2].1[j2].0;
            assert(fb[i2] == files[i + 1 + i2]);
        }
        assert forall|k: int| 0 <= k < pb.len() implies !at_file_and_name(#[trigger] pb[k], path, name) by {
            let j2 = choose|j2: int| 0 <= j2 < na.len() && pb[k].1 == na[j2].0;
            assert(na[j2] == names[j2]);
        }
        assert forall|k: int| 0 <= k < pc.len() implies !at_file_and_name(#[trigger] pc[k], path, name) by {
            let j2 = choose|j2: int| 0 <= j2 < nb.len() && pc[k].1 == nb[j2].0;
            assert(nb[j2] == names[j + 1 + j2]);
        }
        let base: int = (pa.len() + pb.len()) as int;
        if names[j].1.len() > 0 {
            assert(is_first_at(flat, path, name, base)) by {
                assert(flat[base] == pv[0]);
                assert forall|q: int| 0 <= q < base implies !at_file_and_name(#[trigger] flat[q], path, name) by {
                    if q < pa.len() {
                        assert(flat[q] == pa[q]);
                    } else {
                        assert(flat[q] == pb[q - pa.len()]);
                    }
                }
            }
        } else {
            assert forall|k: int| 0 <= k < flat.len() implies !at_file_and_name(#[trigger] flat[k], path, name) by {
                if k < pa.len() {
                    assert(flat[k] == pa[k]);
                } else if k < base {
                    assert(flat[k] == pb[k - pa.len()]);
                } else if k < base + pc.len() {
                    assert(flat[k] == pc[k - base]);
                } else {
                    assert(flat[k] == pd[k - base - pc.len()]);
                }
            }
        }
    } else {
        lemma_versions_at_none(files, path, name);
        assert forall|k: int| 0 <= k < flat.len() implies !at_file_and_name(#[trigger] flat[k], path, name) by {
            if at_file_and_name(flat[k], path, name) {
                let i = choose|i: int| 0 <= i < files.len() && flat[k].0 == files[i].0 && exists|j: int| 0 <= j < files[i].1.len() && flat[k].1 == files[i].1[j].0;
                let j = choose|j: int| 0 <= j < files[i].1.len() && flat[k].1 == files[i].1[j].0;
                // the first file with the path, and its first entry with the name
                assert(is_first_file(files, path, i)) by {
                    assert forall|q: int| 0 <= q < i implies !path_eq(#[trigger] files[q].0, path) by {
                        assert(path_lt(files[q].0, files[i].0));
                        crate::order::lemma_path_order(files[q].0, files[i].0, files[i].0);
                    }
                }
                let names = files[i].1;
                assert(is_first_name(names, name, j)) by {
                    assert(names_sorted(names));
                    assert forall|q: int| 0 <= q < j implies #[trigger] names[q].0 != name by {
                        assert(chars_lt(names[q].0, names[j].0));
                        crate::order::lemma_chars_order(names[q].0, names[j].0, names[j].0);
                    }
                }
            }
        }
    }
}

/// Whether a contract taken out of the collection, with its file, name and
/// version, is the given flattened entry.
pub open spec fn full_entry_of<C>(x: (String, String, C, Version), e: FlatEntry<C>) -> bool {
    &&& x.0@ == e.0
    &&& x.1@ == e.1
    &&& x.2 == e.2.contract
    &&& x.3 == e.2.version
}

/// The model of raw files.
pub open spec fn files_view<C>(v: Seq<(String, Vec<(String, Vec<VersionedContract<C>>)>)>) -> FilesView<C> {
    v.map_values(|e: (String, Vec<(String, Vec<VersionedContract<C>>)>)| (e.0@, names_view(e.1@)))
}

/// Puts an entry into sorted files.
fn put_file<C>(v: &mut Vec<(String, Vec<(String, Vec<VersionedContract<C>>)>)>, file: String, names: Vec<(String, Vec<VersionedContract<C>>)>)
    requires
        files_sorted(files_view(old(v)@)),
    ensures
        files_view(final(v)@) == file_put(files_view(old(v)@), file@, names_view(names@)),
{
    let ghost fv = files_view(v@);
    let mut p: usize = 0;
    let mut searching = true;
    while searching && p < v.len()
        invariant
            fv == files_view(v@),
            files_sorted(fv),
            p <= fv.len(),
            forall|k: int| 0 <= k < p ==> path_lt(#[trigger] fv[k].0, file@),
            !searching ==> p < fv.len() && !path_lt(fv[p as int].0, file@),
        decreases fv.len() - p + (if searching { 1int } else { 0int }),
    {
        match order_paths(v[p].0.as_str(), file.as_str()) {
            Order::Less => {
                p = p + 1;
            },
            _ => {
                searching = false;
            },
        }
    }
    proof {
        assert forall|k: int| p <= k < fv.len() implies !path_lt(#[trigger] fv[k].0, file@) by {
            if k > p {
                assert(path_lt(fv[p as int].0, fv[k].0));
                crate::order::lemma_path_order(fv[p as int].0, fv[k].0, file@);
            }
        }
        assert(file_slot(fv, file@, p as int));
        lemma_file_slot_exists(fv, file@);
        lemma_file_slot_unique(fv, file@, p as int, slot_of(fv, file@));
    }
    if p < v.len() && same_path(v[p].0.as_str(), file.as_str()) {
        let _ = v.remove(p);
        v.insert(p, (file, names));
    } else {
        v.insert(p, (file, names));
    }
    assert(files_view(v@) =~= file_put(fv, file@, names_view(names@)));
}

/// Takes the first version of `name` from the names of a file.
fn take_from_names<C>(names: &mut Vec<(String, Vec<VersionedContract<C>>)>, name: &str) -> (r: Option<C>)
    ensures
        (names_view(final(names)@), r) == names_take(names_view(old(names)@), name@),
{
    let ghost nv = names_view(names@);
    let mut j: usize = 0;
    let mut named = false;
    while !named && j < names.len()
        invariant
            names_view(names@) == nv,
            j <= nv.len(),
            forall|k: int| 0 <= k < j ==> #[trigger] nv[k].0 != name@,
            named ==> j < nv.len() && nv[j as int].0 == name@,
        decreases nv.len() - j + (if named { 0int } else { 1int }),
    {
        if same_str(names[j].0.as_str(), name) {
            named = true;
        } else {
            j = j + 1;
        }
    }
    if !named {
        assert(!exists|j2: int| is_first_name(nv, name@, j2));
        return None;
    }
    assert(is_first_name(nv, name@, j as int));
    proof {
        let j2 = choose|j2: int| is_first_name(nv, name@, j2);
        lemma_first_name_unique(nv, name@, j as int, j2);
    }
    let (nk, versions) = names.remove(j);
    let mut versions = versions;
    assert(versions@ == nv[j as int].1);
    let mut r: Option<C> = None;
    if versions.len() > 0 {
        let first = versions.remove(0);
        r = Some(first.contract);
    }
    if versions.len() > 0 {
        names.insert(j, (nk, versions));
    }
    assert(names_view(names@) =~= names_take(nv, name@).0);
    r
}

impl<C> VersionedContracts<C> {
    /// All contracts, flattened: files in order, names in order, versions in
    /// the order in which they were added.
    pub open spec fn flat(&self) -> Seq<FlatEntry<C>> {
        flat_files(self@)
    }

    /// The collection is shaped as a sorted map of sorted maps.
    pub open spec fn wf(&self) -> bool {
        files_wf(self@)
    }

    /// An empty collection.
    pub fn new() -> (r: Self)
        ensures
            r@ == FilesView::<C>::empty(),
            r.wf(),
    {
        VersionedContracts(Vec::new())
    }

    /// Whether no file has contracts.
    pub fn is_empty(&self) -> (r: bool)
        ensures
            r == (self@.len() == 0),
    {
        self.0.len() == 0
    }

    /// The number of files.
    pub fn len(&self) -> (r: usize)
        ensures
            r == self@.len(),
    {
        self.0.len()
    }

    /// All files, in order.
    pub fn files(&self) -> (r: Vec<&String>)
        ensures
            r@.len() == self@.len(),
            forall|i: int| 0 <= i < r@.len() ==> (#[trigger] r@[i])@ == self@[i].0,
    {
        let mut r: Vec<&String> = Vec::new();
        let mut i: usize = 0;
        while i < self.0.len()
            invariant
                i <= self.0@.len(),
                r@.len() == i,
                forall|k: int| 0 <= k < i ==> (#[trigger] r@[k])@ == self@[k].0,
            decreases self.0@.len() - i,
        {
            r.push(&self.0[i].0);
            i = i + 1;
        }
        r
    }

    /// All contracts with their files, names and versions, in order.
    pub fn contracts_with_files_and_version(&self) -> (r: Vec<(&String, &String, &C, &Version)>)
        ensures
            r@.len() == self.flat().len(),
            forall|k: int| 0 <= k < r@.len() ==> {
                &&& (#[trigger] r@[k]).0@ == self.flat()[k].0
                &&& r@[k].1@ == self.flat()[k].1
                &&& *r@[k].2 == self.flat()[k].2.contract
                &&& *r@[k].3 == self.flat()[k].2.version
            },
    {
        let ghost fv = self@;
        let mut r: Vec<(&String, &String, &C, &Version)> = Vec::new();
        let mut i: usize = 0;
        while i < self.0.len()
            invariant
                fv == self@,
                i <= self.0@.len(),
                r@.len() == flat_files(fv.take(i as int)).len(),
                forall|k: int| 0 <= k < r@.len() ==> {
                    &&& (#[trigger] r@[k]).0@ == flat_files(fv.take(i as int))[k].0
                    &&& r@[k].1@ == flat_files(fv.take(i as int))[k].1
                    &&& *r@[k].2 == flat_files(fv.take(i as int))[k].2.contract
                    &&& *r@[k].3 == flat_files(fv.take(i as int))[k].2.version
                },
            decreases self.0@.len() - i,
        {
            let file = &self.0[i].0;
            let names = &self.0[i].1;
            let ghost before = flat_files(fv.take(i as int));
            let ghost nv = names_view(names@);
            assert(nv == fv[i as int].1);
            let mut j: usize = 0;
            while j < names.len()
                invariant
                    i < self.0@.len(),
                    file@ == fv[i as int].0,
                    nv == names_view(names@),
                    j <= names@.len(),
                    r@.len() == before.len() + flat_names(file@, nv.take(j as int)).len(),
                    forall|k: int| 0 <= k < r@.len() ==> {
                        &&& (#[trigger] r@[k]).0@ == (before + flat_names(file@, nv.take(j as int)))[k].0
                        &&& r@[k].1@ == (before + flat_names(file@, nv.take(j as int)))[k].1
                        &&& *r@[k].2 == (before + flat_names(file@, nv.take(j as int)))[k].2.contract
                        &&& *r@[k].3 == (before + flat_names(file@, nv.take(j as int)))[k].2.version
                    },
                decreases names@.len() - j,
            {
                let name = &names[j].0;
                let versions = &names[j].1;
                let ghost mid = before + flat_names(file@, nv.take(j as int));
                assert(nv[j as int] == (name@, versions@));
                let mut m: usize = 0;
                while m < versions.len()
                    invariant
                        j < names@.len(),
                        nv[j as int] == (name@, versions@),
                        m <= versions@.len(),
                        r@.len() == mid.len() + m,
                        forall|k: int| 0 <= k < r@.len() ==> {
                            &&& (#[trigger] r@[k]).0@ == (mid + flat_versions(file@, name@, versions@.take(m as int)))[k].0
                            &&& r@[k].1@ == (mid + flat_versions(file@, name@, versions@.take(m as int)))[k].1
                            &&& *r@[k].2 == (mid + flat_versions(file@, name@, versions@.take(m as int)))[k].2.contract
                            &&& *r@[k].3 == (mid + flat_versions(file@, name@, versions@.take(m as int)))[k].2.version
                        },
                    decreases versions@.len() - m,
                {
                    let vc = &versions[m];
                    r.push((file, name, &vc.contract, &vc.version));
                    proof {
                        assert(versions@.take(m + 1) == versions@.take(m as int).push(versions@[m as int]));
                        lemma_flat_versions_push(file@, name@, versions@.take(m as int), versions@[m as int]);
                        assert(mid + flat_versions(file@, name@, versions@.take(m + 1)) =~= (mid + flat_versions(file@, name@, versions@.take(m as int))).push((file@, name@, versions@[m as int])));
                    }
                    m = m + 1;
                }
                proof {
                    assert(versions@.take(m as int) =~= versions@);
                    assert(nv.take(j + 1).drop_last() =~= nv.take(j as int));
                    assert(nv.take(j + 1).last() == nv[j as int]);
                    assert(before + flat_names(file@, nv.take(j + 1)) =~= mid + flat_versions(file@, name@, versions@));
                }
                j = j + 1;
            }
            proof {
                assert(nv.take(j as int) =~= nv);
                assert(fv.take(i + 1).drop_last() =~= fv.take(i as int));
                assert(fv.take(i + 1).last() == fv[i as int]);
            }
            i = i + 1;
        }
        assert(fv.take(i as int) =~= fv);
        r
    }
    /// All contracts with their files and names, in order.
    pub fn contracts_with_files(&self) -> (r: Vec<(&String, &String, &C)>)
        ensures
            r@.len() == self.flat().len(),
            forall|k: int| 0 <= k < r@.len() ==> {
                &&& (#[trigger] r@[k]).0@ == self.flat()[k].0
                &&& r@[k].1@ == self.flat()[k].1
                &&& *r@[k].2 == self.flat()[k].2.contract
            },
    {
        let all = self.contracts_with_files_and_version();
        let mut r: Vec<(&String, &String, &C)> = Vec::new();
        let mut k: usize = 0;
        while k < all.len()
            invariant
                all@.len() == self.flat().len(),
                forall|q: int| 0 <= q < all@.len() ==> {
                    &&& (#[trigger] all@[q]).0@ == self.flat()[q].0
                    &&& all@[q].1@ == self.flat()[q].1
                    &&& *all@[q].2 == self.flat()[q].2.contract
                },
                k <= all@.len(),
                r@.len() == k,
                forall|q: int| 0 <= q < k ==> {
                    &&& (#[trigger] r@[q]).0@ == self.flat()[q].0
                    &&& r@[q].1@ == self.flat()[q].1
                    &&& *r@[q].2 == self.flat()[q].2.contract
                },
            decreases all@.len() - k,
        {
            let e = all[k];
            r.push((e.0, e.1, e.2));
            k = k + 1;
        }
        r
    }

    /// All contracts with their names, in order.
    pub fn contracts(&self) -> (r: Vec<(&String, &C)>)
        ensures
            r@.len() == self.flat().len(),
            forall|k: int| 0 <= k < r@.len() ==> {
                &&& (#[trigger] r@[k]).0@ == self.flat()[k].1
                &&& *r@[k].1 == self.flat()[k].2.contract
            },
    {
        let all = self.contracts_with_files_and_version();
        let mut r: Vec<(&String, &C)> = Vec::new();
        let mut k: usize = 0;
        while k < all.len()
            invariant
                all@.len() == self.flat().len(),
                forall|q: int| 0 <= q < all@.len() ==> {
                    &&& (#[trigger] all@[q]).1@ == self.flat()[q].1
                    &&& *all@[q].2 == self.flat()[q].2.contract
                },
                k <= all@.len(),
                r@.len() == k,
                forall|q: int| 0 <= q < k ==> {
                    &&& (#[trigger] r@[q]).0@ == self.flat()[q].1
                    &&& *r@[q].1 == self.flat()[q].2.contract
                },
            decreases all@.len() - k,
        {
            let e = all[k];
            r.push((e.1, e.2));
            k = k + 1;
        }
        r
    }

    /// The first contract with the given name, in the order of
    /// [`Self::contracts`].
    pub fn find_first(&self, contract: &str) -> (r: Option<&C>)
        ensures
            match r {
                Some(c) => exists|k: int| #[trigger] is_first_named(self.flat(), contract@, k) && *c == self.flat()[k].2.contract,
                None => forall|k: int| 0 <= k < self.flat().len() ==> (#[trigger] self.flat()[k]).1 != contract@,
            },
    {
        let all = self.contracts();
        let mut k: usize = 0;
        while k < all.len()
            invariant
                all@.len() == self.flat().len(),
                forall|q: int| 0 <= q < all@.len() ==> {
                    &&& (#[trigger] all@[q]).0@ == self.flat()[q].1
                    &&& *all@[q].1 == self.flat()[q].2.contract
                },
                k <= all@.len(),
                forall|q: int| 0 <= q < k ==> (#[trigger] self.flat()[q]).1 != contract@,
            decreases all@.len() - k,
        {
            let e = all[k];
            if same_str(e.0.as_str(), contract) {
                assert(is_first_named(self.flat(), contract@, k as int));
                return Some(e.1);
            }
            k = k + 1;
        }
        None
    }

    /// The first contract of the given file and name, in the order of
    /// [`Self::contracts_with_files`]; files are matched as paths.
    pub fn find(&self, path: &str, contract: &str) -> (r: Option<&C>)
        ensures
            match r {
                Some(c) => exists|k: int| #[trigger] is_first_at(self.flat(), path@, contract@, k) && *c == self.flat()[k].2.contract,
                None => forall|k: int| 0 <= k < self.flat().len() ==> !at_file_and_name(#[trigger] self.flat()[k], path@, contract@),
            },
    {
        let all = self.contracts_with_files();
        let mut k: usize = 0;
        while k < all.len()
            invariant
                all@.len() == self.flat().len(),
                forall|q: int| 0 <= q < all@.len() ==> {
                    &&& (#[trigger] all@[q]).0@ == self.flat()[q].0
                    &&& all@[q].1@ == self.flat()[q].1
                    &&& *all@[q].2 == self.flat()[q].2.contract
                },
                k <= all@.len(),
                forall|q: int| 0 <= q < k ==> !at_file_and_name(#[trigger] self.flat()[q], path@, contract@),
            decreases all@.len() - k,
        {
            let e = all[k];
            if same_path(e.0.as_str(), path) && same_str(e.1.as_str(), contract) {
                assert(is_first_at(self.flat(), path@, contract@, k as int));
                return Some(e.2);
            }
            k = k + 1;
        }
        None
    }

    /// The first version of the contract `contract` in the file `path`.
    pub fn get(&self, path: &str, contract: &str) -> (r: Option<&C>)
        ensures
            match r {
                Some(c) => versions_at(self@, path@, contract@).len() > 0 && *c == versions_at(self@, path@, contract@)[0].contract,
                None => versions_at(self@, path@, contract@).len() == 0,
            },
    {
        let ghost fv = self@;
        let mut i: usize = 0;
        while i < self.0.len()
            invariant
                fv == self@,
                i <= fv.len(),
                forall|k: int| 0 <= k < i ==> !path_eq(#[trigger] fv[k].0, path@),
            decreases fv.len() - i,
        {
            if same_path(self.0[i].0.as_str(), path) {
                assert(is_first_file(fv, path@, i as int));
                let names = &self.0[i].1;
                let ghost nv = fv[i as int].1;
                let mut j: usize = 0;
                while j < names.len()
                    invariant
                        fv == self@,
                        i < fv.len(),
                        is_first_file(fv, path@, i as int),
                        nv == fv[i as int].1,
                        nv == names_view(names@),
                        j <= nv.len(),
                        forall|k: int| 0 <= k < j ==> #[trigger] nv[k].0 != contract@,
                    decreases nv.len() - j,
                {
                    if same_str(names[j].0.as_str(), contract) {
                        proof {
                            assert(is_first_name(nv, contract@, j as int));
                            lemma_versions_at(fv, path@, contract@, i as int, j as int);
                        }
                        let versions = &names[j].1;
                        assert(versions@ == nv[j as int].1);
                        assert(versions@ == versions_at(fv, path@, contract@));
                        if versions.len() > 0 {
                            return Some(&versions[0].contract);
                        } else {
                            return None;
                        }
                    }
                    j = j + 1;
                }
                proof {
                    assert forall|i2: int, j2: int| !(is_first_file(fv, path@, i2) && is_first_name(fv[i2].1, contract@, j2)) by {
                        if is_first_file(fv, path@, i2) && is_first_name(fv[i2].1, contract@, j2) {
                            lemma_first_file_unique(fv, path@, i as int, i2);
                        }
                    }
                    lemma_versions_at_none(fv, path@, contract@);
                }
                return None;
            }
            i = i + 1;
        }
        proof {
            assert forall|i2: int, j2: int| !(is_first_file(fv, path@, i2) && is_first_name(fv[i2].1, contract@, j2)) by {
                if is_first_file(fv, path@, i2) {
                    assert(!path_eq(fv[i2].0, path@));
                }
            }
            lemma_versions_at_none(fv, path@, contract@);
        }
        None
    }
    /// All contracts with their files, names and versions, in order, taken
    /// out of the collection.
    pub fn into_contracts_with_files_and_version(self) -> (r: Vec<(String, String, C, Version)>)
        ensures
            r@.len() == self.flat().len(),
            forall|k: int| 0 <= k < r@.len() ==> full_entry_of(#[trigger] r@[k], self.flat()[k]),
    {
        let ghost fv = self@;
        let ghost all = self.flat();
        let mut files = self.0;
        let mut r: Vec<(String, String, C, Version)> = Vec::new();
        let ghost mut i: int = 0;
        while files.len() > 0
            invariant
                0 <= i <= fv.len(),
                all == flat_files(fv),
                files@.map_values(|e: (String, Vec<(String, Vec<VersionedContract<C>>)>)| (e.0@, names_view(e.1@))) == fv.skip(i),
                r@.len() == flat_files(fv.take(i)).len(),
                forall|k: int| 0 <= k < r@.len() ==> full_entry_of(#[trigger] r@[k], flat_files(fv.take(i))[k]),
            decreases files@.len(),
        {
            let ghost before = flat_files(fv.take(i));
            assert(fv.skip(i).len() == files@.len());
            assert(i < fv.len());
            assert(fv.skip(i)[0] == fv[i]);
            assert(fv.skip(i)[0] == (files@[0].0@, names_view(files@[0].1@)));
            let ghost pf = files@;
            let (file, names) = files.remove(0);
            proof {
                assert(files@.map_values(|e: (String, Vec<(String, Vec<VersionedContract<C>>)>)| (e.0@, names_view(e.1@))) =~= pf.map_values(|e: (String, Vec<(String, Vec<VersionedContract<C>>)>)| (e.0@, names_view(e.1@))).drop_first());
                assert(fv.skip(i).drop_first() =~= fv.skip(i + 1));
            }
            let ghost nv = names_view(names@);
            assert(fv[i] == (file@, nv));
            let mut names = names;
            let ghost mut j: int = 0;
            while names.len() > 0
                invariant
                    0 <= j <= nv.len(),
                    names_view(names@) == nv.skip(j),
                    r@.len() == before.len() + flat_names(file@, nv.take(j)).len(),
                    forall|k: int| 0 <= k < r@.len() ==> full_entry_of(#[trigger] r@[k], (before + flat_names(file@, nv.take(j)))[k]),
                decreases names@.len(),
            {
                let ghost mid = before + flat_names(file@, nv.take(j));
                assert(nv.skip(j).len() == names@.len());
                assert(j < nv.len());
                assert(nv.skip(j)[0] == nv[j]);
                assert(nv.skip(j)[0] == (names@[0].0@, names@[0].1@));
                let ghost pn = names@;
                let (name, versions) = names.remove(0);
                proof {
                    assert(names_view(names@) =~= names_view(pn).drop_first());
                    assert(nv.skip(j).drop_first() =~= nv.skip(j + 1));
                }
                let ghost vs = versions@;
                assert(nv[j] == (name@, vs));
                let mut versions = versions;
                let ghost mut m: int = 0;
                while versions.len() > 0
                    invariant
                        0 <= m <= vs.len(),
                        versions@ == vs.skip(m),
                        r@.len() == mid.len() + m,
                        forall|k: int| 0 <= k < r@.len() ==> full_entry_of(#[trigger] r@[k], (mid + flat_versions(file@, name@, vs.take(m)))[k]),
                    decreases versions@.len(),
                {
                    assert(vs.skip(m)[0] == versions@[0]);
                    let vc = versions.remove(0);
                    r.push((file.clone(), name.clone(), vc.contract, vc.version));
                    proof {
                        assert(vs.take(m + 1) == vs.take(m).push(vs[m]));
                        lemma_flat_versions_push(file@, name@, vs.take(m), vs[m]);
                        assert(mid + flat_versions(file@, name@, vs.take(m + 1)) =~= (mid + flat_versions(file@, name@, vs.take(m))).push((file@, name@, vs[m])));
                        assert(versions@ =~= vs.skip(m + 1));
                        m = m + 1;
                    }
                }
                proof {
                    assert(m == vs.len());
                    assert(vs.take(m) =~= vs);
                    assert(nv.take(j + 1).drop_last() =~= nv.take(j));
                    assert(nv.take(j + 1).last() == nv[j]);
                    assert(before + flat_names(file@, nv.take(j + 1)) =~= mid + flat_versions(file@, name@, vs));
                    j = j + 1;
                }
            }
            proof {
                assert(nv.skip(j).len() == 0);
                assert(nv.take(j) =~= nv);
                assert(fv.take(i + 1).drop_last() =~= fv.take(i));
                assert(fv.take(i + 1).last() == fv[i]);
                i = i + 1;
            }
        }
        proof {
            assert(fv.skip(i).len() == 0);
            assert(fv.take(i) =~= fv);
        }
        r
    }

    /// All contracts with their files and names, in order, taken out of the
    /// collection.
    pub fn into_contracts_with_files(self) -> (r: Vec<(String, String, C)>)
        ensures
            r@.len() == self.flat().len(),
            forall|k: int| 0 <= k < r@.len() ==> {
                &&& (#[trigger] r@[k]).0@ == self.flat()[k].0
                &&& r@[k].1@ == self.flat()[k].1
                &&& r@[k].2 == self.flat()[k].2.contract
            },
    {
        let ghost all = self.flat();
        let mut full = self.into_contracts_with_files_and_version();
        let mut r: Vec<(String, String, C)> = Vec::new();
        let ghost mut k: int = 0;
        while full.len() > 0
            invariant
                0 <= k <= all.len(),
                full@.len() == all.len() - k,
                forall|q: int| 0 <= q < full@.len() ==> full_entry_of(#[trigger] full@[q], all[k + q]),
                r@.len() == k,
                forall|q: int| 0 <= q < k ==> {
                    &&& (#[trigger] r@[q]).0@ == all[q].0
                    &&& r@[q].1@ == all[q].1
                    &&& r@[q].2 == all[q].2.contract
                },
            decreases full@.len(),
        {
            assert(full_entry_of(full@[0], all[k + 0]));
            let ghost prev = full@;
            let e = full.remove(0);
            r.push((e.0, e.1, e.2));
            proof {
                assert forall|q: int| 0 <= q < full@.len() implies full_entry_of(#[trigger] full@[q], all[(k + 1) + q]) by {
                    assert(full_entry_of(prev[q + 1], all[k + (q + 1)]));
                }
                k = k + 1;
            }
        }
        r
    }

    /// All contracts with their names, in order, taken out of the collection.
    pub fn into_contracts(self) -> (r: Vec<(String, C)>)
        ensures
            r@.len() == self.flat().len(),
            forall|k: int| 0 <= k < r@.len() ==> {
                &&& (#[trigger] r@[k]).0@ == self.flat()[k].1
                &&& r@[k].1 == self.flat()[k].2.contract
            },
    {
        let ghost all = self.flat();
        let mut full = self.into_contracts_with_files_and_version();
        let mut r: Vec<(String, C)> = Vec::new();
        let ghost mut k: int = 0;
        while full.len() > 0
            invariant
                0 <= k <= all.len(),
                full@.len() == all.len() - k,
                forall|q: int| 0 <= q < full@.len() ==> full_entry_of(#[trigger] full@[q], all[k + q]),
                r@.len() == k,
                forall|q: int| 0 <= q < k ==> {
                    &&& (#[trigger] r@[q]).0@ == all[q].1
                    &&& r@[q].1 == all[q].2.contract
                },
            decreases full@.len(),
        {
            assert(full_entry_of(full@[0], all[k + 0]));
            let ghost prev = full@;
            let e = full.remove(0);
            r.push((e.1, e.2));
            proof {
                assert forall|q: int| 0 <= q < full@.len() implies full_entry_of(#[trigger] full@[q], all[(k + 1) + q]) by {
                    assert(full_entry_of(prev[q + 1], all[k + (q + 1)]));
                }
                k = k + 1;
            }
        }
        r
    }
    /// Adds a compiled contract under its file and name: after the versions
    /// already there, or as a new entry at its place in order. A file that is
    /// present keeps the key it has.
    pub fn insert(&mut self, file: String, name: String, contract: VersionedContract<C>)
        requires
            old(self).wf(),
        ensures
            final(self).wf(),
            exists|p: int, q: int| {
                &&& file_slot(old(self)@, file@, p)
                &&& (p < old(self)@.len() && path_eq(old(self)@[p].0, file@) ==> name_slot(old(self)@[p].1, name@, q))
                &&& final(self)@ == files_with(old(self)@, file@, name@, contract, p, q)
            },
    {
        let ghost fv = self@;
        let mut p: usize = 0;
        let mut searching = true;
        while searching && p < self.0.len()
            invariant
                fv == self@,
                files_wf(fv),
                p <= fv.len(),
                forall|k: int| 0 <= k < p ==> path_lt(#[trigger] fv[k].0, file@),
                !searching ==> p < fv.len() && !path_lt(fv[p as int].0, file@),
            decreases fv.len() - p + (if searching { 1int } else { 0int }),
        {
            match order_paths(self.0[p].0.as_str(), file.as_str()) {
                Order::Less => {
                    p = p + 1;
                },
                _ => {
                    searching = false;
                },
            }
        }
        proof {
            assert forall|k: int| p <= k < fv.len() implies !path_lt(#[trigger] fv[k].0, file@) by {
                if k > p {
                    assert(path_lt(fv[p as int].0, fv[k].0));
                    crate::order::lemma_path_order(fv[p as int].0, fv[k].0, file@);
                }
            }
            assert(file_slot(fv, file@, p as int));
        }
        if p < self.0.len() && same_path(self.0[p].0.as_str(), file.as_str()) {
            let ghost nv0 = fv[p as int].1;
            let (key, names) = self.0.remove(p);
            let mut names = names;
            assert(names_view(names@) == nv0);
            let mut q: usize = 0;
            let mut looking = true;
            while looking && q < names.len()
                invariant
                    names_view(names@) == nv0,
                    names_sorted(nv0),
                    q <= nv0.len(),
                    forall|k: int| 0 <= k < q ==> chars_lt(#[trigger] nv0[k].0, name@),
                    !looking ==> q < nv0.len() && !chars_lt(nv0[q as int].0, name@),
                decreases nv0.len() - q + (if looking { 1int } else { 0int }),
            {
                match order_strs(names[q].0.as_str(), name.as_str()) {
                    Order::Less => {
                        q = q + 1;
                    },
                    _ => {
                        looking = false;
                    },
                }
            }
            proof {
                assert forall|k: int| q <= k < nv0.len() implies !chars_lt(#[trigger] nv0[k].0, name@) by {
                    if k > q {
                        assert(chars_lt(nv0[q as int].0, nv0[k].0));
                        crate::order::lemma_chars_order(nv0[q as int].0, nv0[k].0, name@);
                    }
                }
                assert(name_slot(nv0, name@, q as int));
            }
            if q < names.len() && same_str(names[q].0.as_str(), name.as_str()) {
                let (nk, versions) = names.remove(q);
                let mut versions = versions;
                versions.push(contract);
                names.insert(q, (nk, versions));
                assert(names_view(names@) =~= names_with(nv0, name@, contract, q as int));
            } else {
                let mut versions: Vec<VersionedContract<C>> = Vec::new();
                versions.push(contract);
                names.insert(q, (name, versions));
                assert(names_view(names@) =~= names_with(nv0, name@, contract, q as int));
            }
            self.0.insert(p, (key, names));
            assert(self@ =~= files_with(fv, file@, name@, contract, p as int, q as int));
            proof {
                lemma_files_with_wf(fv, file@, name@, contract, p as int, q as int);
            }
        } else {
            let mut versions: Vec<VersionedContract<C>> = Vec::new();
            versions.push(contract);
            let mut names: Vec<(String, Vec<VersionedContract<C>>)> = Vec::new();
            names.push((name, versions));
            assert(names_view(names@) =~= seq![(name@, seq![contract])]);
            self.0.insert(p, (file, names));
            assert(self@ =~= files_with(fv, file@, name@, contract, p as int, 0));
            proof {
                lemma_files_with_wf(fv, file@, name@, contract, p as int, 0);
            }
        }
    }
    /// Takes from the entry for `contract` in the file `path` its first
    /// version and gives back that version's contract; an entry left with no
    /// versions goes, and so does a file left with no entries.
    pub fn remove(&mut self, path: &str, contract: &str) -> (r: Option<C>)
        ensures
            final(self)@ == files_without(old(self)@, path@, contract@),
            r == (if versions_at(old(self)@, path@, contract@).len() > 0 {
                Some(versions_at(old(self)@, path@, contract@)[0].contract)
            } else {
                None::<C>
            }),
            old(self).wf() ==> final(self).wf(),
    {
        let ghost fv = self@;
        let mut i: usize = 0;
        let mut found = false;
        while !found && i < self.0.len()
            invariant
                fv == self@,
                i <= fv.len(),
                forall|k: int| 0 <= k < i ==> !path_eq(#[trigger] fv[k].0, path@),
                found ==> i < fv.len() && path_eq(fv[i as int].0, path@),
            decreases fv.len() - i + (if found { 0int } else { 1int }),
        {
            if same_path(self.0[i].0.as_str(), path) {
                found = true;
            } else {
                i = i + 1;
            }
        }
        if !found {
            proof {
                assert forall|i2: int, j2: int| !(is_first_file(fv, path@, i2) && is_first_name(fv[i2].1, contract@, j2)) by {
                    if is_first_file(fv, path@, i2) {
                        assert(!path_eq(fv[i2].0, path@));
                    }
                }
                lemma_versions_at_none(fv, path@, contract@);
                assert(!exists|i2: int| is_first_file(fv, path@, i2));
            }
            return None;
        }
        assert(is_first_file(fv, path@, i as int));
        proof {
            let i2 = choose|i2: int| is_first_file(fv, path@, i2);
            lemma_first_file_unique(fv, path@, i as int, i2);
        }
        let ghost nv = fv[i as int].1;
        let (key, names) = self.0.remove(i);
        let mut names = names;
        assert(names_view(names@) == nv);
        let r = take_from_names(&mut names, contract);
        proof {
            if exists|j: int| is_first_name(nv, contract@, j) {
                let j = choose|j: int| is_first_name(nv, contract@, j);
                lemma_versions_at(fv, path@, contract@, i as int, j);
            } else {
                assert forall|i2: int, j2: int| !(is_first_file(fv, path@, i2) && is_first_name(fv[i2].1, contract@, j2)) by {
                    if is_first_file(fv, path@, i2) {
                        lemma_first_file_unique(fv, path@, i as int, i2);
                    }
                }
                lemma_versions_at_none(fv, path@, contract@);
            }
        }
        if names.len() > 0 {
            self.0.insert(i, (key, names));
        }
        assert(self@ =~= files_without(fv, path@, contract@));
        proof {
            if files_wf(fv) {
                assert(names_sorted(nv));
                lemma_names_take_sorted(nv, contract@);
                let f = self@;
                if names@.len() > 0 {
                    assert forall|a: int, b: int| 0 <= a < b < f.len() implies path_lt(#[trigger] f[a].0, #[trigger] f[b].0) by {
                        assert(f[a].0 == fv[a].0);
                        assert(f[b].0 == fv[b].0);
                    }
                    assert forall|a: int| 0 <= a < f.len() implies names_sorted(#[trigger] f[a].1) by {
                        if a != i {
                            assert(f[a] == fv[a]);
                        }
                    }
                } else {
                    assert forall|a: int, b: int| 0 <= a < b < f.len() implies path_lt(#[trigger] f[a].0, #[trigger] f[b].0) by {
                        let a1 = if a < i { a } else { a + 1 };
                        let b1 = if b < i { b } else { b + 1 };
                        assert(f[a] == fv[a1]);
                        assert(f[b] == fv[b1]);
                    }
                    assert forall|a: int| 0 <= a < f.len() implies names_sorted(#[trigger] f[a].1) by {
                        let a1 = if a < i { a } else { a + 1 };
                        assert(f[a] == fv[a1]);
                    }
                }
            }
        }
        r
    }
    /// Takes the first version of the first contract named `contract`,
    /// searching the files in order, and gives back its contract; an entry
    /// left with no versions goes (files stay).
    pub fn remove_first(&mut self, contract: &str) -> (r: Option<C>)
        ensures
            (final(self)@, r) == files_take_first(old(self)@, contract@),
            old(self).wf() ==> final(self).wf(),
    {
        let ghost fv = self@;
        let mut i: usize = 0;
        while i < self.0.len()
            invariant
                fv == old(self)@,
                0 <= i <= fv.len(),
                self@.len() == fv.len(),
                forall|k: int| 0 <= k < i ==> names_take(#[trigger] fv[k].1, contract@).1 is None,
                self@ == searched(fv, contract@, i as int) + fv.skip(i as int),
                files_wf(fv) ==> files_wf(self@),
            decreases fv.len() - i,
        {
            let ghost before = self@;
            assert(before[i as int] == fv[i as int]);
            let (key, names) = self.0.remove(i);
            let mut names = names;
            assert(names_view(names@) == fv[i as int].1);
            assert(key@ == fv[i as int].0);
            let r = take_from_names(&mut names, contract);
            let ghost nt = names_view(names@);
            assert(nt == names_take(fv[i as int].1, contract@).0);
            self.0.insert(i, (key, names));
            assert(self@ =~= before.update(i as int, (fv[i as int].0, nt)));
            proof {
                if files_wf(fv) {
                    assert(names_sorted(fv[i as int].1));
                    lemma_names_take_sorted(fv[i as int].1, contract@);
                    let f = self@;
                    assert forall|a: int, b: int| 0 <= a < b < f.len() implies path_lt(#[trigger] f[a].0, #[trigger] f[b].0) by {
                        assert(f[a].0 == before[a].0);
                        assert(f[b].0 == before[b].0);
                    }
                    assert forall|a: int| 0 <= a < f.len() implies names_sorted(#[trigger] f[a].1) by {
                        if a != i {
                            assert(f[a] == before[a]);
                        }
                    }
                }
            }
            if r.is_some() {
                proof {
                    lemma_take_first_prefix(fv, contract@, i as int);
                    let t = fv.skip(i as int);
                    assert(t[0] == fv[i as int]);
                    assert(self@ =~= searched(fv, contract@, i as int) + t.update(0, (t[0].0, names_take(t[0].1, contract@).0)));
                }
                return r;
            }
            proof {
                assert(self@ =~= searched(fv, contract@, i + 1) + fv.skip(i + 1));
            }
            i = i + 1;
        }
        proof {
            lemma_take_first_prefix(fv, contract@, i as int);
            assert(fv.skip(i as int).len() == 0);
            assert(self@ =~= searched(fv, contract@, i as int));
        }
        None
    }
    /// Joins every file path onto `root`; entries whose joined paths name the
    /// same path are merged as a sorted map collects them, the last staying.
    pub fn join_all(&mut self, root: &str) -> (r: &mut Self)
        ensures
            *final(r) == *final(self),
            (*r)@ == files_collected(files_joined(old(self)@, root@)),
            files_sorted((*r)@),
            old(self).wf() ==> (*r).wf(),
    {
        let ghost fv = self@;
        let ghost entries = files_joined(fv, root@);
        let mut out: Vec<(String, Vec<(String, Vec<VersionedContract<C>>)>)> = Vec::new();
        let ghost mut i: int = 0;
        while self.0.len() > 0
            invariant
                0 <= i <= fv.len(),
                entries == files_joined(fv, root@),
                self@ == fv.skip(i),
                files_view(out@) == files_collected(entries.take(i)),
                files_sorted(files_view(out@)),
            decreases self.0@.len(),
        {
            let ghost pr = self.0@;
            assert(fv.skip(i).len() == self.0@.len());
            assert(fv.skip(i)[0] == fv[i]);
            let (file, names) = self.0.remove(0);
            let joined = crate::paths::join(root, file.as_str());
            proof {
                assert(files_view(self.0@) =~= files_view(pr).drop_first());
                assert(fv.skip(i).drop_first() =~= fv.skip(i + 1));
                assert(entries.take(i + 1).drop_last() =~= entries.take(i));
                assert(entries[i] == (joined@, names_view(names@)));
                lemma_file_put_sorted(files_collected(entries.take(i)), joined@, names_view(names@));
            }
            put_file(&mut out, joined, names);
            proof {
                i = i + 1;
            }
        }
        proof {
            assert(entries.take(i) =~= entries);
            if files_wf(fv) {
                assert(all_names_sorted(entries)) by {
                    assert forall|k: int| 0 <= k < entries.len() implies names_sorted(#[trigger] entries[k].1) by {
                        assert(entries[k].1 == fv[k].1);
                    }
                }
                lemma_collected_wf(entries);
            }
        }
        self.0 = out;
        self
    }

    /// Takes `base` off the front of every file path it begins; entries whose
    /// paths then name the same path are merged as a sorted map collects them,
    /// the last staying.
    pub fn strip_prefix_all(&mut self, base: &str) -> (r: &mut Self)
        ensures
            *final(r) == *final(self),
            (*r)@ == files_collected(files_stripped(old(self)@, base@)),
            files_sorted((*r)@),
            old(self).wf() ==> (*r).wf(),
    {
        let ghost fv = self@;
        let ghost entries = files_stripped(fv, base@);
        let mut out: Vec<(String, Vec<(String, Vec<VersionedContract<C>>)>)> = Vec::new();
        let ghost mut i: int = 0;
        while self.0.len() > 0
            invariant
                0 <= i <= fv.len(),
                entries == files_stripped(fv, base@),
                self@ == fv.skip(i),
                files_view(out@) == files_collected(entries.take(i)),
                files_sorted(files_view(out@)),
            decreases self.0@.len(),
        {
            let ghost pr = self.0@;
            assert(fv.skip(i).len() == self.0@.len());
            assert(fv.skip(i)[0] == fv[i]);
            let (file, names) = self.0.remove(0);
            let joined = crate::paths::strip_prefix_or_same(file, base);
            proof {
                assert(files_view(self.0@) =~= files_view(pr).drop_first());
                assert(fv.skip(i).drop_first() =~= fv.skip(i + 1));
                assert(entries.take(i + 1).drop_last() =~= entries.take(i));
                assert(entries[i] == (joined@, names_view(names@)));
                lemma_file_put_sorted(files_collected(entries.take(i)), joined@, names_view(names@));
            }
            put_file(&mut out, joined, names);
            proof {
                i = i + 1;
            }
        }
        proof {
            assert(entries.take(i) =~= entries);
            if files_wf(fv) {
                assert(all_names_sorted(entries)) by {
                    assert forall|k: int| 0 <= k < entries.len() implies names_sorted(#[trigger] entries[k].1) by {
                        assert(entries[k].1 == fv[k].1);
                    }
                }
                lemma_collected_wf(entries);
            }
        }
        self.0 = out;
        self
    }

    /// Converts `\\` separators to `/`; on Unix, where paths are written
    /// with `/` already, nothing changes.
    pub fn slash_paths(&mut self)
        ensures
            final(self)@ == old(self)@,
    {
    }
}

impl<C> Default for VersionedContracts<C> {
    fn default() -> (r: Self)
        ensures
            r@ == FilesView::<C>::empty(),
    {
        VersionedContracts(Vec::new())
    }
}

} // verus!
