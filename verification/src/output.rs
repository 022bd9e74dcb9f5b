//! The output of one compiler run: its errors, its contracts by file and name,
//! and its source files, both maps kept in path order.

use crate::contracts::{
    file_put, file_slot, files_collected, files_joined, files_sorted, lemma_file_put_sorted,
    lemma_file_slot_exists, lemma_file_slot_unique, lemma_files_insert_sorted, names_sorted, slot_of,
};
use crate::order::{order_paths, path_eq, path_lt, same_str, Order};
use crate::paths::join;
use vstd::prelude::*;

verus! {

/// The keys of raw entries taken by their text, the values as they are.
pub open spec fn keyed<V>(v: Seq<(String, V)>) -> Seq<(Seq<char>, V)> {
    v.map_values(|e: (String, V)| (e.0@, e.1))
}

/// Lowercase text, as `str::to_lowercase` gives it.
pub uninterp spec fn spec_lowercase(s: Seq<char>) -> Seq<char>;

/// `str::to_lowercase`: the string with every character mapped to its
/// lowercase form under Unicode's rules. The contract names the result and
/// states nothing more of it.
#[verifier::external_body]
fn lowercase(s: &str) -> (r: String)
    ensures
        r@ == spec_lowercase(s@),
{
    s.to_lowercase()
}

/// Whether one of `files` names `key` once both are lowercased.
pub open spec fn listed(files: Seq<Seq<char>>, key: Seq<char>) -> bool {
    exists|i: int| 0 <= i < files.len() && spec_lowercase(#[trigger] files[i]) == spec_lowercase(key)
}

/// The entries whose keys are listed, in order.
pub open spec fn retained<V>(entries: Seq<(Seq<char>, V)>, files: Seq<Seq<char>>) -> Seq<(Seq<char>, V)>
    decreases entries.len(),
{
    if entries.len() == 0 {
        Seq::empty()
    } else {
        let rest = retained(entries.drop_last(), files);
        if listed(files, entries.last().0) {
            rest.push(entries.last())
        } else {
            rest
        }
    }
}

/// The entries with `(key, value)` inserted as a sorted map inserts: a key
/// with the same path keeps its text and takes the value; otherwise the entry
/// goes in at its place in order.
pub open spec fn key_insert<V>(entries: Seq<(Seq<char>, V)>, key: Seq<char>, value: V) -> Seq<(Seq<char>, V)> {
    let p = slot_of(entries, key);
    if p < entries.len() && path_eq(entries[p].0, key) {
        entries.update(p, (entries[p].0, value))
    } else {
        entries.insert(p, (key, value))
    }
}

/// The entries extended with others, one after the other, as a sorted map is
/// extended.
pub open spec fn keys_extended<V>(entries: Seq<(Seq<char>, V)>, more: Seq<(Seq<char>, V)>) -> Seq<(Seq<char>, V)>
    decreases more.len(),
{
    if more.len() == 0 {
        entries
    } else {
        key_insert(keys_extended(entries, more.drop_last()), more.last().0, more.last().1)
    }
}

proof fn lemma_key_insert_sorted<V>(entries: Seq<(Seq<char>, V)>, key: Seq<char>, value: V)
    requires
        files_sorted(entries),
    ensures
        files_sorted(key_insert(entries, key, value)),
{
    lemma_file_slot_exists(entries, key);
    let p = slot_of(entries, key);
    let r = key_insert(entries, key, value);
    if p < entries.len() && path_eq(entries[p].0, key) {
        assert forall|i: int, j: int| 0 <= i < j < r.len() implies path_lt(#[trigger] r[i].0, #[trigger] r[j].0) by {
            assert(path_lt(entries[i].0, entries[j].0));
        }
    } else {
        lemma_files_insert_sorted(entries, key, p, value);
    }
}

/// The slot of `key` among sorted entries.
fn find_slot<V>(v: &Vec<(String, V)>, key: &str) -> (p: usize)
    requires
        files_sorted(keyed(v@)),
    ensures
        p == slot_of(keyed(v@), key@),
        file_slot(keyed(v@), key@, p as int),
{
    let ghost kv = keyed(v@);
    let mut p: usize = 0;
    let mut searching = true;
    while searching && p < v.len()
        invariant
            kv == keyed(v@),
            files_sorted(kv),
            p <= kv.len(),
            forall|k: int| 0 <= k < p ==> path_lt(#[trigger] kv[k].0, key@),
            !searching ==> p < kv.len() && !path_lt(kv[p as int].0, key@),
        decreases kv.len() - p + (if searching { 1int } else { 0int }),
    {
        match order_paths(v[p].0.as_str(), key) {
            Order::Less => {
                p = p + 1;
            },
            _ => {
                searching = false;
            },
        }
    }
    proof {
        assert forall|k: int| p <= k < kv.len() implies !path_lt(#[trigger] kv[k].0, key@) by {
            if k > p {
                assert(path_lt(kv[p as int].0, kv[k].0));
                crate::order::lemma_path_order(kv[p as int].0, kv[k].0, key@);
            }
        }
        lemma_file_slot_exists(kv, key@);
        lemma_file_slot_unique(kv, key@, p as int, slot_of(kv, key@));
    }
    p
}

/// Inserts into sorted entries, as a sorted map inserts.
fn insert_keyed<V>(v: &mut Vec<(String, V)>, key: String, value: V)
    requires
        files_sorted(keyed(old(v)@)),
    ensures
        keyed(final(v)@) == key_insert(keyed(old(v)@), key@, value),
        files_sorted(keyed(final(v)@)),
{
    let ghost kv = keyed(v@);
    let p = find_slot(v, key.as_str());
    proof {
        lemma_key_insert_sorted(kv, key@, value);
    }
    if p < v.len() && crate::order::same_path(v[p].0.as_str(), key.as_str()) {
        let (k, _) = v.remove(p);
        v.insert(p, (k, value));
    } else {
        v.insert(p, (key, value));
    }
    assert(keyed(v@) =~= key_insert(kv, key@, value));
}

/// Puts into sorted entries, as a sorted map is collected: a key with the same
/// path is replaced, key and value.
fn put_keyed<V>(v: &mut Vec<(String, V)>, key: String, value: V)
    requires
        files_sorted(keyed(old(v)@)),
    ensures
        keyed(final(v)@) == file_put(keyed(old(v)@), key@, value),
        files_sorted(keyed(final(v)@)),
{
    let ghost kv = keyed(v@);
    let p = find_slot(v, key.as_str());
    proof {
        lemma_file_put_sorted(kv, key@, value);
    }
    if p < v.len() && crate::order::same_path(v[p].0.as_str(), key.as_str()) {
        let _ = v.remove(p);
        v.insert(p, (key, value));
    } else {
        v.insert(p, (key, value));
    }
    assert(keyed(v@) =~= file_put(kv, key@, value));
}

/// Entries with every key joined onto `root`, collected as a sorted map.
fn join_keys<V>(v: Vec<(String, V)>, root: &str) -> (r: Vec<(String, V)>)
    ensures
        keyed(r@) == files_collected(files_joined(keyed(v@), root@)),
        files_sorted(keyed(r@)),
{
    let ghost kv = keyed(v@);
    let ghost entries = files_joined(kv, root@);
    let mut rest = v;
    let mut out: Vec<(String, V)> = Vec::new();
    let ghost mut i: int = 0;
    while rest.len() > 0
        invariant
            0 <= i <= kv.len(),
            entries == files_joined(kv, root@),
            keyed(rest@) == kv.skip(i),
            keyed(out@) == files_collected(entries.take(i)),
            files_sorted(keyed(out@)),
        decreases rest@.len(),
    {
        let ghost pr = rest@;
        assert(kv.skip(i).len() == rest@.len());
        assert(kv.skip(i)[0] == kv[i]);
        let (key, value) = rest.remove(0);
        let joined = join(root, key.as_str());
        proof {
            assert(keyed(rest@) =~= keyed(pr).drop_first());
            assert(kv.skip(i).drop_first() =~= kv.skip(i + 1));
            assert(entries.take(i + 1).drop_last() =~= entries.take(i));
            assert(entries[i] == (joined@, value));
        }
        put_keyed(&mut out, joined, value);
        proof {
            i = i + 1;
        }
    }
    assert(entries.take(i) =~= entries);
    out
}

/// Entries whose keys are listed, in order.
fn retain_keys<V>(v: Vec<(String, V)>, files: &Vec<String>, lowered: &Vec<String>) -> (r: Vec<(String, V)>)
    requires
        lowered@.len() == files@.len(),
        forall|i: int| 0 <= i < files@.len() ==> (#[trigger] lowered@[i])@ == spec_lowercase(files@[i]@),
    ensures
        keyed(r@) == retained(keyed(v@), files@.map_values(|f: String| f@)),
{
    let ghost kv = keyed(v@);
    let ghost fs = files@.map_values(|f: String| f@);
    let mut rest = v;
    let mut out: Vec<(String, V)> = Vec::new();
    let ghost mut i: int = 0;
    while rest.len() > 0
        invariant
            0 <= i <= kv.len(),
            fs == files@.map_values(|f: String| f@),
            lowered@.len() == files@.len(),
            forall|k: int| 0 <= k < files@.len() ==> (#[trigger] lowered@[k])@ == spec_lowercase(files@[k]@),
            keyed(rest@) == kv.skip(i),
            keyed(out@) == retained(kv.take(i), fs),
        decreases rest@.len(),
    {
        let ghost pr = rest@;
        assert(kv.skip(i).len() == rest@.len());
        assert(kv.skip(i)[0] == kv[i]);
        let (key, value) = rest.remove(0);
        let low = lowercase(key.as_str());
        let mut found = false;
        let mut j: usize = 0;
        while j < lowered.len() && !found
            invariant
                j <= lowered@.len(),
                lowered@.len() == files@.len(),
                fs.len() == files@.len(),
                low@ == spec_lowercase(key@),
                fs == files@.map_values(|f: String| f@),
                forall|k: int| 0 <= k < files@.len() ==> (#[trigger] lowered@[k])@ == spec_lowercase(files@[k]@),
                found == (exists|k: int| 0 <= k < j && spec_lowercase(#[trigger] fs[k]) == spec_lowercase(key@)),
            decreases lowered@.len() - j,
        {
            if same_str(lowered[j].as_str(), low.as_str()) {
                assert(spec_lowercase(fs[j as int]) == spec_lowercase(key@));
                found = true;
            }
            j = j + 1;
        }
        proof {
            if !found {
                assert forall|k: int| 0 <= k < fs.len() implies spec_lowercase(#[trigger] fs[k]) != spec_lowercase(key@) by {
                    assert(k < j);
                }
            }
            assert(found == listed(fs, key@));
            assert(keyed(rest@) =~= keyed(pr).drop_first());
            assert(kv.skip(i).drop_first() =~= kv.skip(i + 1));
            assert(kv.take(i + 1).drop_last() =~= kv.take(i));
            assert(kv.take(i + 1).last() == (key@, value));
        }
        if found {
            let ghost before = keyed(out@);
            out.push((key, value));
            assert(keyed(out@) =~= before.push((key@, value)));
        }
        proof {
            i = i + 1;
        }
    }
    assert(kv.take(i) =~= kv);
    out
}

/// Output of the compiler: its errors, its contracts by file and name, and its
/// source files.
pub struct CompilerOutput<E, C, S> {
    pub errors: Vec<E>,
    pub contracts: Vec<(String, Vec<(String, C)>)>,
    pub sources: Vec<(String, S)>,
}

impl<E, C, S> CompilerOutput<E, C, S> {
    /// Contracts and sources are kept as sorted maps keep them.
    pub open spec fn wf(&self) -> bool {
        &&& files_sorted(keyed(self.contracts@))
        &&& forall|i: int| 0 <= i < self.contracts@.len() ==> names_sorted(keyed((#[trigger] self.contracts@[i]).1@))
        &&& files_sorted(keyed(self.sources@))
    }

    /// No errors, contracts or sources.
    pub fn new() -> (r: Self)
        ensures
            r.errors@.len() == 0,
            r.contracts@.len() == 0,
            r.sources@.len() == 0,
            r.wf(),
    {
        CompilerOutput { errors: Vec::new(), contracts: Vec::new(), sources: Vec::new() }
    }

    /// Keeps only the contracts and sources of the given files, told apart
    /// by their lowercased paths (the compiler may not keep the case of a
    /// file's name).
    pub fn retain_files(&mut self, files: &Vec<String>)
        ensures
            final(self).errors == old(self).errors,
            keyed(final(self).contracts@) == retained(keyed(old(self).contracts@), files@.map_values(|f: String| f@)),
            keyed(final(self).sources@) == retained(keyed(old(self).sources@), files@.map_values(|f: String| f@)),
    {
        let mut lowered: Vec<String> = Vec::new();
        let mut i: usize = 0;
        while i < files.len()
            invariant
                i <= files@.len(),
                lowered@.len() == i,
                forall|k: int| 0 <= k < i ==> (#[trigger] lowered@[k])@ == spec_lowercase(files@[k]@),
            decreases files@.len() - i,
        {
            lowered.push(lowercase(files[i].as_str()));
            i = i + 1;
        }
        let mut contracts: Vec<(String, Vec<(String, C)>)> = Vec::new();
        std::mem::swap(&mut contracts, &mut self.contracts);
        self.contracts = retain_keys(contracts, files, &lowered);
        let mut sources: Vec<(String, S)> = Vec::new();
        std::mem::swap(&mut sources, &mut self.sources);
        self.sources = retain_keys(sources, files, &lowered);
    }

    /// Adds the output of another run: its errors after these, its contracts
    /// and sources inserted one by one, a file already present taking the
    /// other's entry.
    pub fn merge(&mut self, other: Self)
        requires
            files_sorted(keyed(old(self).contracts@)),
            files_sorted(keyed(old(self).sources@)),
        ensures
            final(self).errors@ == old(self).errors@ + other.errors@,
            keyed(final(self).contracts@) == keys_extended(keyed(old(self).contracts@), keyed(other.contracts@)),
            keyed(final(self).sources@) == keys_extended(keyed(old(self).sources@), keyed(other.sources@)),
            files_sorted(keyed(final(self).contracts@)),
            files_sorted(keyed(final(self).sources@)),
    {
        let CompilerOutput { errors, contracts, sources } = other;
        let mut errors = errors;
        self.errors.append(&mut errors);
        let ghost e0 = self.errors@;
        let ghost src0 = self.sources@;
        let ghost c0 = keyed(self.contracts@);
        let ghost oc = keyed(contracts@);
        let mut rest = contracts;
        let ghost mut i: int = 0;
        while rest.len() > 0
            invariant
                self.errors@ == e0,
                self.sources@ == src0,
                0 <= i <= oc.len(),
                keyed(rest@) == oc.skip(i),
                keyed(self.contracts@) == keys_extended(c0, oc.take(i)),
                files_sorted(keyed(self.contracts@)),
            decreases rest@.len(),
        {
            let ghost pr = rest@;
            assert(oc.skip(i).len() == rest@.len());
            assert(oc.skip(i)[0] == oc[i]);
            let (key, value) = rest.remove(0);
            proof {
                assert(keyed(rest@) =~= keyed(pr).drop_first());
                assert(oc.skip(i).drop_first() =~= oc.skip(i + 1));
                assert(oc.take(i + 1).drop_last() =~= oc.take(i));
                assert(oc.take(i + 1).last() == (key@, value));
            }
            insert_keyed(&mut self.contracts, key, value);
            proof {
                i = i + 1;
            }
        }
        assert(oc.take(i) =~= oc);
        let ghost cs = self.contracts@;
        let ghost s0 = keyed(self.sources@);
        let ghost os = keyed(sources@);
        let mut rest = sources;
        let ghost mut i: int = 0;
        while rest.len() > 0
            invariant
                self.errors@ == e0,
                self.contracts@ == cs,
                0 <= i <= os.len(),
                keyed(rest@) == os.skip(i),
                keyed(self.sources@) == keys_extended(s0, os.take(i)),
                files_sorted(keyed(self.sources@)),
            decreases rest@.len(),
        {
            let ghost pr = rest@;
            assert(os.skip(i).len() == rest@.len());
            assert(os.skip(i)[0] == os[i]);
            let (key, value) = rest.remove(0);
            proof {
                assert(keyed(rest@) =~= keyed(pr).drop_first());
                assert(os.skip(i).drop_first() =~= os.skip(i + 1));
                assert(os.take(i + 1).drop_last() =~= os.take(i));
                assert(os.take(i + 1).last() == (key@, value));
            }
            insert_keyed(&mut self.sources, key, value);
            proof {
                i = i + 1;
            }
        }
        assert(os.take(i) =~= os);
    }

    /// Joins the paths of all contracts and sources onto `root`; entries whose
    /// joined paths name the same path are merged as a sorted map collects
    /// them, the last staying.
    pub fn join_all(&mut self, root: &str)
        ensures
            final(self).errors == old(self).errors,
            keyed(final(self).contracts@) == files_collected(files_joined(keyed(old(self).contracts@), root@)),
            keyed(final(self).sources@) == files_collected(files_joined(keyed(old(self).sources@), root@)),
            files_sorted(keyed(final(self).contracts@)),
            files_sorted(keyed(final(self).sources@)),
    {
        let mut contracts: Vec<(String, Vec<(String, C)>)> = Vec::new();
        std::mem::swap(&mut contracts, &mut self.contracts);
        self.contracts = join_keys(contracts, root);
        let mut sources: Vec<(String, S)> = Vec::new();
        std::mem::swap(&mut sources, &mut self.sources);
        self.sources = join_keys(sources, root);
    }

    /// The output with every error mapped by `op`, in order.
    pub fn map_err<F, O: Fn(E) -> F>(self, op: O) -> (r: CompilerOutput<F, C, S>)
        requires
            forall|e: E| call_requires(op, (e,)),
        ensures
            r.errors@.len() == self.errors@.len(),
            forall|i: int| 0 <= i < r.errors@.len() ==> call_ensures(op, (self.errors@[i],), #[trigger] r.errors@[i]),
            r.contracts == self.contracts,
            r.sources == self.sources,
    {
        let CompilerOutput { errors, contracts, sources } = self;
        let ghost all = errors@;
        let mut rest = errors;
        let mut mapped: Vec<F> = Vec::new();
        while rest.len() > 0
            invariant
                forall|e: E| call_requires(op, (e,)),
                mapped@.len() + rest@.len() == all.len(),
                rest@ == all.skip(mapped@.len() as int),
                forall|i: int| 0 <= i < mapped@.len() ==> call_ensures(op, (all[i],), #[trigger] mapped@[i]),
            decreases rest@.len(),
        {
            let ghost k = mapped@.len() as int;
            assert(all.skip(k)[0] == all[k]);
            let e = rest.remove(0);
            let f = op(e);
            mapped.push(f);
            assert(rest@ =~= all.skip(k + 1));
        }
        CompilerOutput { errors: mapped, contracts, sources }
    }
}

impl<E, C, S> Default for CompilerOutput<E, C, S> {
    fn default() -> (r: Self)
        ensures
            r.errors@.len() == 0,
            r.contracts@.len() == 0,
            r.sources@.len() == 0,
    {
        CompilerOutput { errors: Vec::new(), contracts: Vec::new(), sources: Vec::new() }
    }
}

} // verus!
