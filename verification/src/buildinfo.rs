//! Additional context cached for each compiler run.

use crate::paths::{join, path_join};
use crate::text::{chars_eq, chars_of};
use std::collections::BTreeMap;
use vstd::prelude::*;

verus! {

/// The format tag of build info files.
pub const ETHERS_FORMAT_VERSION: &'static str = "ethers-rs-sol-build-info-1";

/// A source language, with the file extensions of its sources.
pub trait Language: Copy {
    /// The extensions of source files in this language, without the dot.
    fn file_extensions() -> Vec<String>;
}

/// Languages of solc.
#[derive(Clone, Copy, Debug, PartialEq, Eq, Hash, Structural)]
pub enum SolcLanguage {
    Solidity,
    Yul,
}

impl Language for SolcLanguage {
    fn file_extensions() -> (r: Vec<String>)
        ensures
            r@.map_values(|e: String| e@) == seq!["sol"@, "yul"@],
    {
        let mut v = Vec::new();
        v.push(crate::text::owned("sol"));
        v.push(crate::text::owned("yul"));
        assert(v@.map_values(|e: String| e@) =~= seq!["sol"@, "yul"@]);
        v
    }
}

/// Additional context we cache for each compiler run.
#[derive(Clone, Debug, PartialEq, Eq)]
pub struct BuildContext<L> {
    /// Mapping from internal compiler source id to path of the source file.
    pub source_id_to_path: BTreeMap<u32, String>,
    /// Language of the compiler.
    pub language: L,
}

/// The map built from the output sources: each output source whose path is
/// among the inputs maps its id to its path, later sources replacing earlier
/// ones with the same id.
pub open spec fn build_map(inputs: Seq<Seq<char>>, outputs: Seq<(Seq<char>, u32)>) -> Map<u32, Seq<char>>
    decreases outputs.len(),
{
    if outputs.len() == 0 {
        Map::empty()
    } else {
        let m = build_map(inputs, outputs.drop_last());
        let (p, id) = outputs.last();
        if inputs.contains(p) {
            m.insert(id, p)
        } else {
            m
        }
    }
}

/// Ids are ordered as the map of ids to paths needs them to be.
proof fn lemma_ids_ordered()
    ensures
        vstd::laws_cmp::obeys_cmp::<u32>(),
{
    broadcast use vstd::laws_cmp::group_laws_cmp;
}

/// The paths of a map from ids to paths, as text.
pub open spec fn path_map(m: Map<u32, String>) -> Map<u32, Seq<char>> {
    m.map_values(|s: String| s@)
}

fn contains_path(paths: &[String], p: &str) -> (r: bool)
    ensures
        r == path_views(paths@).contains(p@),
{
    let pv = chars_of(p);
    let mut i: usize = 0;
    while i < paths.len()
        invariant
            i <= paths@.len(),
            pv@ == p@,
            forall|k: int| 0 <= k < i ==> paths@[k]@ != p@,
        decreases paths@.len() - i,
    {
        let q = chars_of(paths[i].as_str());
        if chars_eq(q.as_slice(), pv.as_slice()) {
            assert(path_views(paths@)[i as int] == p@);
            return true;
        }
        i = i + 1;
    }
    proof {
        if path_views(paths@).contains(p@) {
            let k = choose|k: int| 0 <= k < paths@.len() && #[trigger] path_views(paths@)[k] == p@;
            assert(paths@[k]@ == p@);
        }
    }
    false
}

/// The views of a list of paths.
pub open spec fn path_views(v: Seq<String>) -> Seq<Seq<char>> {
    v.map_values(|s: String| s@)
}

/// The views of a list of output sources.
pub open spec fn output_views(v: Seq<(String, u32)>) -> Seq<(Seq<char>, u32)> {
    v.map_values(|e: (String, u32)| (e.0@, e.1))
}

/// `after` has the ids of `before`, each path joined onto `root`.
pub open spec fn joined_onto(root: Seq<char>, before: Map<u32, String>, after: Map<u32, String>) -> bool {
    &&& after.dom() == before.dom()
    &&& forall|k: u32| #[trigger] after.contains_key(k) ==> after[k]@ == path_join(root, before[k]@)
}

impl<L: Language> BuildContext<L> {
    /// The map from source id to path.
    pub open spec fn id_to_path(&self) -> Map<u32, Seq<char>> {
        path_map(self.source_id_to_path@)
    }

    /// The context of a compiler run: the ids the compiler gave to the input
    /// sources, from the sources of its output (`(path, id)` pairs).
    pub fn new(input_paths: &[String], output_sources: &[(String, u32)], language: L) -> (r: Self)
        ensures
            r.id_to_path() == build_map(path_views(input_paths@), output_views(output_sources@)),
            r.language == language,
    {
        proof {
            lemma_ids_ordered();
        }
        let mut m: BTreeMap<u32, String> = BTreeMap::new();
        let mut i: usize = 0;
        assert(path_map(m@) =~= Map::empty());
        while i < output_sources.len()
            invariant
                i <= output_sources@.len(),
                path_map(m@) == build_map(path_views(input_paths@), output_views(output_sources@.take(i as int))),
            decreases output_sources@.len() - i,
        {
            assert(output_views(output_sources@.take(i + 1)).drop_last() =~= output_views(output_sources@.take(i as int)));
            let (path, id) = &output_sources[i];
            if contains_path(input_paths, path.as_str()) {
                let ghost before = m@;
                m.insert(*id, path.clone());
                assert(path_map(m@) =~= path_map(before).insert(*id, path@));
            }
            i = i + 1;
        }
        assert(output_sources@.take(output_sources@.len() as int) =~= output_sources@);
        BuildContext { source_id_to_path: m, language }
    }

    /// Joins every path onto `root`.
    pub fn join_all(&mut self, root: &str)
        ensures
            final(self).language == old(self).language,
            joined_onto(root@, old(self).source_id_to_path@, final(self).source_id_to_path@),
    {
        broadcast use vstd::std_specs::btree::group_btree_axioms;
        proof {
            lemma_ids_ordered();
        }
        let ghost before = self.source_id_to_path@;
        let mut m: BTreeMap<u32, String> = BTreeMap::new();
        for e in it: self.source_id_to_path.iter()
            invariant
                before == self.source_id_to_path@,
                forall|k: u32| #[trigger] m@.contains_key(k) ==> before.contains_key(k) && m@[k]@ == path_join(root@, before[k]@),
                forall|j: int| 0 <= j < it.seq().len() ==> before.contains_key(*it.seq()[j].0) && before[*it.seq()[j].0] == *(#[trigger] it.seq()[j]).1,
                forall|k: u32| #[trigger] before.contains_key(k) ==> m@.contains_key(k) || exists|j: int| it.index() <= j < it.seq().len() && *it.seq()[j].0 == k,
        {
            let (k, v) = e;
            m.insert(*k, join(root, v.as_str()));
        }
        assert(m@.dom() =~= before.dom());
        self.source_id_to_path = m;
    }

    /// The context with every path joined onto `root`.
    pub fn with_joined_paths(self, root: &str) -> (r: Self)
        ensures
            r.language == self.language,
            joined_onto(root@, self.source_id_to_path@, r.source_id_to_path@),
    {
        let mut s = self;
        s.join_all(root);
        s
    }
}

} // verus!
