//! Contracts compiled both with solc (for the EVM) and with resolc, and the
//! lookups that map bytecode seen at run time back to them.

use crate::artifacts::ArtifactId;
use crate::hashing::{keccak256, spec_keccak256};
use crate::info::ContractInfo;
use crate::paths::{path_starts_with, starts_with};
use crate::text::{chars_end_with, chars_eq, chars_of, ends_with};
use vstd::prelude::*;
use vstd::utf8::encode_utf8;

verus! {

/// Represents the type of contract (ZK or EVM)
#[derive(Clone, Copy, Debug, PartialEq, Eq, Structural)]
pub enum ContractType {
    /// Resolc compiled contract
    Resolc,
    /// Solc compiled contract
    EVM,
}

/// Indicates the type of match from a `find` search
#[derive(Clone, Copy, Debug, PartialEq, Eq, Structural)]
pub enum FindMatchType {
    /// The result matched both path and name
    FullMatch,
    /// The result only matched the path
    Path,
    /// The result only matched the name
    Name,
}

/// The byte range of an immutable in deployed bytecode.
#[derive(Clone, Copy, Debug, PartialEq, Eq, Structural)]
pub struct Offsets {
    pub start: u32,
    pub length: u32,
}

/// The object of a bytecode: its bytes, or its hex text while library
/// placeholders are still unresolved.
#[derive(Clone, Debug, PartialEq, Eq)]
pub enum BytecodeObject {
    /// Fully linked bytecode.
    Bytecode(Vec<u8>),
    /// Bytecode with unresolved library placeholders, as hex text.
    Unlinked(String),
}

/// A [`BytecodeObject`] as a value.
pub enum BytecodeView {
    Bytecode(Seq<u8>),
    Unlinked(Seq<char>),
}

impl View for BytecodeObject {
    type V = BytecodeView;

    open spec fn view(&self) -> BytecodeView {
        match self {
            BytecodeObject::Bytecode(b) => BytecodeView::Bytecode(b@),
            BytecodeObject::Unlinked(s) => BytecodeView::Unlinked(s@),
        }
    }
}

/// The bytes of a linked object.
pub open spec fn linked_bytes(b: BytecodeView) -> Option<Seq<u8>> {
    match b {
        BytecodeView::Bytecode(x) => Some(x),
        BytecodeView::Unlinked(_) => None,
    }
}

/// The number of bytes of a linked object; 0 for an unlinked one.
pub open spec fn bytes_len_of(b: BytecodeView) -> nat {
    match b {
        BytecodeView::Bytecode(x) => x.len(),
        BytecodeView::Unlinked(_) => 0,
    }
}

/// The bytes an object reads as: its bytes, or the UTF-8 bytes of its text.
pub open spec fn object_bytes(b: BytecodeView) -> Seq<u8> {
    match b {
        BytecodeView::Bytecode(x) => x,
        BytecodeView::Unlinked(s) => encode_utf8(s),
    }
}

/// The views of objects.
pub open spec fn object_views(v: Seq<BytecodeObject>) -> Seq<BytecodeView> {
    v.map_values(|b: BytecodeObject| b@)
}

impl BytecodeObject {
    /// The bytes of a linked object.
    pub fn as_bytes(&self) -> (r: Option<&Vec<u8>>)
        ensures
            match linked_bytes(self@) {
                Some(x) => r matches Some(v) && v@ == x,
                None => r is None,
            },
    {
        match self {
            BytecodeObject::Bytecode(b) => Some(b),
            BytecodeObject::Unlinked(_) => None,
        }
    }

    /// The number of bytes of a linked object; 0 for an unlinked one.
    pub fn bytes_len(&self) -> (r: usize)
        ensures
            r == bytes_len_of(self@),
    {
        match self {
            BytecodeObject::Bytecode(b) => b.len(),
            BytecodeObject::Unlinked(_) => 0,
        }
    }

    /// The bytes the object reads as: its bytes, or the bytes of its text.
    pub fn as_ref_bytes(&self) -> (r: &[u8])
        ensures
            r@ == object_bytes(self@),
    {
        match self {
            BytecodeObject::Bytecode(b) => b.as_slice(),
            BytecodeObject::Unlinked(s) => s.as_str().as_bytes(),
        }
    }

    /// A copy of the object.
    pub fn duplicate(&self) -> (r: Self)
        ensures
            r@ == self@,
    {
        match self {
            BytecodeObject::Bytecode(b) => BytecodeObject::Bytecode(copy_bytes(b.as_slice())),
            BytecodeObject::Unlinked(s) => BytecodeObject::Unlinked(s.clone()),
        }
    }
}

fn copy_bytes(b: &[u8]) -> (r: Vec<u8>)
    ensures
        r@ == b@,
{
    let mut r: Vec<u8> = Vec::new();
    let mut i: usize = 0;
    while i < b.len()
        invariant
            i <= b@.len(),
            r@ == b@.take(i as int),
        decreases b@.len() - i,
    {
        r.push(b[i]);
        i = i + 1;
    }
    assert(b@.take(b@.len() as int) =~= b@);
    r
}

/// Immutable references: for each immutable, the ranges it fills.
pub type ImmutableReferences = Vec<(String, Vec<Offsets>)>;

/// The ranges of immutable references.
pub open spec fn reference_views(v: Seq<(String, Vec<Offsets>)>) -> Seq<(Seq<char>, Seq<Offsets>)> {
    v.map_values(|e: (String, Vec<Offsets>)| (e.0@, e.1@))
}

/// Defines a contract that has been dual compiled with both resolc and solc
#[derive(Clone, Debug)]
pub struct DualCompiledContract {
    /// Deployed bytecode with resolc
    pub resolc_bytecode_hash: String,
    /// Deployed bytecode hash with resolc
    pub resolc_bytecode: BytecodeObject,
    /// Deployed bytecode hash with resolc
    pub resolc_deployed_bytecode: BytecodeObject,
    /// Bytecodes of the factory deps for resolc's deployed bytecode
    pub resolc_factory_deps: Vec<BytecodeObject>,
    /// Deployed bytecode hash with solc (32 bytes)
    pub evm_bytecode_hash: Vec<u8>,
    /// Bytecode with solc
    pub evm_bytecode: BytecodeObject,
    /// Deployed bytecode with solc
    pub evm_deployed_bytecode: BytecodeObject,
    /// Immutable references with solc
    pub evm_immutable_references: Option<ImmutableReferences>,
}

/// A [`DualCompiledContract`] as a value.
pub struct DualView {
    pub resolc_bytecode_hash: Seq<char>,
    pub resolc_bytecode: BytecodeView,
    pub resolc_deployed_bytecode: BytecodeView,
    pub resolc_factory_deps: Seq<BytecodeView>,
    pub evm_bytecode_hash: Seq<u8>,
    pub evm_bytecode: BytecodeView,
    pub evm_deployed_bytecode: BytecodeView,
    pub evm_immutable_references: Option<Seq<(Seq<char>, Seq<Offsets>)>>,
}

impl View for DualCompiledContract {
    type V = DualView;

    open spec fn view(&self) -> DualView {
        DualView {
            resolc_bytecode_hash: self.resolc_bytecode_hash@,
            resolc_bytecode: self.resolc_bytecode@,
            resolc_deployed_bytecode: self.resolc_deployed_bytecode@,
            resolc_factory_deps: object_views(self.resolc_factory_deps@),
            evm_bytecode_hash: self.evm_bytecode_hash@,
            evm_bytecode: self.evm_bytecode@,
            evm_deployed_bytecode: self.evm_deployed_bytecode@,
            evm_immutable_references: match self.evm_immutable_references {
                Some(r) => Some(reference_views(r@)),
                None => None,
            },
        }
    }
}

fn same_text(a: &Option<String>, b: &Option<String>) -> (r: bool)
    ensures
        r == (crate::info::opt_view(*a) == crate::info::opt_view(*b)),
{
    match (a, b) {
        (Some(x), Some(y)) => {
            let xv = chars_of(x.as_str());
            let yv = chars_of(y.as_str());
            chars_eq(xv.as_slice(), yv.as_slice())
        },
        (None, None) => true,
        _ => false,
    }
}

/// Whether two contract identifiers are equal.
pub fn same_info(a: &ContractInfo, b: &ContractInfo) -> (r: bool)
    ensures
        r == (a@ == b@),
{
    same_text(&a.path, &b.path) && same_text(&a.name, &b.name)
}

/// No identifier occurs twice.
pub open spec fn distinct_infos(v: Seq<(ContractInfo, DualCompiledContract)>) -> bool {
    forall|i: int, j: int| 0 <= i < j < v.len() ==> v[i].0@ != v[j].0@
}

/// A collection of `[DualCompiledContract]`s
#[derive(Clone, Debug)]
pub struct DualCompiledContracts {
    contracts: Vec<(ContractInfo, DualCompiledContract)>,
    /// resolc artifacts path
    pub resolc_artifact_path: String,
    /// EVM artifacts path
    pub evm_artifact_path: String,
}

impl DualCompiledContracts {
    /// The contracts, in the order they were added, each identifier once.
    pub closed spec fn entries(&self) -> Seq<(ContractInfo, DualCompiledContract)> {
        self.contracts@
    }

    /// The directory of resolc artifacts.
    pub closed spec fn resolc_dir(&self) -> Seq<char> {
        self.resolc_artifact_path@
    }

    /// The directory of EVM artifacts.
    pub closed spec fn evm_dir(&self) -> Seq<char> {
        self.evm_artifact_path@
    }

    /// No identifier occurs twice.
    pub open spec fn wf(&self) -> bool {
        distinct_infos(self.entries())
    }

    /// An empty collection with the given artifact directories.
    pub fn empty(resolc_artifact_path: String, evm_artifact_path: String) -> (r: Self)
        ensures
            r.wf(),
            r.entries().len() == 0,
            r.resolc_dir() == resolc_artifact_path@,
            r.evm_dir() == evm_artifact_path@,
    {
        DualCompiledContracts { contracts: Vec::new(), resolc_artifact_path, evm_artifact_path }
    }

    /// Retrieves the length of the collection.
    pub fn len(&self) -> (r: usize)
        ensures
            r == self.entries().len(),
    {
        self.contracts.len()
    }

    /// Retrieves if the collection is empty.
    pub fn is_empty(&self) -> (r: bool)
        ensures
            r == (self.entries().len() == 0),
    {
        self.contracts.len() == 0
    }

    /// All `[DualCompiledContract]`s in the collection, with their identifiers
    pub fn iter(&self) -> (r: &[(ContractInfo, DualCompiledContract)])
        ensures
            r@ == self.entries(),
    {
        self.contracts.as_slice()
    }

    fn position(&self, info: &ContractInfo) -> (r: Option<usize>)
        ensures
            match r {
                Some(i) => i < self.entries().len() && self.entries()[i as int].0@ == info@,
                None => forall|i: int| 0 <= i < self.entries().len() ==> #[trigger] self.entries()[i].0@ != info@,
            },
    {
        let mut i: usize = 0;
        while i < self.contracts.len()
            invariant
                i <= self.contracts@.len(),
                forall|k: int| 0 <= k < i ==> #[trigger] self.contracts@[k].0@ != info@,
            decreases self.contracts@.len() - i,
        {
            if same_info(&self.contracts[i].0, info) {
                return Some(i);
            }
            i = i + 1;
        }
        None
    }

    /// Attempt reading an existing `[DualCompiledContract]`
    pub fn get(&self, info: &ContractInfo) -> (r: Option<&DualCompiledContract>)
        requires
            self.wf(),
        ensures
            match r {
                Some(c) => exists|i: int| 0 <= i < self.entries().len() && #[trigger] self.entries()[i].0@ == info@ && self.entries()[i].1 == *c,
                None => forall|i: int| 0 <= i < self.entries().len() ==> #[trigger] self.entries()[i].0@ != info@,
            },
    {
        match self.position(info) {
            Some(i) => Some(&self.contracts[i].1),
            None => None,
        }
    }

    /// Adds a new `[DualCompiledContract]` to the collection
    ///
    /// Will replace any contract with matching `info`
    pub fn insert(&mut self, info: ContractInfo, contract: DualCompiledContract)
        requires
            old(self).wf(),
        ensures
            final(self).wf(),
            final(self).resolc_dir() == old(self).resolc_dir(),
            final(self).evm_dir() == old(self).evm_dir(),
            match old(self).position_spec(info@) {
                Some(i) => final(self).entries() == old(self).entries().update(i, (info, contract)),
                None => final(self).entries() == old(self).entries().push((info, contract)),
            },
            entries_view(final(self).entries()) == insert_view(entries_view(old(self).entries()), (info@, contract@)),
    {
        let ghost v = self.entries();
        let ghost e = (info, contract);
        match self.position(&info) {
            Some(i) => {
                proof {
                    self.lemma_position_spec(info@, i as int);
                    lemma_insert_view(v, e, Some(i as int));
                }
                self.contracts.set(i, (info, contract));
                proof {
                    assert forall|a: int, b: int| 0 <= a < b < self.contracts@.len() implies self.contracts@[a].0@ != self.contracts@[b].0@ by {
                        assert(v[a].0@ != v[b].0@);
                    }
                }
            },
            None => {
                proof {
                    lemma_insert_view(v, e, None);
                }
                self.contracts.push((info, contract));
            },
        }
    }

    /// The position of an identifier.
    pub open spec fn position_spec(&self, k: crate::info::ContractInfoView) -> Option<int> {
        if exists|i: int| 0 <= i < self.entries().len() && #[trigger] self.entries()[i].0@ == k {
            Some(choose|i: int| 0 <= i < self.entries().len() && #[trigger] self.entries()[i].0@ == k)
        } else {
            None
        }
    }

    proof fn lemma_position_spec(&self, k: crate::info::ContractInfoView, i: int)
        requires
            self.wf(),
            0 <= i < self.entries().len(),
            self.entries()[i].0@ == k,
        ensures
            self.position_spec(k) == Some(i),
    {
        let j = choose|j: int| 0 <= j < self.entries().len() && #[trigger] self.entries()[j].0@ == k;
        if j != i {
            if j < i {
                assert(self.entries()[j].0@ != self.entries()[i].0@);
            } else {
                assert(self.entries()[i].0@ != self.entries()[j].0@);
            }
        }
    }
}


/// Whether `code` starts with `prefix`.
pub open spec fn bytes_start_with(code: Seq<u8>, prefix: Seq<u8>) -> bool {
    prefix.len() <= code.len() && code.subrange(0, prefix.len() as int) == prefix
}

/// Whether the resolc deployed bytecode of a contract is linked and begins `code`.
pub open spec fn resolc_matches(c: DualCompiledContract, code: Seq<u8>) -> bool {
    linked_bytes(c.resolc_deployed_bytecode@) matches Some(b) && bytes_start_with(code, b)
}

/// Whether the EVM bytecode of a contract is linked and begins `code`.
pub open spec fn evm_matches(c: DualCompiledContract, code: Seq<u8>) -> bool {
    linked_bytes(c.evm_bytecode@) matches Some(b) && bytes_start_with(code, b)
}

/// Whether a contract has the given resolc bytecode hash.
pub open spec fn hash_matches(c: DualCompiledContract, hash: Seq<char>) -> bool {
    c.resolc_bytecode_hash@ == hash
}

/// All ranges of immutable references, group after group.
pub open spec fn flat_offsets(refs: Seq<(String, Vec<Offsets>)>) -> Seq<Offsets>
    decreases refs.len(),
{
    if refs.len() == 0 {
        Seq::empty()
    } else {
        flat_offsets(refs.drop_last()) + refs.last().1@
    }
}

/// Whether position `x` lies in one of the ranges.
pub open spec fn in_offsets(offs: Seq<Offsets>, x: int) -> bool {
    exists|j: int| 0 <= j < offs.len() && #[trigger] offs[j].start <= x && x < offs[j].start + offs[j].length
}

/// Whether every range ends within `n` bytes.
pub open spec fn offsets_in_bounds(offs: Seq<Offsets>, n: int) -> bool {
    forall|j: int| 0 <= j < offs.len() ==> #[trigger] offs[j].start + offs[j].length <= n
}

/// `code` with the bytes of the ranges set to zero.
pub open spec fn without_immutables(code: Seq<u8>, offs: Seq<Offsets>) -> Seq<u8> {
    Seq::new(code.len(), |x: int| if in_offsets(offs, x) { 0u8 } else { code[x] })
}

/// Whether a contract's EVM deployed bytecode is `code` once the immutables
/// of `code` are zeroed (all of them within `code`); exactly `code` for a
/// contract without immutable references.
pub open spec fn immutables_match(c: DualCompiledContract, code: Seq<u8>) -> bool {
    match c.evm_immutable_references {
        Some(refs) => offsets_in_bounds(flat_offsets(refs@), code.len() as int) && linked_bytes(
            c.evm_deployed_bytecode@,
        ) == Some(without_immutables(code, flat_offsets(refs@))),
        None => linked_bytes(c.evm_deployed_bytecode@) == Some(code),
    }
}

/// Whether entry `i` is the first one whose contract satisfies `p`.
pub open spec fn is_first(v: Seq<(ContractInfo, DualCompiledContract)>, i: int, p: spec_fn(DualCompiledContract) -> bool) -> bool {
    0 <= i < v.len() && p(v[i].1) && forall|j: int| 0 <= j < i ==> !p(#[trigger] v[j].1)
}

/// What a search for the first contract satisfying `p` gives.
pub open spec fn first_found(v: Seq<(ContractInfo, DualCompiledContract)>, p: spec_fn(DualCompiledContract) -> bool, r: Option<(&ContractInfo, &DualCompiledContract)>) -> bool {
    match r {
        Some((a, c)) => exists|i: int| is_first(v, i, p) && *a == v[i].0 && *c == v[i].1,
        None => forall|i: int| 0 <= i < v.len() ==> !p(#[trigger] v[i].1),
    }
}

fn bytes_eq(a: &[u8], b: &[u8]) -> (r: bool)
    ensures
        r == (a@ == b@),
{
    if a.len() != b.len() {
        return false;
    }
    let mut i: usize = 0;
    while i < a.len()
        invariant
            a@.len() == b@.len(),
            i <= a@.len(),
            forall|k: int| 0 <= k < i ==> a@[k] == b@[k],
        decreases a@.len() - i,
    {
        if a[i] != b[i] {
            return false;
        }
        i = i + 1;
    }
    assert(a@ =~= b@);
    true
}

fn bytes_starting(code: &[u8], prefix: &[u8]) -> (r: bool)
    ensures
        r == bytes_start_with(code@, prefix@),
{
    if prefix.len() > code.len() {
        return false;
    }
    let mut i: usize = 0;
    while i < prefix.len()
        invariant
            prefix@.len() <= code@.len(),
            i <= prefix@.len(),
            forall|k: int| 0 <= k < i ==> code@[k] == prefix@[k],
        decreases prefix@.len() - i,
    {
        if code[i] != prefix[i] {
            assert(code@.subrange(0, prefix@.len() as int)[i as int] != prefix@[i as int]);
            return false;
        }
        i = i + 1;
    }
    assert(code@.subrange(0, prefix@.len() as int) =~= prefix@);
    true
}

fn flatten_offsets(refs: &ImmutableReferences) -> (r: Vec<Offsets>)
    ensures
        r@ == flat_offsets(refs@),
{
    let mut r: Vec<Offsets> = Vec::new();
    let mut g: usize = 0;
    while g < refs.len()
        invariant
            g <= refs@.len(),
            r@ == flat_offsets(refs@.take(g as int)),
        decreases refs@.len() - g,
    {
        assert(refs@.take(g + 1).drop_last() =~= refs@.take(g as int));
        let group = &refs[g].1;
        let ghost start = r@;
        let mut k: usize = 0;
        while k < group.len()
            invariant
                k <= group@.len(),
                r@ == start + group@.take(k as int),
            decreases group@.len() - k,
        {
            r.push(group[k]);
            k = k + 1;
            assert(r@ =~= start + group@.take(k as int));
        }
        assert(group@.take(group@.len() as int) =~= group@);
        g = g + 1;
    }
    assert(refs@.take(refs@.len() as int) =~= refs@);
    r
}

fn zero_immutables(code: &[u8], offs: &Vec<Offsets>) -> (r: Option<Vec<u8>>)
    ensures
        match r {
            Some(z) => offsets_in_bounds(offs@, code@.len() as int) && z@ == without_immutables(code@, offs@),
            None => !offsets_in_bounds(offs@, code@.len() as int),
        },
{
    let n = code.len();
    let mut z = copy_bytes(code);
    let mut j: usize = 0;
    assert(z@ =~= without_immutables(code@, offs@.take(0)));
    while j < offs.len()
        invariant
            n == code@.len(),
            z@.len() == n,
            j <= offs@.len(),
            offsets_in_bounds(offs@.take(j as int), n as int),
            z@ == without_immutables(code@, offs@.take(j as int)),
        decreases offs@.len() - j,
    {
        let o = offs[j];
        let end: u64 = o.start as u64 + o.length as u64;
        if end > n as u64 {
            assert(offs@[j as int] == o);
            return None;
        }
        let start = o.start as usize;
        let stop = end as usize;
        let mut x: usize = start;
        let ghost before = z@;
        while x < stop
            invariant
                n == code@.len(),
                z@.len() == n,
                start <= x <= stop <= n,
                forall|y: int| 0 <= y < n ==> #[trigger] z@[y] == if start <= y < x { 0u8 } else { before[y] },
            decreases stop - x,
        {
            z.set(x, 0u8);
            x = x + 1;
        }
        let ghost t0 = offs@.take(j as int);
        let ghost t1 = offs@.take(j + 1);
        assert(t1 =~= t0.push(o));
        assert forall|y: int| 0 <= y < n implies #[trigger] z@[y] == without_immutables(code@, t1)[y] by {
            if in_offsets(t1, y) && !in_offsets(t0, y) {
                let q = choose|q: int| 0 <= q < t1.len() && #[trigger] t1[q].start <= y && y < t1[q].start + t1[q].length;
                if q < j {
                    assert(t0[q] == t1[q]);
                }
            }
            if in_offsets(t0, y) {
                let q = choose|q: int| 0 <= q < t0.len() && #[trigger] t0[q].start <= y && y < t0[q].start + t0[q].length;
                assert(t1[q] == t0[q]);
            }
            if start <= y < stop {
                assert(t1[j as int] == o);
            }
        }
        assert(z@ =~= without_immutables(code@, t1));
        assert forall|q: int| 0 <= q < t1.len() implies #[trigger] t1[q].start + t1[q].length <= n by {
            if q < j {
                assert(t1[q] == t0[q]);
            }
        }
        j = j + 1;
    }
    assert(offs@.take(offs@.len() as int) =~= offs@);
    Some(z)
}

fn immutables_match_exec(c: &DualCompiledContract, code: &[u8]) -> (r: bool)
    ensures
        r == immutables_match(*c, code@),
{
    match &c.evm_immutable_references {
        Some(refs) => {
            let offs = flatten_offsets(refs);
            match zero_immutables(code, &offs) {
                Some(z) => match c.evm_deployed_bytecode.as_bytes() {
                    Some(b) => bytes_eq(z.as_slice(), b.as_slice()),
                    None => false,
                },
                None => false,
            }
        },
        None => match c.evm_deployed_bytecode.as_bytes() {
            Some(b) => bytes_eq(code, b.as_slice()),
            None => false,
        },
    }
}

impl DualCompiledContracts {
    /// Finds a contract matching the ZK deployed bytecode
    pub fn find_by_resolc_deployed_bytecode(&self, bytecode: &[u8]) -> (r: Option<(&ContractInfo, &DualCompiledContract)>)
        ensures
            first_found(self.entries(), |c: DualCompiledContract| resolc_matches(c, bytecode@), r),
    {
        let mut i: usize = 0;
        while i < self.contracts.len()
            invariant
                i <= self.contracts@.len(),
                forall|j: int| 0 <= j < i ==> !resolc_matches(#[trigger] self.contracts@[j].1, bytecode@),
            decreases self.contracts@.len() - i,
        {
            let c = &self.contracts[i].1;
            let hit = match c.resolc_deployed_bytecode.as_bytes() {
                Some(b) => bytes_starting(bytecode, b.as_slice()),
                None => false,
            };
            if hit {
                assert(is_first(self.entries(), i as int, |c: DualCompiledContract| resolc_matches(c, bytecode@)));
                return Some((&self.contracts[i].0, c));
            }
            i = i + 1;
        }
        None
    }

    /// Finds a contract matching the EVM bytecode
    pub fn find_by_evm_bytecode(&self, bytecode: &[u8]) -> (r: Option<(&ContractInfo, &DualCompiledContract)>)
        ensures
            first_found(self.entries(), |c: DualCompiledContract| evm_matches(c, bytecode@), r),
    {
        let mut i: usize = 0;
        while i < self.contracts.len()
            invariant
                i <= self.contracts@.len(),
                forall|j: int| 0 <= j < i ==> !evm_matches(#[trigger] self.contracts@[j].1, bytecode@),
            decreases self.contracts@.len() - i,
        {
            let c = &self.contracts[i].1;
            let hit = match c.evm_bytecode.as_bytes() {
                Some(b) => bytes_starting(bytecode, b.as_slice()),
                None => false,
            };
            if hit {
                assert(is_first(self.entries(), i as int, |c: DualCompiledContract| evm_matches(c, bytecode@)));
                return Some((&self.contracts[i].0, c));
            }
            i = i + 1;
        }
        None
    }

    /// Finds a contract matching the EVM deployed bytecode with respect to the immutables
    /// Expects perfect match after removing immutables.
    pub fn find_by_evm_deployed_bytecode_with_immutables(&self, bytecode: &[u8]) -> (r: Option<(&ContractInfo, &DualCompiledContract)>)
        ensures
            first_found(self.entries(), |c: DualCompiledContract| immutables_match(c, bytecode@), r),
    {
        let mut i: usize = 0;
        while i < self.contracts.len()
            invariant
                i <= self.contracts@.len(),
                forall|j: int| 0 <= j < i ==> !immutables_match(#[trigger] self.contracts@[j].1, bytecode@),
            decreases self.contracts@.len() - i,
        {
            let c = &self.contracts[i].1;
            if immutables_match_exec(c, bytecode) {
                assert(is_first(self.entries(), i as int, |c: DualCompiledContract| immutables_match(c, bytecode@)));
                return Some((&self.contracts[i].0, c));
            }
            i = i + 1;
        }
        None
    }

    /// Finds a contract matching the ZK bytecode hash
    pub fn find_by_resolc_bytecode_hash(&self, code_hash: String) -> (r: Option<(&ContractInfo, &DualCompiledContract)>)
        ensures
            first_found(self.entries(), |c: DualCompiledContract| hash_matches(c, code_hash@), r),
    {
        let want = chars_of(code_hash.as_str());
        let mut i: usize = 0;
        while i < self.contracts.len()
            invariant
                i <= self.contracts@.len(),
                want@ == code_hash@,
                forall|j: int| 0 <= j < i ==> !hash_matches(#[trigger] self.contracts@[j].1, code_hash@),
            decreases self.contracts@.len() - i,
        {
            let c = &self.contracts[i].1;
            let have = chars_of(c.resolc_bytecode_hash.as_str());
            if chars_eq(have.as_slice(), want.as_slice()) {
                assert(is_first(self.entries(), i as int, |c: DualCompiledContract| hash_matches(c, code_hash@)));
                return Some((&self.contracts[i].0, c));
            }
            i = i + 1;
        }
        None
    }
}


/// The view of an optional text.
pub open spec fn text_view(t: Option<&str>) -> Option<Seq<char>> {
    match t {
        Some(x) => Some(x@),
        None => None,
    }
}

/// Whether a path is given and the contract's path ends with it.
pub open spec fn path_matches(info: ContractInfo, path: Option<Seq<char>>) -> bool {
    path matches Some(p) && info.path matches Some(q) && ends_with(q@, p)
}

/// Whether a name is given and is the contract's name.
pub open spec fn name_matches(info: ContractInfo, name: Option<Seq<char>>) -> bool {
    name matches Some(n) && info.name matches Some(m) && m@ == n
}

/// Whether a contract matches a search in the way `t` names.
pub open spec fn matches_as(t: FindMatchType, info: ContractInfo, path: Option<Seq<char>>, name: Option<Seq<char>>) -> bool {
    match t {
        FindMatchType::FullMatch => path_matches(info, path) && name_matches(info, name),
        FindMatchType::Path => path_matches(info, path),
        FindMatchType::Name => name_matches(info, name),
    }
}

/// The positions of the contracts that match in the way `t` names, in order.
pub open spec fn match_positions(v: Seq<(ContractInfo, DualCompiledContract)>, t: FindMatchType, path: Option<Seq<char>>, name: Option<Seq<char>>) -> Seq<int>
    decreases v.len(),
{
    if v.len() == 0 {
        Seq::empty()
    } else if matches_as(t, v.last().0, path, name) {
        match_positions(v.drop_last(), t, path, name).push(v.len() - 1)
    } else {
        match_positions(v.drop_last(), t, path, name)
    }
}

/// The results of a search: full matches, then path matches, then name
/// matches, each with the position of its contract.
pub open spec fn find_results(v: Seq<(ContractInfo, DualCompiledContract)>, path: Option<Seq<char>>, name: Option<Seq<char>>) -> Seq<(FindMatchType, int)> {
    match_positions(v, FindMatchType::FullMatch, path, name).map_values(|i: int| (FindMatchType::FullMatch, i))
        + match_positions(v, FindMatchType::Path, path, name).map_values(|i: int| (FindMatchType::Path, i))
        + match_positions(v, FindMatchType::Name, path, name).map_values(|i: int| (FindMatchType::Name, i))
}

/// Whether `r` lists, in order, the kinds and contracts of `results`.
pub open spec fn lists_results<'a>(v: Seq<(ContractInfo, DualCompiledContract)>, results: Seq<(FindMatchType, int)>, r: Seq<(FindMatchType, &'a DualCompiledContract)>) -> bool {
    &&& r.len() == results.len()
    &&& forall|k: int| 0 <= k < r.len() ==> (#[trigger] r[k]).0 == results[k].0 && 0 <= results[k].1 < v.len() && *r[k].1 == v[results[k].1].1
}

fn text_matches(t: FindMatchType, info: &ContractInfo, path: Option<&str>, name: Option<&str>) -> (r: bool)
    ensures
        r == matches_as(t, *info, text_view(path), text_view(name)),
{
    let p = match (path, &info.path) {
        (Some(needle), Some(q)) => {
            let qv = chars_of(q.as_str());
            let nv = chars_of(needle);
            chars_end_with(qv.as_slice(), nv.as_slice())
        },
        _ => false,
    };
    let n = match (name, &info.name) {
        (Some(want), Some(m)) => {
            let mv = chars_of(m.as_str());
            let wv = chars_of(want);
            chars_eq(mv.as_slice(), wv.as_slice())
        },
        _ => false,
    };
    match t {
        FindMatchType::FullMatch => p && n,
        FindMatchType::Path => p,
        FindMatchType::Name => n,
    }
}

/// The reference of a found contract, with its kind and the init code it was found for.
pub struct FindBytecodeResult<'a> {
    kind: ContractType,
    info: &'a ContractInfo,
    contract: &'a DualCompiledContract,
    init_code: &'a [u8],
}

impl<'a> FindBytecodeResult<'a> {
    /// The kind of the match.
    pub closed spec fn kind_spec(&self) -> ContractType {
        self.kind
    }

    /// The identifier of the found contract.
    pub closed spec fn info_spec(&self) -> ContractInfo {
        *self.info
    }

    /// The found contract.
    pub closed spec fn contract_spec(&self) -> DualCompiledContract {
        *self.contract
    }

    /// The init code searched for.
    pub closed spec fn init_code_spec(&self) -> Seq<u8> {
        self.init_code@
    }

    /// The length of the bytecode that precedes the constructor arguments.
    pub open spec fn code_len(&self) -> nat {
        match self.kind_spec() {
            ContractType::Resolc => bytes_len_of(self.contract_spec().resolc_deployed_bytecode@),
            ContractType::EVM => bytes_len_of(self.contract_spec().evm_bytecode@),
        }
    }

    /// The kind of the match.
    pub fn kind(&self) -> (r: ContractType)
        ensures
            r == self.kind_spec(),
    {
        self.kind
    }

    /// Retrieve the found contract's info
    pub fn info(&self) -> (r: &'a ContractInfo)
        ensures
            *r == self.info_spec(),
    {
        self.info
    }

    /// Retrieve the found contract
    pub fn contract(self) -> (r: &'a DualCompiledContract)
        ensures
            *r == self.contract_spec(),
    {
        self.contract
    }

    /// Retrieve the correct constructor args: the init code after the bytecode.
    pub fn constructor_args(&self) -> (r: &'a [u8])
        requires
            self.code_len() <= self.init_code_spec().len(),
        ensures
            r@ == self.init_code_spec().skip(self.code_len() as int),
    {
        let n = match self.kind {
            ContractType::Resolc => self.contract.resolc_deployed_bytecode.bytes_len(),
            ContractType::EVM => self.contract.evm_bytecode.bytes_len(),
        };
        let (_, tail) = self.init_code.split_at(n);
        assert(tail@ =~= self.init_code@.skip(n as int));
        tail
    }
}

impl DualCompiledContracts {
    #[verifier::spinoff_prover]
    fn push_matches<'a>(&'a self, t: FindMatchType, path: Option<&str>, name: Option<&str>, out: &mut Vec<(FindMatchType, &'a DualCompiledContract)>, Ghost(start): Ghost<Seq<(FindMatchType, int)>>)
        requires
            lists_results(self.entries(), start, old(out)@),
        ensures
            lists_results(self.entries(), start + match_positions(self.entries(), t, text_view(path), text_view(name)).map_values(|i: int| (t, i)), final(out)@),
    {
        let ghost v = self.entries();
        let mut i: usize = 0;
        while i < self.contracts.len()
            invariant
                v == self.contracts@,
                i <= v.len(),
                lists_results(v, start + match_positions(v.take(i as int), t, text_view(path), text_view(name)).map_values(|k: int| (t, k)), out@),
            decreases v.len() - i,
        {
            assert(v.take(i + 1).drop_last() =~= v.take(i as int));
            let ghost before = out@;
            let ghost res0 = start + match_positions(v.take(i as int), t, text_view(path), text_view(name)).map_values(|k: int| (t, k));
            let ghost res1 = start + match_positions(v.take(i + 1), t, text_view(path), text_view(name)).map_values(|k: int| (t, k));
            assert(v.take(i + 1).last() == v[i as int]);
            assert(v.take(i + 1).len() - 1 == i);
            let hit = text_matches(t, &self.contracts[i].0, path, name);
            assert(hit == matches_as(t, v[i as int].0, text_view(path), text_view(name)));
            if hit {
                out.push((t, &self.contracts[i].1));
                assert(res1 =~= res0.push((t, i as int)));
                assert forall|k: int| 0 <= k < out@.len() implies (#[trigger] out@[k]).0 == res1[k].0 && 0 <= res1[k].1 < v.len() && *out@[k].1 == v[res1[k].1].1 by {
                    if k < before.len() {
                        assert(out@[k] == before[k]);
                        assert(res1[k] == res0[k]);
                    }
                }
            } else {
                assert(res1 =~= res0);
            }
            i = i + 1;
        }
        assert(v.take(v.len() as int) =~= v);
    }

    /// Search for matching contracts in the collection
    ///
    /// Contracts are ordered in descending best-fit order: full matches (path
    /// and name), then path matches, then name matches. A path matches when the
    /// contract's path ends with it.
    pub fn find<'a>(&'a self, path: Option<&str>, name: Option<&str>) -> (r: Vec<(FindMatchType, &'a DualCompiledContract)>)
        ensures
            lists_results(self.entries(), find_results(self.entries(), text_view(path), text_view(name)), r@),
    {
        let mut out: Vec<(FindMatchType, &'a DualCompiledContract)> = Vec::new();
        let ghost e: Seq<(FindMatchType, int)> = Seq::empty();
        self.push_matches(FindMatchType::FullMatch, path, name, &mut out, Ghost(e));
        let ghost s1 = e + match_positions(self.entries(), FindMatchType::FullMatch, text_view(path), text_view(name)).map_values(|i: int| (FindMatchType::FullMatch, i));
        self.push_matches(FindMatchType::Path, path, name, &mut out, Ghost(s1));
        let ghost s2 = s1 + match_positions(self.entries(), FindMatchType::Path, text_view(path), text_view(name)).map_values(|i: int| (FindMatchType::Path, i));
        self.push_matches(FindMatchType::Name, path, name, &mut out, Ghost(s2));
        assert(e + match_positions(self.entries(), FindMatchType::FullMatch, text_view(path), text_view(name)).map_values(|i: int| (FindMatchType::FullMatch, i)) =~= match_positions(self.entries(), FindMatchType::FullMatch, text_view(path), text_view(name)).map_values(|i: int| (FindMatchType::FullMatch, i)));
        out
    }
}

/// The position of the first contract satisfying `p`.
pub open spec fn first_position(v: Seq<(ContractInfo, DualCompiledContract)>, p: spec_fn(DualCompiledContract) -> bool) -> Option<int> {
    if exists|i: int| is_first(v, i, p) {
        Some(choose|i: int| is_first(v, i, p))
    } else {
        None
    }
}

pub proof fn lemma_first_position(v: Seq<(ContractInfo, DualCompiledContract)>, p: spec_fn(DualCompiledContract) -> bool, i: int)
    requires
        is_first(v, i, p),
    ensures
        first_position(v, p) == Some(i),
{
    let j = choose|j: int| is_first(v, j, p);
    if j < i {
        assert(!p(v[j].1));
    } else if i < j {
        assert(!p(v[i].1));
    }
}

pub proof fn lemma_first_position_none(v: Seq<(ContractInfo, DualCompiledContract)>, p: spec_fn(DualCompiledContract) -> bool)
    requires
        forall|i: int| 0 <= i < v.len() ==> !p(#[trigger] v[i].1),
    ensures
        first_position(v, p) is None,
{
}

/// What a search for bytecode gives: the contract whose EVM bytecode or
/// resolc deployed bytecode begins `code` (the first of each), the longer of
/// the two matches when both match (resolc on a tie), with the identifier and
/// the contract of that match.
pub open spec fn find_bytecode_spec(v: Seq<(ContractInfo, DualCompiledContract)>, code: Seq<u8>) -> Option<(ContractType, int, int)> {
    let evm = first_position(v, |c: DualCompiledContract| evm_matches(c, code));
    let resolc = first_position(v, |c: DualCompiledContract| resolc_matches(c, code));
    match (evm, resolc) {
        (Some(e), Some(z)) => if bytes_len_of(v[z].1.resolc_deployed_bytecode@) >= bytes_len_of(v[e].1.evm_bytecode@) {
            Some((ContractType::Resolc, z, z))
        } else {
            Some((ContractType::EVM, e, e))
        },
        (Some(e), None) => Some((ContractType::EVM, e, e)),
        (None, Some(z)) => Some((ContractType::Resolc, z, z)),
        (None, None) => None,
    }
}

impl DualCompiledContracts {
    /// Find a contract matching the given bytecode, whether it's EVM or ZK.
    ///
    /// Will prioritize longest match
    pub fn find_bytecode<'a>(&'a self, init_code: &'a [u8]) -> (r: Option<FindBytecodeResult<'a>>)
        ensures
            match find_bytecode_spec(self.entries(), init_code@) {
                Some((kind, info_at, contract_at)) => r matches Some(x) && x.kind_spec() == kind && x.info_spec() == self.entries()[info_at].0 && x.contract_spec() == self.entries()[contract_at].1 && x.init_code_spec() == init_code@,
                None => r is None,
            },
    {
        let ghost v = self.entries();
        let ghost pe = |c: DualCompiledContract| evm_matches(c, init_code@);
        let ghost pz = |c: DualCompiledContract| resolc_matches(c, init_code@);
        let evm = self.find_by_evm_bytecode(init_code);
        let resolc = self.find_by_resolc_deployed_bytecode(init_code);
        proof {
            match evm {
                Some((a, c)) => {
                    let i = choose|i: int| is_first(v, i, pe) && *a == v[i].0 && *c == v[i].1;
                    lemma_first_position(v, pe, i);
                },
                None => lemma_first_position_none(v, pe),
            }
            match resolc {
                Some((a, c)) => {
                    let i = choose|i: int| is_first(v, i, pz) && *a == v[i].0 && *c == v[i].1;
                    lemma_first_position(v, pz, i);
                },
                None => lemma_first_position_none(v, pz),
            }
        }
        match (evm, resolc) {
            (Some((evm_info, evm_contract)), Some((resolc_info, resolc_contract))) => {
                if resolc_contract.resolc_deployed_bytecode.bytes_len() >= evm_contract.evm_bytecode.bytes_len() {
                    Some(FindBytecodeResult { kind: ContractType::Resolc, contract: resolc_contract, init_code, info: resolc_info })
                } else {
                    Some(FindBytecodeResult { kind: ContractType::EVM, contract: evm_contract, init_code, info: evm_info })
                }
            },
            (Some((info, contract)), None) => Some(FindBytecodeResult { kind: ContractType::EVM, info, contract, init_code }),
            (None, Some((info, contract))) => Some(FindBytecodeResult { kind: ContractType::Resolc, info, contract, init_code }),
            (None, None) => None,
        }
    }
}

/// What the solc output gives for a contract: its bytecode, its deployed
/// bytecode and immutable references.
#[derive(Clone, Debug)]
pub struct SolcArtifactData {
    pub info: ContractInfo,
    pub bytecode: Option<BytecodeObject>,
    pub deployed_bytecode: Option<BytecodeObject>,
    pub immutable_references: Option<ImmutableReferences>,
}

/// What the resolc output gives for a contract: its bytecode, the hash of it
/// and the hashes of its factory dependencies.
#[derive(Clone, Debug)]
pub struct ResolcArtifactData {
    pub info: ContractInfo,
    pub bytecode: Option<BytecodeObject>,
    pub hash: Option<String>,
    pub factory_dependencies: Option<Vec<String>>,
}

/// The contracts as identifier and contract values.
pub open spec fn entries_view(v: Seq<(ContractInfo, DualCompiledContract)>) -> Seq<(crate::info::ContractInfoView, DualView)> {
    v.map_values(|e: (ContractInfo, DualCompiledContract)| (e.0@, e.1@))
}

/// `s` with the entry of `e`'s identifier replaced by `e`, or `e` appended
/// when there is none.
pub open spec fn insert_view(s: Seq<(crate::info::ContractInfoView, DualView)>, e: (crate::info::ContractInfoView, DualView)) -> Seq<(crate::info::ContractInfoView, DualView)> {
    if exists|i: int| 0 <= i < s.len() && #[trigger] s[i].0 == e.0 {
        s.update(choose|i: int| 0 <= i < s.len() && #[trigger] s[i].0 == e.0, e)
    } else {
        s.push(e)
    }
}

/// The last solc artifact of an identifier with both bytecodes.
pub open spec fn solc_entry(solc: Seq<SolcArtifactData>, k: crate::info::ContractInfoView) -> Option<int>
    decreases solc.len(),
{
    if solc.len() == 0 {
        None
    } else if solc.last().info@ == k && solc.last().bytecode is Some && solc.last().deployed_bytecode is Some {
        Some(solc.len() - 1)
    } else {
        solc_entry(solc.drop_last(), k)
    }
}

/// The bytecode of the last resolc artifact with the given hash and a bytecode.
pub open spec fn bytecode_for_hash(resolc: Seq<ResolcArtifactData>, h: Seq<char>) -> Option<BytecodeView>
    decreases resolc.len(),
{
    if resolc.len() == 0 {
        None
    } else if resolc.last().hash matches Some(x) && x@ == h && resolc.last().bytecode is Some {
        Some(resolc.last().bytecode->0@)
    } else {
        bytecode_for_hash(resolc.drop_last(), h)
    }
}

/// The bytecodes of factory dependencies given by hash.
pub open spec fn deps_bytecodes(resolc: Seq<ResolcArtifactData>, hashes: Seq<String>) -> Seq<BytecodeView> {
    hashes.map_values(|h: String| bytecode_for_hash(resolc, h@)->0)
}

/// Whether a resolc artifact is paired: it has bytecode, hash and factory
/// dependencies, and solc gave both bytecodes for its identifier.
pub open spec fn is_paired(solc: Seq<SolcArtifactData>, a: ResolcArtifactData) -> bool {
    a.bytecode is Some && a.hash is Some && a.factory_dependencies is Some && solc_entry(solc, a.info@) is Some
}

/// Whether the factory dependencies of every paired artifact are among the
/// resolc bytecodes.
pub open spec fn deps_resolved(solc: Seq<SolcArtifactData>, resolc: Seq<ResolcArtifactData>) -> bool {
    forall|i: int| 0 <= i < resolc.len() && is_paired(solc, #[trigger] resolc[i]) ==> forall|k: int| 0 <= k < resolc[i].factory_dependencies->0@.len() ==> #[trigger] bytecode_for_hash(resolc, resolc[i].factory_dependencies->0@[k]@) is Some
}

/// The dual contract of a paired artifact.
pub open spec fn dual_of(solc: Seq<SolcArtifactData>, resolc: Seq<ResolcArtifactData>, a: ResolcArtifactData) -> DualView {
    let s = solc[solc_entry(solc, a.info@)->0];
    let code = a.bytecode->0@;
    DualView {
        resolc_bytecode_hash: a.hash->0@,
        resolc_bytecode: code,
        resolc_deployed_bytecode: code,
        resolc_factory_deps: deps_bytecodes(resolc, a.factory_dependencies->0@).push(code),
        evm_bytecode_hash: spec_keccak256(object_bytes(s.deployed_bytecode->0@)),
        evm_bytecode: s.bytecode->0@,
        evm_deployed_bytecode: s.deployed_bytecode->0@,
        evm_immutable_references: match s.immutable_references {
            Some(r) => Some(reference_views(r@)),
            None => None,
        },
    }
}

/// The contracts paired from the first `n` resolc artifacts, in order, a
/// later artifact replacing an earlier one of the same identifier.
pub open spec fn paired_entries(solc: Seq<SolcArtifactData>, resolc: Seq<ResolcArtifactData>, n: int) -> Seq<(crate::info::ContractInfoView, DualView)>
    decreases n,
{
    if n <= 0 {
        Seq::empty()
    } else {
        let prev = paired_entries(solc, resolc, n - 1);
        let a = resolc[n - 1];
        if is_paired(solc, a) {
            insert_view(prev, (a.info@, dual_of(solc, resolc, a)))
        } else {
            prev
        }
    }
}

fn duplicate_info(info: &ContractInfo) -> (r: ContractInfo)
    ensures
        r == *info,
{
    ContractInfo {
        path: match &info.path {
            Some(p) => Some(p.clone()),
            None => None,
        },
        name: match &info.name {
            Some(n) => Some(n.clone()),
            None => None,
        },
    }
}

fn duplicate_refs(r: &Option<ImmutableReferences>) -> (d: Option<ImmutableReferences>)
    ensures
        match *r {
            Some(x) => d matches Some(y) && reference_views(y@) == reference_views(x@),
            None => d is None,
        },
{
    match r {
        None => None,
        Some(groups) => {
            let mut out: ImmutableReferences = Vec::new();
            let mut g: usize = 0;
            while g < groups.len()
                invariant
                    g <= groups@.len(),
                    reference_views(out@) == reference_views(groups@.take(g as int)),
                decreases groups@.len() - g,
            {
                let offs = &groups[g].1;
                let mut copy: Vec<Offsets> = Vec::new();
                let mut k: usize = 0;
                while k < offs.len()
                    invariant
                        k <= offs@.len(),
                        copy@ == offs@.take(k as int),
                    decreases offs@.len() - k,
                {
                    copy.push(offs[k]);
                    k = k + 1;
                }
                assert(offs@.take(offs@.len() as int) =~= offs@);
                let ghost before = out@;
                out.push((groups[g].0.clone(), copy));
                assert(reference_views(out@) =~= reference_views(before).push((groups@[g as int].0@, groups@[g as int].1@)));
                assert(reference_views(groups@.take(g + 1)) =~= reference_views(groups@.take(g as int)).push((groups@[g as int].0@, groups@[g as int].1@)));
                g = g + 1;
            }
            assert(groups@.take(groups@.len() as int) =~= groups@);
            Some(out)
        },
    }
}

fn find_solc_entry(solc: &[SolcArtifactData], info: &ContractInfo) -> (r: Option<usize>)
    ensures
        match solc_entry(solc@, info@) {
            Some(i) => r == Some(i as usize),
            None => r is None,
        },
{
    let mut n: usize = solc.len();
    assert(solc@.take(n as int) =~= solc@);
    while n > 0
        invariant
            n <= solc@.len(),
            solc_entry(solc@, info@) == solc_entry(solc@.take(n as int), info@),
        decreases n,
    {
        let a = &solc[n - 1];
        assert(solc@.take(n as int).last() == solc@[n - 1]);
        assert(solc@.take(n as int).drop_last() =~= solc@.take(n - 1));
        if same_info(&a.info, info) && a.bytecode.is_some() && a.deployed_bytecode.is_some() {
            return Some(n - 1);
        }
        n = n - 1;
    }
    None
}

fn find_bytecode_for_hash(resolc: &[ResolcArtifactData], h: &String) -> (r: Option<BytecodeObject>)
    ensures
        match bytecode_for_hash(resolc@, h@) {
            Some(b) => r matches Some(x) && x@ == b,
            None => r is None,
        },
{
    let want = chars_of(h.as_str());
    let mut n: usize = resolc.len();
    assert(resolc@.take(n as int) =~= resolc@);
    while n > 0
        invariant
            n <= resolc@.len(),
            want@ == h@,
            bytecode_for_hash(resolc@, h@) == bytecode_for_hash(resolc@.take(n as int), h@),
        decreases n,
    {
        let a = &resolc[n - 1];
        assert(resolc@.take(n as int).last() == resolc@[n - 1]);
        assert(resolc@.take(n as int).drop_last() =~= resolc@.take(n - 1));
        match (&a.hash, &a.bytecode) {
            (Some(x), Some(b)) => {
                let xv = chars_of(x.as_str());
                if chars_eq(xv.as_slice(), want.as_slice()) {
                    return Some(b.duplicate());
                }
            },
            _ => {},
        }
        n = n - 1;
    }
    None
}

proof fn lemma_solc_entry(solc: Seq<SolcArtifactData>, k: crate::info::ContractInfoView)
    ensures
        solc_entry(solc, k) matches Some(i) ==> 0 <= i < solc.len() && solc[i].info@ == k && solc[i].bytecode is Some && solc[i].deployed_bytecode is Some,
    decreases solc.len(),
{
    if solc.len() > 0 {
        lemma_solc_entry(solc.drop_last(), k);
    }
}

proof fn lemma_insert_view(v: Seq<(ContractInfo, DualCompiledContract)>, e: (ContractInfo, DualCompiledContract), pos: Option<int>)
    requires
        distinct_infos(v),
        match pos {
            Some(i) => 0 <= i < v.len() && v[i].0@ == e.0@,
            None => forall|i: int| 0 <= i < v.len() ==> #[trigger] v[i].0@ != e.0@,
        },
    ensures
        entries_view(match pos {
            Some(i) => v.update(i, e),
            None => v.push(e),
        }) == insert_view(entries_view(v), (e.0@, e.1@)),
{
    let w = entries_view(v);
    match pos {
        Some(i) => {
            assert(w[i].0 == e.0@);
            let j = choose|j: int| 0 <= j < w.len() && #[trigger] w[j].0 == e.0@;
            if j != i {
                if j < i {
                    assert(v[j].0@ != v[i].0@);
                } else {
                    assert(v[i].0@ != v[j].0@);
                }
            }
            assert(entries_view(v.update(i, e)) =~= w.update(i, (e.0@, e.1@)));
        },
        None => {
            assert forall|j: int| 0 <= j < w.len() implies #[trigger] w[j].0 != e.0@ by {
                assert(v[j].0@ != e.0@);
            }
            assert(entries_view(v.push(e)) =~= w.push((e.0@, e.1@)));
        },
    }
}

impl DualCompiledContracts {
    /// Creates a collection of `[DualCompiledContract]`s from the solc and
    /// resolc outputs: for each resolc artifact, in order, that has bytecode,
    /// hash and factory dependencies and whose identifier solc gave both
    /// bytecodes for, the contract with the bytecodes of both, its factory
    /// dependencies followed by itself, and the Keccak-256 hash of the solc
    /// deployed bytecode.
    pub fn new(solc: &[SolcArtifactData], resolc: &[ResolcArtifactData], evm_artifact_path: String, resolc_artifact_path: String) -> (r: Self)
        requires
            deps_resolved(solc@, resolc@),
        ensures
            r.wf(),
            entries_view(r.entries()) == paired_entries(solc@, resolc@, resolc@.len() as int),
            r.resolc_dir() == resolc_artifact_path@,
            r.evm_dir() == evm_artifact_path@,
    {
        let mut out = Self::empty(resolc_artifact_path, evm_artifact_path);
        let mut i: usize = 0;
        while i < resolc.len()
            invariant
                i <= resolc@.len(),
                deps_resolved(solc@, resolc@),
                out.wf(),
                entries_view(out.entries()) == paired_entries(solc@, resolc@, i as int),
                out.resolc_dir() == resolc_artifact_path@,
                out.evm_dir() == evm_artifact_path@,
            decreases resolc@.len() - i,
        {
            let a = &resolc[i];
            match (&a.bytecode, &a.hash, &a.factory_dependencies) {
                (Some(code), Some(hash), Some(deps)) => {
                    match find_solc_entry(solc, &a.info) {
                        Some(si) => {
                            proof {
                                lemma_solc_entry(solc@, a.info@);
                            }
                            let s = &solc[si];
                            match (&s.bytecode, &s.deployed_bytecode) {
                                (Some(bytecode), Some(deployed)) => {
                                    assert(is_paired(solc@, resolc@[i as int]));
                                    let mut fdeps: Vec<BytecodeObject> = Vec::new();
                                    let mut k: usize = 0;
                                    while k < deps.len()
                                        invariant
                                            k <= deps@.len(),
                                            i < resolc@.len(),
                                            *a == resolc@[i as int],
                                            a.factory_dependencies == Some(*deps),
                                            is_paired(solc@, resolc@[i as int]),
                                            deps_resolved(solc@, resolc@),
                                            object_views(fdeps@) == deps_bytecodes(resolc@, deps@.take(k as int)),
                                        decreases deps@.len() - k,
                                    {
                                        let ghost before = fdeps@;
                                        match find_bytecode_for_hash(resolc, &deps[k]) {
                                            Some(b) => {
                                                fdeps.push(b);
                                            },
                                            None => {
                                                assert(resolc@[i as int].factory_dependencies->0@[k as int] == deps@[k as int]);
                                                assert(bytecode_for_hash(resolc@, resolc@[i as int].factory_dependencies->0@[k as int]@) is Some);
                                            },
                                        }
                                        assert(object_views(fdeps@) =~= object_views(before).push(bytecode_for_hash(resolc@, deps@[k as int]@)->0));
                                        assert(deps_bytecodes(resolc@, deps@.take(k + 1)) =~= deps_bytecodes(resolc@, deps@.take(k as int)).push(bytecode_for_hash(resolc@, deps@[k as int]@)->0));
                                        k = k + 1;
                                    }
                                    assert(deps@.take(deps@.len() as int) =~= deps@);
                                    let ghost before = fdeps@;
                                    fdeps.push(code.duplicate());
                                    assert(object_views(fdeps@) =~= object_views(before).push(code@));
                                    let contract = DualCompiledContract {
                                        resolc_bytecode_hash: hash.clone(),
                                        resolc_bytecode: code.duplicate(),
                                        resolc_deployed_bytecode: code.duplicate(),
                                        resolc_factory_deps: fdeps,
                                        evm_bytecode_hash: keccak256(deployed.as_ref_bytes()),
                                        evm_bytecode: bytecode.duplicate(),
                                        evm_deployed_bytecode: deployed.duplicate(),
                                        evm_immutable_references: duplicate_refs(&s.immutable_references),
                                    };
                                    proof {
                                        let d = dual_of(solc@, resolc@, resolc@[i as int]);
                                        assert(solc@[si as int] == *s);
                                        assert(contract@.resolc_bytecode_hash == d.resolc_bytecode_hash);
                                        assert(contract@.resolc_factory_deps == d.resolc_factory_deps);
                                        assert(contract@.evm_bytecode_hash == d.evm_bytecode_hash);
                                        assert(contract@.evm_immutable_references == d.evm_immutable_references);
                                        assert(contract@ == d);
                                    }
                                    out.insert(duplicate_info(&a.info), contract);
                                },
                                _ => {
                                    assert(false);
                                },
                            }
                        },
                        None => {},
                    }
                },
                _ => {},
            }
            i = i + 1;
        }
        out
    }
}

/// The resolc deployed bytecodes of the contracts found by hash, in the
/// order of the hashes, skipping hashes no contract has.
pub open spec fn deps_by_hash(v: Seq<(ContractInfo, DualCompiledContract)>, hashes: Seq<String>) -> Seq<BytecodeView>
    decreases hashes.len(),
{
    if hashes.len() == 0 {
        Seq::empty()
    } else {
        let prev = deps_by_hash(v, hashes.drop_last());
        match first_position(v, |c: DualCompiledContract| hash_matches(c, hashes.last()@)) {
            Some(i) => prev.push(v[i].1.resolc_deployed_bytecode@),
            None => prev,
        }
    }
}

/// A contract with more factory dependencies.
pub open spec fn with_deps(d: DualView, extra: Seq<BytecodeView>) -> DualView {
    DualView { resolc_factory_deps: d.resolc_factory_deps + extra, ..d }
}

/// The entries after inserting each of `items` in order.
pub open spec fn insert_all(s: Seq<(crate::info::ContractInfoView, DualView)>, items: Seq<(ContractInfo, DualCompiledContract)>) -> Seq<(crate::info::ContractInfoView, DualView)>
    decreases items.len(),
{
    if items.len() == 0 {
        s
    } else {
        insert_view(insert_all(s, items.drop_last()), (items.last().0@, items.last().1@))
    }
}

impl DualCompiledContracts {
    /// Returns the contract type (Resolc or EVM) based on the artifact path:
    /// resolc where it lies under the resolc artifacts directory, else EVM.
    pub fn get_contract_type_by_artifact(&self, artifact_id: &ArtifactId) -> (r: Option<ContractType>)
        requires
            path_starts_with(artifact_id.path@, self.resolc_dir()) || path_starts_with(artifact_id.path@, self.evm_dir()),
        ensures
            r == Some(if path_starts_with(artifact_id.path@, self.resolc_dir()) {
                ContractType::Resolc
            } else {
                ContractType::EVM
            }),
    {
        if starts_with(artifact_id.path.as_str(), self.resolc_artifact_path.as_str()) {
            Some(ContractType::Resolc)
        } else {
            Some(ContractType::EVM)
        }
    }

    /// Extend the inner set of contracts with the given ones, each replacing
    /// any contract with matching `info`
    pub fn extend(&mut self, items: Vec<(ContractInfo, DualCompiledContract)>)
        requires
            old(self).wf(),
        ensures
            final(self).wf(),
            final(self).resolc_dir() == old(self).resolc_dir(),
            final(self).evm_dir() == old(self).evm_dir(),
            entries_view(final(self).entries()) == insert_all(entries_view(old(self).entries()), items@),
    {
        let ghost start = entries_view(self.entries());
        let ghost all = items@;
        let mut rest = items;
        assert(all.take(0) =~= Seq::<(ContractInfo, DualCompiledContract)>::empty());
        assert(all.skip(0) =~= all);
        while rest.len() > 0
            invariant
                self.wf(),
                self.resolc_dir() == old(self).resolc_dir(),
                self.evm_dir() == old(self).evm_dir(),
                rest@.len() <= all.len(),
                rest@ == all.skip(all.len() - rest@.len()),
                entries_view(self.entries()) == insert_all(start, all.take(all.len() - rest@.len())),
            decreases rest@.len(),
        {
            let ghost done = all.len() - rest@.len();
            let e = rest.remove(0);
            assert(e == all[done]);
            assert(rest@ =~= all.skip(done + 1));
            assert(all.take(done + 1).drop_last() =~= all.take(done));
            self.insert(e.0, e.1);
        }
        assert(all.take(all.len() as int) =~= all);
    }

    /// Populate the target's factory deps based on the new list: the resolc
    /// deployed bytecode of the contract with each hash
    pub fn extend_factory_deps_by_hash(&self, target: DualCompiledContract, factory_deps: Vec<String>) -> (r: DualCompiledContract)
        ensures
            r@ == with_deps(target@, deps_by_hash(self.entries(), factory_deps@)),
    {
        let mut target = target;
        let ghost t0 = target@;
        let mut k: usize = 0;
        while k < factory_deps.len()
            invariant
                k <= factory_deps@.len(),
                target@ == with_deps(t0, deps_by_hash(self.entries(), factory_deps@.take(k as int))),
            decreases factory_deps@.len() - k,
        {
            assert(factory_deps@.take(k + 1).drop_last() =~= factory_deps@.take(k as int));
            assert(factory_deps@.take(k + 1).last() == factory_deps@[k as int]);
            let ghost p = |c: DualCompiledContract| hash_matches(c, factory_deps@[k as int]@);
            let ghost before = target@;
            match self.find_by_resolc_bytecode_hash(factory_deps[k].clone()) {
                Some((_, c)) => {
                    proof {
                        let i = choose|i: int| is_first(self.entries(), i, p) && *c == self.entries()[i].1;
                        lemma_first_position(self.entries(), p, i);
                    }
                    target.resolc_factory_deps.push(c.resolc_deployed_bytecode.duplicate());
                    assert(target@.resolc_factory_deps =~= before.resolc_factory_deps.push(c.resolc_deployed_bytecode@));
                },
                None => {
                    proof {
                        lemma_first_position_none(self.entries(), p);
                    }
                },
            }
            assert(target@ =~= with_deps(t0, deps_by_hash(self.entries(), factory_deps@.take(k + 1))));
            k = k + 1;
        }
        assert(factory_deps@.take(factory_deps@.len() as int) =~= factory_deps@);
        target
    }

    /// Populate the target's factory deps based on the new list
    ///
    /// Will return `None` if no matching `target` exists
    /// Will not override existing factory deps
    pub fn insert_factory_deps(&mut self, target: &ContractInfo, factory_deps: Vec<BytecodeObject>) -> (r: Option<&DualCompiledContract>)
        requires
            old(self).wf(),
        ensures
            final(self).wf(),
            final(self).resolc_dir() == old(self).resolc_dir(),
            final(self).evm_dir() == old(self).evm_dir(),
            match old(self).position_spec(target@) {
                Some(i) => r matches Some(c) && entries_view(final(self).entries()) == entries_view(old(self).entries()).update(i, (target@, with_deps(old(self).entries()[i].1@, object_views(factory_deps@)))) && c@ == with_deps(old(self).entries()[i].1@, object_views(factory_deps@)),
                None => r is None && final(self).entries() == old(self).entries(),
            },
    {
        match self.position(target) {
            Some(i) => {
                proof {
                    self.lemma_position_spec(target@, i as int);
                }
                let ghost v = self.entries();
                let (info, mut contract) = self.contracts.remove(i);
                let ghost d0 = contract@;
                let mut extra = factory_deps;
                let ghost ev = object_views(extra@);
                contract.resolc_factory_deps.append(&mut extra);
                assert(contract@.resolc_factory_deps =~= d0.resolc_factory_deps + ev);
                self.contracts.insert(i, (info, contract));
                proof {
                    assert(self.contracts@ =~= v.update(i as int, self.contracts@[i as int]));
                    assert(entries_view(self.contracts@) =~= entries_view(v).update(i as int, (target@, with_deps(v[i as int].1@, ev))));
                    assert forall|a: int, b: int| 0 <= a < b < self.contracts@.len() implies self.contracts@[a].0@ != self.contracts@[b].0@ by {
                        assert(v[a].0@ != v[b].0@);
                    }
                }
                Some(&self.contracts[i].1)
            },
            None => None,
        }
    }
}

/// No identifier occurs twice among the entry values.
pub open spec fn distinct_view_keys(s: Seq<(crate::info::ContractInfoView, DualView)>) -> bool {
    forall|i: int, j: int| 0 <= i < j < s.len() ==> s[i].0 != s[j].0
}

/// What is inserted is found afterwards under its identifier, the other
/// contracts stay, and identifiers stay distinct.
pub proof fn lemma_insert_then_get(s: Seq<(crate::info::ContractInfoView, DualView)>, e: (crate::info::ContractInfoView, DualView))
    requires
        distinct_view_keys(s),
    ensures
        insert_view(s, e).contains(e),
        distinct_view_keys(insert_view(s, e)),
        forall|j: int| 0 <= j < s.len() && s[j].0 != e.0 ==> insert_view(s, e).contains(#[trigger] s[j]),
{
    let t = insert_view(s, e);
    if exists|i: int| 0 <= i < s.len() && #[trigger] s[i].0 == e.0 {
        let i = choose|i: int| 0 <= i < s.len() && #[trigger] s[i].0 == e.0;
        assert(t[i] == e);
        assert forall|j: int| 0 <= j < s.len() && s[j].0 != e.0 implies t.contains(#[trigger] s[j]) by {
            assert(t[j] == s[j]);
        }
        assert forall|a: int, b: int| 0 <= a < b < t.len() implies t[a].0 != t[b].0 by {
            if a != i && b != i {
                assert(t[a] == s[a] && t[b] == s[b]);
            } else if a == i {
                assert(t[b] == s[b]);
                assert(s[i].0 != s[b].0);
            } else {
                assert(t[a] == s[a]);
                assert(s[a].0 != s[i].0);
            }
        }
    } else {
        assert(t[s.len() as int] == e);
        assert forall|j: int| 0 <= j < s.len() && s[j].0 != e.0 implies t.contains(#[trigger] s[j]) by {
            assert(t[j] == s[j]);
        }
        assert forall|a: int, b: int| 0 <= a < b < t.len() implies t[a].0 != t[b].0 by {
            if b == s.len() {
                assert(t[a] == s[a]);
                assert(s[a].0 != e.0);
            } else {
                assert(t[a] == s[a] && t[b] == s[b]);
            }
        }
    }
}

/// Where some entry satisfies `p`, a first one does.
proof fn lemma_some_first(v: Seq<(ContractInfo, DualCompiledContract)>, p: spec_fn(DualCompiledContract) -> bool, i: int)
    requires
        0 <= i < v.len(),
        p(v[i].1),
    ensures
        exists|j: int| is_first(v, j, p),
    decreases i,
{
    if exists|j: int| 0 <= j < i && p(#[trigger] v[j].1) {
        let j = choose|j: int| 0 <= j < i && p(#[trigger] v[j].1);
        lemma_some_first(v, p, j);
    } else {
        assert(is_first(v, i, p));
    }
}

/// Entry `i` is the first whose EVM bytecode begins the code.
pub open spec fn first_evm(v: Seq<(ContractInfo, DualCompiledContract)>, code: Seq<u8>, i: int) -> bool {
    0 <= i < v.len() && evm_matches(v[i].1, code) && forall|j: int| 0 <= j < i ==> !evm_matches(#[trigger] v[j].1, code)
}

/// Entry `i` is the first whose resolc deployed bytecode begins the code.
pub open spec fn first_resolc(v: Seq<(ContractInfo, DualCompiledContract)>, code: Seq<u8>, i: int) -> bool {
    0 <= i < v.len() && resolc_matches(v[i].1, code) && forall|j: int| 0 <= j < i ==> !resolc_matches(#[trigger] v[j].1, code)
}

/// A search for bytecode finds a contract exactly when the EVM bytecode or
/// the resolc deployed bytecode of some contract begins the code. What it
/// finds is a contract that matches by the kind it reports, the first that
/// matches that way, with that contract's identifier; and its match is the
/// longer one: the first contract matching the other way matches by fewer
/// bytes (resolc wins a tie).
pub proof fn lemma_find_bytecode_law(v: Seq<(ContractInfo, DualCompiledContract)>, code: Seq<u8>)
    ensures
        (find_bytecode_spec(v, code) is Some) <==> exists|i: int| 0 <= i < v.len() && (evm_matches(v[i].1, code) || resolc_matches(v[i].1, code)),
        find_bytecode_spec(v, code) matches Some((k, a, c)) ==> {
            &&& a == c
            &&& k == ContractType::EVM ==> first_evm(v, code, c) && forall|z: int| #[trigger] first_resolc(v, code, z)
                ==> bytes_len_of(v[z].1.resolc_deployed_bytecode@) < bytes_len_of(v[c].1.evm_bytecode@)
            &&& k == ContractType::Resolc ==> first_resolc(v, code, c) && forall|e: int| #[trigger] first_evm(v, code, e)
                ==> bytes_len_of(v[e].1.evm_bytecode@) <= bytes_len_of(v[c].1.resolc_deployed_bytecode@)
        },
{
    let pe = |x: DualCompiledContract| evm_matches(x, code);
    let pz = |x: DualCompiledContract| resolc_matches(x, code);
    if exists|i: int| 0 <= i < v.len() && (evm_matches(v[i].1, code) || resolc_matches(v[i].1, code)) {
        let i = choose|i: int| 0 <= i < v.len() && (evm_matches(v[i].1, code) || resolc_matches(v[i].1, code));
        if evm_matches(v[i].1, code) {
            lemma_some_first(v, pe, i);
        } else {
            lemma_some_first(v, pz, i);
        }
    }
    assert forall|e: int| #[trigger] first_evm(v, code, e) <==> is_first(v, e, pe) by {}
    assert forall|z: int| #[trigger] first_resolc(v, code, z) <==> is_first(v, z, pz) by {}
    if exists|j: int| is_first(v, j, pe) {
        let j = choose|j: int| is_first(v, j, pe);
        lemma_first_position(v, pe, j);
        assert forall|e: int| #[trigger] first_evm(v, code, e) implies e == j by {
            assert(is_first(v, e, pe));
            if e < j {
                assert(!pe(v[e].1));
            } else if j < e {
                assert(!pe(v[j].1));
            }
        }
    }
    if exists|j: int| is_first(v, j, pz) {
        let j = choose|j: int| is_first(v, j, pz);
        lemma_first_position(v, pz, j);
        assert forall|z: int| #[trigger] first_resolc(v, code, z) implies z == j by {
            assert(is_first(v, z, pz));
            if z < j {
                assert(!pz(v[z].1));
            } else if j < z {
                assert(!pz(v[j].1));
            }
        }
    }
}

} // verus!
