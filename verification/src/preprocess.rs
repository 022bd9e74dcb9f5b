//! Preprocessing of tests and scripts: bytecode dependencies (`new C(...)`,
//! `type(C).creationCode`) on project contracts are replaced by cheatcode
//! calls that deploy the compiled artifact, so that changing a contract does
//! not force recompiling every test that deploys it.

use crate::sources::{Source, Sources};
use crate::paths::{path_starts_with, starts_with, stripped, strip_prefix_or_same};
use crate::text::{dec, push_decimal, push_str};
use vstd::prelude::*;

verus! {

/// The test (or script) directory relative to the root, or the root where the
/// directory does not lie under it.
pub open spec fn relative_dir(dir: Seq<char>, root: Seq<char>) -> Seq<char> {
    if path_starts_with(dir, root) {
        stripped(dir, root)
    } else {
        root
    }
}

/// Whether `path` lies in the tests or scripts directory of a project, each
/// taken relative to the project root (or the root itself where it does not
/// lie under the root).
pub fn is_test_or_script(path: &str, root: &str, tests: &str, scripts: &str) -> (r: bool)
    ensures
        r == (path_starts_with(path@, relative_dir(tests@, root@)) || path_starts_with(path@, relative_dir(scripts@, root@))),
{
    let test_dir = if starts_with(tests, root) {
        strip_prefix_or_same(crate::text::owned(tests), root)
    } else {
        crate::text::owned(root)
    };
    let script_dir = if starts_with(scripts, root) {
        strip_prefix_or_same(crate::text::owned(scripts), root)
    } else {
        crate::text::owned(root)
    };
    starts_with(path, test_dir.as_str()) || starts_with(path, script_dir.as_str())
}

/// A byte range in a source.
#[derive(Clone, Copy, Debug, PartialEq, Eq, Structural)]
pub struct SourceMapLocation {
    pub start: usize,
    pub end: usize,
}

/// Represents a bytecode dependency kind.
#[derive(Clone, Debug)]
pub enum BytecodeDependencyKind {
    /// `type(Contract).creationCode`
    CreationCode,
    /// `new Contract`. Holds the name of the contract and args length.
    New(String, usize),
}

/// Represents a single bytecode dependency.
#[derive(Clone, Debug)]
pub struct BytecodeDependency {
    /// Dependency kind.
    pub kind: BytecodeDependencyKind,
    /// Source map location of this dependency.
    pub loc: SourceMapLocation,
    /// HIR id of referenced contract.
    pub referenced_contract: u32,
}

/// Holds data about referenced source contracts and bytecode dependencies.
#[derive(Clone, Debug)]
pub struct PreprocessorDependencies {
    /// Test contract id and its bytecode dependencies, by id.
    pub bytecode_deps: Vec<(u32, Vec<BytecodeDependency>)>,
    /// Referenced contract ids.
    pub referenced_contracts: Vec<u32>,
}

/// Keeps data about a contract constructor.
#[derive(Clone, Debug)]
pub struct ContractConstructorData {
    /// ABI encoded args.
    pub abi_encode_args: String,
    /// Constructor struct fields.
    pub struct_fields: String,
}

/// Keeps data about a single contract definition.
#[derive(Clone, Debug)]
pub struct ContractData {
    /// HIR Id of the contract.
    pub hir_id: u32,
    /// Path of the source file.
    pub path: String,
    /// Name of the contract
    pub name: String,
    /// Constructor parameters, if any.
    pub constructor_data: Option<ContractConstructorData>,
    /// Artifact string to pass into cheatcodes.
    pub artifact: String,
}

/// The name of the cheatcode interface declared for a contract.
pub open spec fn vm_name(id: u32) -> Seq<char> {
    "VmContractHelper"@ + dec(id as nat)
}

/// The cheatcode contract, as an expression.
pub open spec fn vm_call(id: u32) -> Seq<char> {
    vm_name(id) + "(0x7109709ECfa91a80626fF3989D68f67F5b1DD12D)"@
}

/// The declaration of the cheatcode interface.
pub open spec fn vm_interface(id: u32) -> Seq<char> {
    "interface "@ + vm_name(id)
        + " {\n    function deployCode(string memory _artifact, bytes memory _data) external returns (address);\n    function deployCode(string memory _artifact) external returns (address);\n    function getCode(string memory _artifact) external returns (bytes memory);\n}"@
}

/// The call that gives the creation code of an artifact.
pub open spec fn get_code_text(id: u32, artifact: Seq<char>) -> Seq<char> {
    vm_call(id) + ".getCode(\""@ + artifact + "\")"@
}

/// The call that deploys an artifact whose constructor takes no arguments.
pub open spec fn deploy_text(name: Seq<char>, id: u32, artifact: Seq<char>) -> Seq<char> {
    name + "(payable("@ + vm_call(id) + ".deployCode(\""@ + artifact + "\")))"@
}

/// The call of the deploy helper of a contract, up to its arguments.
pub open spec fn helper_call_text(r: u32) -> Seq<char> {
    "deployCode"@ + dec(r as nat) + "(DeployHelper"@ + dec(r as nat) + ".ConstructorArgs"@
}

/// The import of the deploy helper of a contract.
pub open spec fn helper_import(r: u32) -> Seq<char> {
    "import {DeployHelper"@ + dec(r as nat) + ", encodeArgs"@ + dec(r as nat) + ", deployCode"@
        + dec(r as nat) + "} from \"foundry-pp/DeployHelper"@ + dec(r as nat) + ".sol\";"@
}

/// The imports of deploy helpers, one per line.
pub open spec fn helper_imports(ids: Seq<u32>) -> Seq<char>
    decreases ids.len(),
{
    if ids.len() == 0 {
        Seq::empty()
    } else if ids.len() == 1 {
        helper_import(ids[0])
    } else {
        helper_imports(ids.drop_last()) + "\n"@ + helper_import(ids.last())
    }
}

/// The text appended to a test file: the helper imports and the cheatcode interface.
pub open spec fn footer_text(id: u32, helpers: Seq<u32>) -> Seq<char> {
    "\n"@ + helper_imports(helpers) + "\n\n"@ + vm_interface(id)
}

/// An update: the byte range to replace and its replacement.
pub type Update = (usize, usize, String);

/// An update as a value.
pub open spec fn update_view(u: Update) -> (usize, usize, Seq<char>) {
    (u.0, u.1, u.2@)
}

/// The updates as values.
pub open spec fn update_views(v: Seq<Update>) -> Seq<(usize, usize, Seq<char>)> {
    v.map_values(|u: Update| update_view(u))
}

/// The data of the contract with a HIR id, the last one given.
pub open spec fn data_of(data: Seq<ContractData>, id: u32) -> Option<ContractData>
    decreases data.len(),
{
    if data.len() == 0 {
        None
    } else if data.last().hir_id == id {
        Some(data.last())
    } else {
        data_of(data.drop_last(), id)
    }
}

/// The updates for one dependency whose contract has data.
pub open spec fn dep_updates(id: u32, dep: BytecodeDependency, d: ContractData) -> Seq<(usize, usize, Seq<char>)> {
    match dep.kind {
        BytecodeDependencyKind::CreationCode => seq![(dep.loc.start, dep.loc.end, get_code_text(id, d.artifact@))],
        BytecodeDependencyKind::New(name, args) => if d.constructor_data is None {
            seq![(dep.loc.start, (dep.loc.end + args) as usize, deploy_text(name@, id, d.artifact@))]
        } else {
            seq![(dep.loc.start, dep.loc.end, helper_call_text(dep.referenced_contract)), ((dep.loc.end + args) as usize, (dep.loc.end + args) as usize, ")"@)]
        },
    }
}

/// Whether a dependency uses the deploy helper of its contract: `new` of a
/// contract with constructor arguments.
pub open spec fn uses_helper(dep: BytecodeDependency, data: Seq<ContractData>) -> bool {
    dep.kind is New && (data_of(data, dep.referenced_contract) matches Some(d) && d.constructor_data is Some)
}

/// The updates for the dependencies of a test contract, in order.
pub open spec fn deps_updates(id: u32, deps: Seq<BytecodeDependency>, data: Seq<ContractData>) -> Seq<(usize, usize, Seq<char>)>
    decreases deps.len(),
{
    if deps.len() == 0 {
        Seq::empty()
    } else {
        deps_updates(id, deps.drop_last(), data) + match data_of(data, deps.last().referenced_contract) {
            Some(d) => dep_updates(id, deps.last(), d),
            None => Seq::empty(),
        }
    }
}

/// Whether no dependency's end, moved past its arguments, overflows.
pub open spec fn ends_fit(deps: Seq<BytecodeDependency>) -> bool {
    forall|k: int| 0 <= k < deps.len() ==> match (#[trigger] deps[k]).kind {
        BytecodeDependencyKind::New(_, args) => deps[k].loc.end + args <= usize::MAX,
        BytecodeDependencyKind::CreationCode => true,
    }
}

/// Strictly increasing ids.
pub open spec fn increasing(v: Seq<u32>) -> bool {
    forall|i: int, j: int| 0 <= i < j < v.len() ==> v[i] < v[j]
}

fn find_data<'a>(data: &'a [ContractData], id: u32) -> (r: Option<&'a ContractData>)
    ensures
        match data_of(data@, id) {
            Some(d) => r matches Some(x) && *x == d,
            None => r is None,
        },
{
    let mut n: usize = data.len();
    assert(data@.take(n as int) =~= data@);
    while n > 0
        invariant
            n <= data@.len(),
            data_of(data@, id) == data_of(data@.take(n as int), id),
        decreases n,
    {
        assert(data@.take(n as int).last() == data@[n - 1]);
        assert(data@.take(n as int).drop_last() =~= data@.take(n - 1));
        if data[n - 1].hir_id == id {
            return Some(&data[n - 1]);
        }
        n = n - 1;
    }
    None
}

fn insert_id(v: &mut Vec<u32>, id: u32)
    requires
        increasing(old(v)@),
    ensures
        increasing(final(v)@),
        final(v)@.to_set() == old(v)@.to_set().insert(id),
{
    let mut i: usize = 0;
    while i < v.len() && v[i] < id
        invariant
            i <= v@.len(),
            forall|k: int| 0 <= k < i ==> v@[k] < id,
        decreases v@.len() - i,
    {
        i = i + 1;
    }
    if i < v.len() && v[i] == id {
        assert(old(v)@.to_set().insert(id) =~= old(v)@.to_set()) by {
            assert(old(v)@.contains(id));
        }
        return;
    }
    let ghost w = v@;
    v.insert(i, id);
    assert(v@ =~= w.take(i as int).push(id) + w.skip(i as int));
    assert forall|a: int, b: int| 0 <= a < b < v@.len() implies v@[a] < v@[b] by {
        if b == i {
            assert(v@[a] == w[a]);
        } else if a == i {
            assert(v@[b] == w[b - 1]);
            if i < w.len() {
                assert(w[i as int] > id);
                assert(w[i as int] <= w[b - 1]);
            }
        } else if a < i && b > i {
            assert(v@[a] == w[a] && v@[b] == w[b - 1]);
        } else if b < i {
            assert(v@[a] == w[a] && v@[b] == w[b]);
        } else {
            assert(v@[a] == w[a - 1] && v@[b] == w[b - 1]);
        }
    }
    assert(v@.to_set() =~= w.to_set().insert(id)) by {
        assert forall|x: u32| v@.to_set().contains(x) implies w.to_set().insert(id).contains(x) by {
            let k = choose|k: int| 0 <= k < v@.len() && v@[k] == x;
            if k < i {
                assert(w[k] == x);
            } else if k > i {
                assert(w[k - 1] == x);
            }
        }
        assert forall|x: u32| w.to_set().insert(id).contains(x) implies v@.to_set().contains(x) by {
            if x == id {
                assert(v@[i as int] == x);
            } else {
                let k = choose|k: int| 0 <= k < w.len() && w[k] == x;
                if k < i {
                    assert(v@[k] == x);
                } else {
                    assert(v@[k + 1] == x);
                }
            }
        }
    }
}

/// The ids whose deploy helpers a test contract's dependencies use.
pub open spec fn helper_ids(deps: Seq<BytecodeDependency>, data: Seq<ContractData>) -> Set<u32>
    decreases deps.len(),
{
    if deps.len() == 0 {
        Set::empty()
    } else if uses_helper(deps.last(), data) {
        helper_ids(deps.drop_last(), data).insert(deps.last().referenced_contract)
    } else {
        helper_ids(deps.drop_last(), data)
    }
}

fn push_vm_call(s: &mut String, id: u32)
    ensures
        final(s)@ == old(s)@ + vm_call(id),
{
    push_str(s, "VmContractHelper");
    push_decimal(s, id as u64);
    push_str(s, "(0x7109709ECfa91a80626fF3989D68f67F5b1DD12D)");
    assert(final(s)@ =~= old(s)@ + vm_call(id));
}

fn push_helper_import(s: &mut String, r: u32)
    ensures
        final(s)@ == old(s)@ + helper_import(r),
{
    push_str(s, "import {DeployHelper");
    push_decimal(s, r as u64);
    push_str(s, ", encodeArgs");
    push_decimal(s, r as u64);
    push_str(s, ", deployCode");
    push_decimal(s, r as u64);
    push_str(s, "} from \"foundry-pp/DeployHelper");
    push_decimal(s, r as u64);
    push_str(s, ".sol\";");
    assert(final(s)@ =~= old(s)@ + helper_import(r));
}

fn push_vm_interface(s: &mut String, id: u32)
    ensures
        final(s)@ == old(s)@ + vm_interface(id),
{
    push_str(s, "interface ");
    push_str(s, "VmContractHelper");
    push_decimal(s, id as u64);
    push_str(s, " {\n    function deployCode(string memory _artifact, bytes memory _data) external returns (address);\n    function deployCode(string memory _artifact) external returns (address);\n    function getCode(string memory _artifact) external returns (bytes memory);\n}");
    assert(final(s)@ =~= old(s)@ + vm_interface(id));
}

/// The text appended to a test file with the given helpers.
pub fn footer(id: u32, helpers: &Vec<u32>) -> (r: String)
    ensures
        r@ == footer_text(id, helpers@),
{
    let mut s = String::from_str("\n");
    let ghost start = s@;
    let mut k: usize = 0;
    while k < helpers.len()
        invariant
            k <= helpers@.len(),
            start == "\n"@,
            s@ == start + helper_imports(helpers@.take(k as int)),
        decreases helpers@.len() - k,
    {
        let ghost before = s@;
        assert(helpers@.take(k + 1).drop_last() =~= helpers@.take(k as int));
        if k > 0 {
            push_str(&mut s, "\n");
        }
        push_helper_import(&mut s, helpers[k]);
        proof {
            if k == 0 {
                assert(helpers@.take(1) =~= seq![helpers@[0]]);
                assert(helper_imports(helpers@.take(0)) =~= Seq::<char>::empty());
            }
        }
        assert(s@ =~= start + helper_imports(helpers@.take(k + 1)));
        k = k + 1;
    }
    assert(helpers@.take(helpers@.len() as int) =~= helpers@);
    push_str(&mut s, "\n\n");
    push_vm_interface(&mut s, id);
    assert(s@ =~= footer_text(id, helpers@));
    s
}

proof fn lemma_increasing_first_min(a: Seq<u32>, x: u32)
    requires
        increasing(a),
        a.len() > 0,
        a.to_set().contains(x),
    ensures
        a[0] <= x,
{
    let k = choose|k: int| 0 <= k < a.len() && a[k] == x;
    if k > 0 {
        assert(a[0] < a[k]);
    }
}

proof fn lemma_increasing_drop_first(a: Seq<u32>)
    requires
        increasing(a),
        a.len() > 0,
    ensures
        increasing(a.drop_first()),
        a.drop_first().to_set() == a.to_set().remove(a[0]),
{
    let t = a.drop_first();
    assert forall|i: int, j: int| 0 <= i < j < t.len() implies t[i] < t[j] by {
        assert(t[i] == a[i + 1] && t[j] == a[j + 1]);
    }
    assert forall|x: u32| t.to_set().contains(x) implies a.to_set().remove(a[0]).contains(x) by {
        let k = choose|k: int| 0 <= k < t.len() && t[k] == x;
        assert(a[k + 1] == x);
        assert(a[0] < a[k + 1]);
    }
    assert forall|x: u32| a.to_set().remove(a[0]).contains(x) implies t.to_set().contains(x) by {
        let k = choose|k: int| 0 <= k < a.len() && a[k] == x;
        assert(k != 0);
        assert(t[k - 1] == x);
    }
    assert(t.to_set() =~= a.to_set().remove(a[0]));
}

/// Two increasing sequences with the same elements are equal.
proof fn lemma_increasing_unique(a: Seq<u32>, b: Seq<u32>)
    requires
        increasing(a),
        increasing(b),
        a.to_set() == b.to_set(),
    ensures
        a == b,
    decreases a.len(),
{
    if a.len() == 0 {
        if b.len() > 0 {
            assert(b.to_set().contains(b[0]));
        }
        assert(a =~= b);
    } else {
        assert(a.to_set().contains(a[0]));
        assert(b.len() > 0);
        assert(b.to_set().contains(b[0]));
        lemma_increasing_first_min(a, b[0]);
        lemma_increasing_first_min(b, a[0]);
        lemma_increasing_drop_first(a);
        lemma_increasing_drop_first(b);
        lemma_increasing_unique(a.drop_first(), b.drop_first());
        assert(a =~= seq![a[0]] + a.drop_first());
        assert(b =~= seq![b[0]] + b.drop_first());
    }
}

/// The ids of the deploy helpers used, in increasing order.
pub open spec fn sorted_helpers(deps: Seq<BytecodeDependency>, data: Seq<ContractData>) -> Seq<u32> {
    choose|l: Seq<u32>| increasing(l) && l.to_set() == helper_ids(deps, data)
}

/// The updates for a test contract: those of its dependencies, then the
/// footer appended at the end of its file.
pub open spec fn contract_updates_spec(id: u32, src_len: usize, deps: Seq<BytecodeDependency>, data: Seq<ContractData>) -> Seq<(usize, usize, Seq<char>)> {
    deps_updates(id, deps, data).push((src_len, src_len, footer_text(id, sorted_helpers(deps, data))))
}

fn dependency_updates(id: u32, dep: &BytecodeDependency, d: &ContractData, out: &mut Vec<Update>)
    requires
        match dep.kind {
            BytecodeDependencyKind::New(_, args) => dep.loc.end + args <= usize::MAX,
            BytecodeDependencyKind::CreationCode => true,
        },
    ensures
        update_views(final(out)@) == update_views(old(out)@) + dep_updates(id, *dep, *d),
{
    let ghost before = out@;
    match &dep.kind {
        BytecodeDependencyKind::CreationCode => {
            let mut t = String::new();
            push_vm_call(&mut t, id);
            push_str(&mut t, ".getCode(\"");
            push_str(&mut t, d.artifact.as_str());
            push_str(&mut t, "\")");
            assert(t@ =~= get_code_text(id, d.artifact@));
            out.push((dep.loc.start, dep.loc.end, t));
        },
        BytecodeDependencyKind::New(name, args) => {
            if d.constructor_data.is_none() {
                let mut t = String::new();
                push_str(&mut t, name.as_str());
                push_str(&mut t, "(payable(");
                push_vm_call(&mut t, id);
                push_str(&mut t, ".deployCode(\"");
                push_str(&mut t, d.artifact.as_str());
                push_str(&mut t, "\")))");
                assert(t@ =~= deploy_text(name@, id, d.artifact@));
                out.push((dep.loc.start, dep.loc.end + *args, t));
            } else {
                let r = dep.referenced_contract;
                let mut t = String::from_str("deployCode");
                push_decimal(&mut t, r as u64);
                push_str(&mut t, "(DeployHelper");
                push_decimal(&mut t, r as u64);
                push_str(&mut t, ".ConstructorArgs");
                assert(t@ =~= helper_call_text(r));
                out.push((dep.loc.start, dep.loc.end, t));
                let ghost mid = out@;
                out.push((dep.loc.end + *args, dep.loc.end + *args, String::from_str(")")));
                assert(update_views(out@) =~= update_views(mid).push(((dep.loc.end + *args) as usize, (dep.loc.end + *args) as usize, ")"@)));
            }
        },
    }
    assert(update_views(out@) =~= update_views(before) + dep_updates(id, *dep, *d));
}

fn contract_updates(id: u32, src_len: usize, deps: &Vec<BytecodeDependency>, data: &[ContractData], out: &mut Vec<Update>)
    requires
        ends_fit(deps@),
    ensures
        update_views(final(out)@) == update_views(old(out)@) + contract_updates_spec(id, src_len, deps@, data@),
{
    let ghost start = update_views(out@);
    let mut helpers: Vec<u32> = Vec::new();
    let mut k: usize = 0;
    while k < deps.len()
        invariant
            k <= deps@.len(),
            ends_fit(deps@),
            increasing(helpers@),
            helpers@.to_set() == helper_ids(deps@.take(k as int), data@),
            update_views(out@) == start + deps_updates(id, deps@.take(k as int), data@),
        decreases deps@.len() - k,
    {
        assert(deps@.take(k + 1).drop_last() =~= deps@.take(k as int));
        assert(deps@.take(k + 1).last() == deps@[k as int]);
        let dep = &deps[k];
        let ghost before = update_views(out@);
        match find_data(data, dep.referenced_contract) {
            Some(d) => {
                dependency_updates(id, dep, d, out);
                if dep.kind.is_new() && d.constructor_data.is_some() {
                    insert_id(&mut helpers, dep.referenced_contract);
                }
            },
            None => {
                assert(before + Seq::<(usize, usize, Seq<char>)>::empty() =~= before);
            },
        }
        assert(update_views(out@) =~= start + deps_updates(id, deps@.take(k + 1), data@));
        k = k + 1;
    }
    assert(deps@.take(deps@.len() as int) =~= deps@);
    proof {
        let l = sorted_helpers(deps@, data@);
        assert(increasing(helpers@) && helpers@.to_set() == helper_ids(deps@, data@));
        lemma_increasing_unique(l, helpers@);
    }
    let f = footer(id, &helpers);
    let ghost mid = update_views(out@);
    out.push((src_len, src_len, f));
    assert(update_views(out@) =~= mid.push((src_len, src_len, footer_text(id, helpers@))));
}

impl BytecodeDependencyKind {
    /// Whether this is a `new` expression.
    pub fn is_new(&self) -> (r: bool)
        ensures
            r == (*self is New),
    {
        matches!(self, BytecodeDependencyKind::New(..))
    }
}

/// The updates of a file, by path.
pub type Updates = Vec<(String, Vec<Update>)>;

/// The updates of each file as values.
pub open spec fn updates_view(u: Seq<(String, Vec<Update>)>) -> Seq<(Seq<char>, Seq<(usize, usize, Seq<char>)>)> {
    u.map_values(|e: (String, Vec<Update>)| (e.0@, update_views(e.1@)))
}

/// `acc` with `us` added to the updates of `path` (a new entry at the end
/// for a path not yet there).
pub open spec fn add_updates(acc: Seq<(Seq<char>, Seq<(usize, usize, Seq<char>)>)>, path: Seq<char>, us: Seq<(usize, usize, Seq<char>)>) -> Seq<(Seq<char>, Seq<(usize, usize, Seq<char>)>)> {
    if exists|i: int| 0 <= i < acc.len() && #[trigger] acc[i].0 == path {
        let i = choose|i: int| 0 <= i < acc.len() && #[trigger] acc[i].0 == path;
        acc.update(i, (path, acc[i].1 + us))
    } else {
        acc.push((path, us))
    }
}

/// The file and source length of the first entry for a contract.
pub open spec fn source_of(sources: Seq<(u32, String, usize)>, id: u32) -> Option<(u32, String, usize)>
    decreases sources.len(),
{
    if sources.len() == 0 {
        None
    } else if sources[0].0 == id {
        Some(sources[0])
    } else {
        source_of(sources.drop_first(), id)
    }
}

/// The updates for the first `n` test contracts with dependencies.
pub open spec fn all_updates(sources: Seq<(u32, String, usize)>, bdeps: Seq<(u32, Vec<BytecodeDependency>)>, data: Seq<ContractData>) -> Seq<(Seq<char>, Seq<(usize, usize, Seq<char>)>)>
    decreases bdeps.len(),
{
    if bdeps.len() == 0 {
        Seq::empty()
    } else {
        let prev = all_updates(sources, bdeps.drop_last(), data);
        let (id, deps) = bdeps.last();
        match source_of(sources, id) {
            Some((_, path, len)) => add_updates(prev, path@, contract_updates_spec(id, len, deps@, data)),
            None => prev,
        }
    }
}

/// Whether the ends of the dependencies of every test contract fit.
pub open spec fn all_ends_fit(bdeps: Seq<(u32, Vec<BytecodeDependency>)>) -> bool {
    forall|k: int| 0 <= k < bdeps.len() ==> ends_fit(#[trigger] bdeps[k].1@)
}

/// No path occurs twice.
pub open spec fn distinct_paths(u: Seq<(Seq<char>, Seq<(usize, usize, Seq<char>)>)>) -> bool {
    forall|i: int, j: int| 0 <= i < j < u.len() ==> u[i].0 != u[j].0
}

fn find_source(sources: &[(u32, String, usize)], id: u32) -> (r: Option<usize>)
    ensures
        match source_of(sources@, id) {
            Some(e) => r matches Some(i) && i < sources@.len() && sources@[i as int] == e,
            None => r is None,
        },
{
    let mut i: usize = 0;
    assert(sources@.skip(0) =~= sources@);
    while i < sources.len()
        invariant
            i <= sources@.len(),
            source_of(sources@, id) == source_of(sources@.skip(i as int), id),
        decreases sources@.len() - i,
    {
        assert(sources@.skip(i as int).drop_first() =~= sources@.skip(i + 1));
        assert(sources@.skip(i as int)[0] == sources@[i as int]);
        if sources[i].0 == id {
            return Some(i);
        }
        i = i + 1;
    }
    None
}

fn find_path(acc: &Updates, path: &String) -> (r: Option<usize>)
    ensures
        match r {
            Some(i) => i < acc@.len() && acc@[i as int].0@ == path@,
            None => forall|i: int| 0 <= i < acc@.len() ==> #[trigger] acc@[i].0@ != path@,
        },
{
    let want = crate::text::chars_of(path.as_str());
    let mut i: usize = 0;
    while i < acc.len()
        invariant
            i <= acc@.len(),
            want@ == path@,
            forall|k: int| 0 <= k < i ==> #[trigger] acc@[k].0@ != path@,
        decreases acc@.len() - i,
    {
        let have = crate::text::chars_of(acc[i].0.as_str());
        if crate::text::chars_eq(have.as_slice(), want.as_slice()) {
            return Some(i);
        }
        i = i + 1;
    }
    None
}

/// Goes over all test/script contracts with bytecode dependencies and
/// replaces those on contracts with data with cheatcode invocations, adding
/// the helper imports and cheatcode interface at the end of each file.
/// `sources` gives the file and source length of each test contract.
pub fn remove_bytecode_dependencies(sources: &[(u32, String, usize)], deps: &PreprocessorDependencies, data: &[ContractData]) -> (r: Updates)
    requires
        all_ends_fit(deps.bytecode_deps@),
    ensures
        updates_view(r@) == all_updates(sources@, deps.bytecode_deps@, data@),
        distinct_paths(updates_view(r@)),
{
    let bdeps = &deps.bytecode_deps;
    let mut acc: Updates = Vec::new();
    let mut k: usize = 0;
    while k < bdeps.len()
        invariant
            k <= bdeps@.len(),
            all_ends_fit(bdeps@),
            updates_view(acc@) == all_updates(sources@, bdeps@.take(k as int), data@),
            distinct_paths(updates_view(acc@)),
        decreases bdeps@.len() - k,
    {
        assert(bdeps@.take(k + 1).drop_last() =~= bdeps@.take(k as int));
        assert(bdeps@.take(k + 1).last() == bdeps@[k as int]);
        let id = bdeps[k].0;
        assert(ends_fit(bdeps@[k as int].1@));
        match find_source(sources, id) {
            Some(si) => {
                let path = &sources[si].1;
                let len = sources[si].2;
                let ghost prev = updates_view(acc@);
                let mut us: Vec<Update> = Vec::new();
                contract_updates(id, len, &bdeps[k].1, data, &mut us);
                assert(update_views(us@) =~= contract_updates_spec(id, len, bdeps@[k as int].1@, data@));
                match find_path(&acc, path) {
                    Some(i) => {
                        let (p, mut existing) = acc.remove(i);
                        let ghost ev = update_views(existing@);
                        existing.append(&mut us);
                        assert(update_views(existing@) =~= ev + contract_updates_spec(id, len, bdeps@[k as int].1@, data@));
                        acc.insert(i, (p, existing));
                        proof {
                            assert(prev[i as int].0 == path@);
                            let j = choose|j: int| 0 <= j < prev.len() && #[trigger] prev[j].0 == path@;
                            if j != i {
                                if j < i {
                                    assert(prev[j].0 != prev[i as int].0);
                                } else {
                                    assert(prev[i as int].0 != prev[j].0);
                                }
                            }
                            assert(updates_view(acc@) =~= prev.update(i as int, (path@, prev[i as int].1 + contract_updates_spec(id, len, bdeps@[k as int].1@, data@))));
                            assert forall|a: int, b: int| 0 <= a < b < updates_view(acc@).len() implies updates_view(acc@)[a].0 != updates_view(acc@)[b].0 by {
                                assert(prev[a].0 != prev[b].0);
                            }
                        }
                    },
                    None => {
                        acc.push((path.clone(), us));
                        proof {
                            assert forall|j: int| 0 <= j < prev.len() implies #[trigger] prev[j].0 != path@ by {
                                assert(acc@[j].0@ != path@);
                            }
                            assert(updates_view(acc@) =~= prev.push((path@, contract_updates_spec(id, len, bdeps@[k as int].1@, data@))));
                        }
                    },
                }
            },
            None => {},
        }
        k = k + 1;
    }
    assert(bdeps@.take(bdeps@.len() as int) =~= bdeps@);
    acc
}

/// The source of the deploy helper of a contract with constructor
/// arguments: a struct of the arguments, a function encoding them and one
/// deploying the artifact with them.
pub open spec fn helper_text(d: ContractData, c: ContractConstructorData) -> Seq<char> {
    let id = dec(d.hir_id as nat);
    "\npragma solidity >=0.4.0;\n\nimport \""@ + d.path@ + "\";\n\nabstract contract DeployHelper"@ + id + " is "@ + d.name@
        + " {\n    struct ConstructorArgs {\n        "@ + c.struct_fields@ + ";\n    }\n}\n\nfunction encodeArgs"@ + id
        + "(DeployHelper"@ + id + ".ConstructorArgs memory args) pure returns (bytes memory) {\n    return abi.encode("@
        + c.abi_encode_args@ + ");\n}\n\nfunction deployCode"@ + id + "(DeployHelper"@ + id
        + ".ConstructorArgs memory args) returns("@ + d.name@ + ") {\n    return "@ + d.name@ + "(payable("@
        + vm_call(d.hir_id) + ".deployCode(\""@ + d.artifact@ + "\", encodeArgs"@ + id + "(args))));\n}\n\n"@
        + vm_interface(d.hir_id) + "\n        "@
}

/// The path of the deploy helper of a contract.
pub open spec fn helper_path(id: u32) -> Seq<char> {
    "foundry-pp/DeployHelper"@ + dec(id as nat) + ".sol"@
}

impl ContractData {
    /// If contract has a non-empty constructor, generates a helper source file for it containing a
    /// helper to encode constructor arguments (see [`helper_text`]).
    pub fn build_helper(&self) -> (r: Option<String>)
        ensures
            match self.constructor_data {
                Some(c) => r matches Some(t) && t@ == helper_text(*self, c),
                None => r is None,
            },
    {
        let c = match &self.constructor_data {
            Some(c) => c,
            None => {
                return None;
            },
        };
        let id = self.hir_id as u64;
        let mut t = String::from_str("\npragma solidity >=0.4.0;\n\nimport \"");
        push_str(&mut t, self.path.as_str());
        push_str(&mut t, "\";\n\nabstract contract DeployHelper");
        push_decimal(&mut t, id);
        push_str(&mut t, " is ");
        push_str(&mut t, self.name.as_str());
        push_str(&mut t, " {\n    struct ConstructorArgs {\n        ");
        push_str(&mut t, c.struct_fields.as_str());
        push_str(&mut t, ";\n    }\n}\n\nfunction encodeArgs");
        push_decimal(&mut t, id);
        push_str(&mut t, "(DeployHelper");
        push_decimal(&mut t, id);
        push_str(&mut t, ".ConstructorArgs memory args) pure returns (bytes memory) {\n    return abi.encode(");
        push_str(&mut t, c.abi_encode_args.as_str());
        push_str(&mut t, ");\n}\n\nfunction deployCode");
        push_decimal(&mut t, id);
        push_str(&mut t, "(DeployHelper");
        push_decimal(&mut t, id);
        push_str(&mut t, ".ConstructorArgs memory args) returns(");
        push_str(&mut t, self.name.as_str());
        push_str(&mut t, ") {\n    return ");
        push_str(&mut t, self.name.as_str());
        push_str(&mut t, "(payable(");
        push_vm_call(&mut t, self.hir_id);
        push_str(&mut t, ".deployCode(\"");
        push_str(&mut t, self.artifact.as_str());
        push_str(&mut t, "\", encodeArgs");
        push_decimal(&mut t, id);
        push_str(&mut t, "(args))));\n}\n\n");
        push_vm_interface(&mut t, self.hir_id);
        push_str(&mut t, "\n        ");
        assert(t@ =~= helper_text(*self, *c));
        Some(t)
    }
}

/// The deploy helpers of the contracts with constructor arguments, in order.
pub open spec fn deploy_helpers(data: Seq<ContractData>) -> Seq<(Seq<char>, Seq<char>)>
    decreases data.len(),
{
    if data.len() == 0 {
        Seq::empty()
    } else {
        let prev = deploy_helpers(data.drop_last());
        match data.last().constructor_data {
            Some(c) => prev.push((helper_path(data.last().hir_id), helper_text(data.last(), c))),
            None => prev,
        }
    }
}

/// The sources as path and content values.
pub open spec fn source_views(v: Seq<(String, Source)>) -> Seq<(Seq<char>, Seq<char>)> {
    v.map_values(|e: (String, Source)| (e.0@, e.1.content@))
}

/// Creates helper libraries for contracts with a non-empty constructor.
///
/// See [`ContractData::build_helper`] for more details.
pub fn create_deploy_helpers(data: &[ContractData]) -> (r: Sources)
    ensures
        source_views(r@) == deploy_helpers(data@),
{
    let mut out: Sources = Vec::new();
    let mut k: usize = 0;
    while k < data.len()
        invariant
            k <= data@.len(),
            source_views(out@) == deploy_helpers(data@.take(k as int)),
        decreases data@.len() - k,
    {
        assert(data@.take(k + 1).drop_last() =~= data@.take(k as int));
        assert(data@.take(k + 1).last() == data@[k as int]);
        let d = &data[k];
        match d.build_helper() {
            Some(code) => {
                let mut path = String::from_str("foundry-pp/DeployHelper");
                push_decimal(&mut path, d.hir_id as u64);
                push_str(&mut path, ".sol");
                assert(path@ =~= helper_path(d.hir_id));
                let ghost before = source_views(out@);
                out.push((path, Source::new(code)));
                assert(source_views(out@) =~= before.push((helper_path(d.hir_id), helper_text(*d, d.constructor_data->0))));
            },
            None => {},
        }
        k = k + 1;
    }
    assert(data@.take(data@.len() as int) =~= data@);
    out
}

/// Preprocessor that replaces bytecode dependencies of tests and scripts.
#[derive(Clone, Copy, Debug)]
pub struct TestOptimizerPreprocessor;

/// The byte range of an item in a source.
#[derive(Clone, Copy, Debug, PartialEq, Eq, Structural)]
pub struct ItemLocation {
    pub start: usize,
    pub end: usize,
}

impl ItemLocation {
    /// The range of a source location with a start and a length.
    pub fn try_from_loc(start: Option<usize>, length: Option<usize>) -> (r: Option<Self>)
        requires
            start matches Some(s) && length matches Some(l) ==> s + l <= usize::MAX,
        ensures
            match (start, length) {
                (Some(s), Some(l)) => r == Some(ItemLocation { start: s, end: (s + l) as usize }),
                _ => r is None,
            },
    {
        match (start, length) {
            (Some(s), Some(l)) => Some(ItemLocation { start: s, end: s + l }),
            _ => None,
        }
    }
}

} // verus!
