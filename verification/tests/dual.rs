use foundry_compilers::dual::{
    BytecodeObject, DualCompiledContract, DualCompiledContracts, FindMatchType, Offsets, ResolcArtifactData,
    SolcArtifactData,
};
use foundry_compilers::info::ContractInfo;

fn sample_contract() -> DualCompiledContract {
    DualCompiledContract {
        resolc_bytecode_hash: "abc".to_string(),
        resolc_bytecode: BytecodeObject::Bytecode(vec![0u8; 32]),
        resolc_deployed_bytecode: BytecodeObject::Bytecode(vec![0u8; 32]),
        resolc_factory_deps: vec![],
        evm_bytecode_hash: vec![0u8; 32],
        evm_bytecode: BytecodeObject::Bytecode(vec![0]),
        evm_deployed_bytecode: BytecodeObject::Bytecode(vec![0]),
        evm_immutable_references: None,
    }
}

fn find_sample() -> DualCompiledContracts {
    let infos = [
        "src/Foo.sol:Foo",
        "src/Foo.sol:DoubleFoo",
        "test/Foo.t.sol:FooTest",
        "Bar",
        "BarScript",
        "script/Qux.sol:Foo",
        "script/Qux.sol:QuxScript",
    ];
    let mut c = DualCompiledContracts::empty("rcout".to_string(), "out".to_string());
    for i in infos {
        c.insert(ContractInfo::new(i), sample_contract());
    }
    c
}

fn assert_find_results(results: Vec<(FindMatchType, &DualCompiledContract)>, assertions: Vec<FindMatchType>) {
    assert_eq!(results.len(), assertions.len(), "unexpected number of results");
    for (i, (assertion, (result, _))) in assertions.into_iter().zip(results).enumerate() {
        assert!(assertion == result, "assertion failed for match #{i}");
    }
}

#[test]
fn find_nothing() {
    let collection = find_sample();
    assert_find_results(collection.find(None, None), vec![]);
}

#[test]
fn find_by_full_match() {
    let collection = find_sample();
    let foo_find_asserts = vec![
        FindMatchType::FullMatch,
        FindMatchType::Path,
        FindMatchType::Path,
        FindMatchType::Name,
        FindMatchType::Name,
    ];
    assert_find_results(collection.find(Some("src/Foo.sol"), Some("Foo")), foo_find_asserts.clone());
    assert_find_results(collection.find(Some("Foo.sol"), Some("Foo")), foo_find_asserts);

    let foo_test_find_asserts = vec![FindMatchType::FullMatch, FindMatchType::Path, FindMatchType::Name];
    assert_find_results(
        collection.find(Some("test/Foo.t.sol"), Some("FooTest")),
        foo_test_find_asserts.clone(),
    );
    assert_find_results(collection.find(Some("Foo.t.sol"), Some("FooTest")), foo_test_find_asserts);
}

#[test]
fn find_by_path() {
    let collection = find_sample();
    let foo_find_asserts = vec![FindMatchType::Path, FindMatchType::Path];
    assert_find_results(collection.find(Some("src/Foo.sol"), None), foo_find_asserts.clone());
    assert_find_results(collection.find(Some("Foo.sol"), None), foo_find_asserts);
    assert_find_results(collection.find(Some("test/Foo.t.sol"), None), vec![FindMatchType::Path]);
    assert_find_results(collection.find(Some("Foo.t.sol"), Some("FooTester")), vec![FindMatchType::Path]);
}

#[test]
fn find_by_name() {
    let collection = find_sample();
    assert_find_results(collection.find(None, Some("Foo")), vec![FindMatchType::Name, FindMatchType::Name]);
    assert_find_results(collection.find(None, Some("QuxScript")), vec![FindMatchType::Name]);
    assert_find_results(collection.find(None, Some("BarScript")), vec![FindMatchType::Name]);
    assert_find_results(collection.find(Some("Bar.s.sol"), Some("BarScript")), vec![FindMatchType::Name]);
}

#[test]
fn insert_replaces_same_info() {
    let mut c = find_sample();
    let n = c.len();
    let mut other = sample_contract();
    other.resolc_bytecode_hash = "def".to_string();
    c.insert(ContractInfo::new("Bar"), other);
    assert_eq!(c.len(), n);
    assert_eq!(c.get(&ContractInfo::new("Bar")).unwrap().resolc_bytecode_hash, "def");
    assert!(c.get(&ContractInfo::new("Nope")).is_none());
}

#[test]
fn finds_by_bytecode_prefix_and_prefers_longer() {
    let mut c = DualCompiledContracts::empty("rcout".to_string(), "out".to_string());
    let mut a = sample_contract();
    a.resolc_deployed_bytecode = BytecodeObject::Bytecode(vec![1, 2, 3]);
    a.evm_bytecode = BytecodeObject::Bytecode(vec![1, 2]);
    c.insert(ContractInfo::new("A"), a);
    let code = [1u8, 2, 3, 9, 9];
    let found = c.find_bytecode(&code).unwrap();
    assert_eq!(found.kind(), foundry_compilers::dual::ContractType::Resolc);
    assert_eq!(found.constructor_args(), &[9u8, 9][..]);
    assert!(c.find_by_evm_bytecode(&code).is_some());
    assert!(c.find_by_resolc_deployed_bytecode(&[7u8]).is_none());
    assert!(c.find_by_resolc_bytecode_hash("abc".to_string()).is_some());
}

#[test]
fn immutables_are_zeroed_before_comparing() {
    let mut c = DualCompiledContracts::empty("rcout".to_string(), "out".to_string());
    let mut a = sample_contract();
    a.evm_deployed_bytecode = BytecodeObject::Bytecode(vec![5, 0, 0, 7]);
    a.evm_immutable_references = Some(vec![("x".to_string(), vec![Offsets { start: 1, length: 2 }])]);
    c.insert(ContractInfo::new("A"), a);
    assert!(c.find_by_evm_deployed_bytecode_with_immutables(&[5, 8, 9, 7]).is_some());
    assert!(c.find_by_evm_deployed_bytecode_with_immutables(&[6, 8, 9, 7]).is_none());
    assert!(c.find_by_evm_deployed_bytecode_with_immutables(&[5, 8]).is_none());
}

#[test]
fn fetches_nested_factory_deps_once() {
    let mut c = DualCompiledContracts::empty("rcout".to_string(), "out".to_string());
    let mut a = sample_contract();
    a.resolc_deployed_bytecode = BytecodeObject::Bytecode(vec![1]);
    a.resolc_factory_deps = vec![BytecodeObject::Bytecode(vec![2]), BytecodeObject::Bytecode(vec![1])];
    let mut b = sample_contract();
    b.resolc_deployed_bytecode = BytecodeObject::Bytecode(vec![2]);
    b.resolc_factory_deps = vec![BytecodeObject::Bytecode(vec![3])];
    c.insert(ContractInfo::new("A"), a.clone());
    c.insert(ContractInfo::new("B"), b);
    let deps = c.fetch_all_factory_deps(&a);
    let mut bytes: Vec<Vec<u8>> = deps
        .iter()
        .map(|d| match d {
            BytecodeObject::Bytecode(x) => x.clone(),
            BytecodeObject::Unlinked(_) => panic!("unlinked"),
        })
        .collect();
    bytes.sort();
    assert_eq!(bytes, vec![vec![1], vec![2], vec![3]]);
}

#[test]
fn new_pairs_resolc_and_solc_artifacts() {
    let info = ContractInfo::new("src/A.sol:A");
    let solc = vec![SolcArtifactData {
        info: info.clone(),
        bytecode: Some(BytecodeObject::Bytecode(vec![1, 2])),
        deployed_bytecode: Some(BytecodeObject::Bytecode(vec![2])),
        immutable_references: None,
    }];
    let resolc = vec![
        ResolcArtifactData {
            info: info.clone(),
            bytecode: Some(BytecodeObject::Bytecode(vec![9])),
            hash: Some("h1".to_string()),
            factory_dependencies: Some(vec!["h2".to_string()]),
        },
        ResolcArtifactData {
            info: ContractInfo::new("src/B.sol:B"),
            bytecode: Some(BytecodeObject::Bytecode(vec![8])),
            hash: Some("h2".to_string()),
            factory_dependencies: Some(vec![]),
        },
    ];
    let c = DualCompiledContracts::new(&solc, &resolc, "out".to_string(), "rcout".to_string());
    assert_eq!(c.len(), 1);
    let d = c.get(&info).unwrap();
    assert_eq!(d.resolc_bytecode_hash, "h1");
    assert_eq!(
        d.resolc_factory_deps,
        vec![BytecodeObject::Bytecode(vec![8]), BytecodeObject::Bytecode(vec![9])]
    );
    let expected: Vec<u8> = alloy_primitives::keccak256([2u8]).to_vec();
    assert_eq!(d.evm_bytecode_hash, expected);
}

#[test]
fn longer_evm_match_wins_with_its_own_contract() {
    let mut c = DualCompiledContracts::empty("rcout".to_string(), "out".to_string());
    let mut a = sample_contract();
    a.resolc_deployed_bytecode = BytecodeObject::Bytecode(vec![1, 2]);
    a.evm_bytecode = BytecodeObject::Bytecode(vec![8]);
    c.insert(ContractInfo::new("A"), a);
    let mut b = sample_contract();
    b.resolc_deployed_bytecode = BytecodeObject::Bytecode(vec![7]);
    b.evm_bytecode = BytecodeObject::Bytecode(vec![1, 2, 3]);
    c.insert(ContractInfo::new("B"), b);
    let code = [1u8, 2, 3, 9, 9];
    let found = c.find_bytecode(&code).unwrap();
    assert_eq!(found.kind(), foundry_compilers::dual::ContractType::EVM);
    assert_eq!(found.info(), &ContractInfo::new("B"));
    assert_eq!(found.constructor_args(), &[9u8, 9][..]);
    assert_eq!(found.contract().evm_bytecode, BytecodeObject::Bytecode(vec![1, 2, 3]));
}
