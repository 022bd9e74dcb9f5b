use foundry_compilers::iface::{interface_repr, interface_repr_hash, interface_representation_hash};
use foundry_compilers::preprocess::{
    create_deploy_helpers, remove_bytecode_dependencies, BytecodeDependency,
    BytecodeDependencyKind, ContractConstructorData, ContractData, ItemLocation,
    PreprocessorDependencies, SourceMapLocation,
};
use foundry_compilers::profiles::{CompilationProfile, CompilationProfiles, CompilerSettings};
use foundry_compilers::sources::Source;

const SOURCE: &str = r#"
library Lib {
    function libFn() internal {
        // logic to keep
    }
}
contract A {
    function a() external {}
    function b() public {}
    function c() internal {
        // logic logic logic
    }
    function d() private {}
    function e() external {
        // logic logic logic
    }
}"#;

#[test]
fn preprocessor_test_interface_representation() {
    let result = interface_repr(SOURCE, "").unwrap();
    assert_eq!(
        result,
        r#"library Lib {function libFn() internal {// logic to keep}}contract A {function a() externalfunction b() publicfunction e() external }"#
    );
}

#[test]
fn interface_ignores_internal_changes() {
    let changed = SOURCE.replace("function c() internal {", "function c() internal { uint x = 1;");
    assert_eq!(interface_repr_hash(SOURCE, "a.sol"), interface_repr_hash(&changed, "a.sol"));
    let public_change = SOURCE.replace("function b() public {}", "function b2() public {}");
    assert_ne!(interface_repr_hash(SOURCE, "a.sol"), interface_repr_hash(&public_change, "a.sol"));
}

#[test]
fn interface_of_broken_source_is_error() {
    assert!(interface_repr("contract {", "a.sol").is_err());
    assert_eq!(interface_repr_hash("contract {", "a.sol"), None);
    let src = Source::new("contract {".to_string());
    assert_eq!(interface_representation_hash(&src, "a.sol"), src.content_hash());
}

fn data(with_ctor: bool) -> ContractData {
    ContractData {
        hir_id: 5,
        path: "src/C.sol".to_string(),
        name: "C".to_string(),
        constructor_data: if with_ctor {
            Some(ContractConstructorData { abi_encode_args: "args.x".to_string(), struct_fields: "uint256 x".to_string() })
        } else {
            None
        },
        artifact: "src/C.sol:C".to_string(),
    }
}

#[test]
fn rewrites_creation_code_and_new() {
    let deps = PreprocessorDependencies {
        bytecode_deps: vec![(
            1,
            vec![
                BytecodeDependency { kind: BytecodeDependencyKind::CreationCode, loc: SourceMapLocation { start: 10, end: 20 }, referenced_contract: 5 },
                BytecodeDependency { kind: BytecodeDependencyKind::New("C".to_string(), 2), loc: SourceMapLocation { start: 30, end: 35 }, referenced_contract: 5 },
            ],
        )],
        referenced_contracts: vec![5],
    };
    let updates = remove_bytecode_dependencies(&[(1, "test/T.sol".to_string(), 100)], &deps, &[data(false)]);
    assert_eq!(updates.len(), 1);
    let (path, us) = &updates[0];
    assert_eq!(path, "test/T.sol");
    assert_eq!(us.len(), 3);
    assert_eq!(us[0], (10, 20, "VmContractHelper1(0x7109709ECfa91a80626fF3989D68f67F5b1DD12D).getCode(\"src/C.sol:C\")".to_string()));
    assert_eq!(us[1], (30, 37, "C(payable(VmContractHelper1(0x7109709ECfa91a80626fF3989D68f67F5b1DD12D).deployCode(\"src/C.sol:C\")))".to_string()));
    assert_eq!(us[2].0, 100);
    assert!(us[2].2.contains("interface VmContractHelper1 {"));
}

#[test]
fn rewrites_new_with_constructor_through_helper() {
    let deps = PreprocessorDependencies {
        bytecode_deps: vec![(
            1,
            vec![BytecodeDependency { kind: BytecodeDependencyKind::New("C".to_string(), 3), loc: SourceMapLocation { start: 30, end: 35 }, referenced_contract: 5 }],
        )],
        referenced_contracts: vec![5],
    };
    let updates = remove_bytecode_dependencies(&[(1, "test/T.sol".to_string(), 100)], &deps, &[data(true)]);
    let us = &updates[0].1;
    assert_eq!(us[0], (30, 35, "deployCode5(DeployHelper5.ConstructorArgs".to_string()));
    assert_eq!(us[1], (38, 38, ")".to_string()));
    assert!(us[2].2.starts_with("\nimport {DeployHelper5, encodeArgs5, deployCode5} from \"foundry-pp/DeployHelper5.sol\";\n\ninterface"));
}

#[test]
fn deploy_helpers_for_constructors() {
    let helpers = create_deploy_helpers(&[data(true), data(false)]);
    assert_eq!(helpers.len(), 1);
    assert_eq!(helpers[0].0, "foundry-pp/DeployHelper5.sol");
    assert!(helpers[0].1.content.contains("abstract contract DeployHelper5 is C {"));
    assert!(data(false).build_helper().is_none());
}

#[test]
fn item_location_from_parts() {
    assert_eq!(ItemLocation::try_from_loc(Some(3), Some(4)), Some(ItemLocation { start: 3, end: 7 }));
    assert_eq!(ItemLocation::try_from_loc(None, Some(4)), None);
}

#[derive(Clone, Debug, PartialEq, Eq)]
struct Opt(u8);

impl CompilerSettings for Opt {
    type Restrictions = u8;
    fn meets(&self, r: &u8) -> bool {
        self.satisfies_restrictions(r)
    }
    fn restricted(&self, r: &u8) -> Self {
        self.apply_restrictions(r)
    }
    fn satisfies_restrictions(&self, r: &u8) -> bool {
        self.0 >= *r
    }
    fn apply_restrictions(&self, r: &u8) -> Self {
        Opt(*r)
    }
    fn json_text(&self) -> String {
        self.to_json()
    }
    fn to_json(&self) -> String {
        format!("{{\"level\":{}}}", self.0)
    }
}

#[test]
fn profiles_find_or_create() {
    let mut p = CompilationProfiles::new(Opt(1));
    assert_eq!(p.find_or_create(&1), 0);
    assert_eq!(p.find_or_create(&3), 1);
    assert_eq!(p.get(1).settings, Opt(3));
    assert_eq!(p.find_or_create(&2), 1);
    assert_eq!(p.add(Opt(9)), 2);
}

#[test]
fn profile_id_is_md5_of_json() {
    let prof = CompilationProfile::with_json(Opt(0), "");
    assert_eq!(prof.id, "d41d8cd98f00b204e9800998ecf8427e");
}

#[test]
fn profile_id_is_md5_of_settings_json() {
    let prof = CompilationProfile::new(Opt(0));
    assert_eq!(prof.id, foundry_compilers::hashing::md5_hex("{\"level\":0}"));
    let mut p = CompilationProfiles::new(Opt(1));
    let i = p.add(Opt(0));
    assert_eq!(p.get(i).id, prof.id);
    assert_ne!(p.get(0).id, prof.id);
}

#[test]
fn test_or_script_paths_relative_to_root() {
    let f = foundry_compilers::preprocess::is_test_or_script;
    assert!(f("test/Foo.t.sol", "/p", "/p/test", "/p/script"));
    assert!(f("script/Deploy.s.sol", "/p", "/p/test", "/p/script"));
    assert!(!f("src/Foo.sol", "/p", "/p/test", "/p/script"));
    assert!(f("/p/x.sol", "/p", "/elsewhere/test", "/p/script"));
    assert!(!f("anything.sol", "/p", "/elsewhere/test", "/p/script"));
}

#[test]
fn read_all_keeps_sources_in_path_order() {
    let files = vec![
        ("src/b.sol".to_string(), Ok("b".to_string())),
        ("src/a.sol".to_string(), Ok("a\r\n".to_string())),
        ("lib/x.sol".to_string(), Ok("x".to_string())),
        ("src/a.sol".to_string(), Ok("a2".to_string())),
    ];
    let sources = Source::read_all(files).unwrap();
    let paths: Vec<&str> = sources.iter().map(|(p, _)| p.as_str()).collect();
    assert_eq!(paths, vec!["lib/x.sol", "src/a.sol", "src/b.sol"]);
    assert_eq!(sources[1].1.content, "a2");
}
