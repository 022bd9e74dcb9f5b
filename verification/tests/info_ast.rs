use foundry_compilers::ast::{NodeType, SourceLocation};
use foundry_compilers::info::{ContractInfo, FullContractInfo};

#[test]
fn parse_contract_info() {
    let s1 = "src/Greeter.sol:Greeter";
    let info = ContractInfo::parse(s1).unwrap();
    assert_eq!(
        info,
        ContractInfo { path: Some("src/Greeter.sol".to_string()), name: Some("Greeter".to_string()) }
    );

    let s2 = "Greeter";
    let info = ContractInfo::parse(s2).unwrap();
    assert_eq!(info, ContractInfo { path: None, name: Some("Greeter".to_string()) });

    let s3 = "src/Greeter.sol";
    let info = ContractInfo::parse(s3).unwrap();
    assert_eq!(info, ContractInfo { path: Some("src/Greeter.sol".to_string()), name: None });

    let s4 = "Greeter.sol";
    let info = ContractInfo::parse(s4).unwrap();
    assert_eq!(info, ContractInfo { path: Some("Greeter.sol".to_string()), name: None });
}

#[test]
fn contract_info_roundtrip_text() {
    let info = ContractInfo::new("src/Greeter.sol:Greeter");
    assert_eq!(info.to_string(), "src/Greeter.sol:Greeter");
}

#[test]
fn full_contract_info_needs_colon() {
    let full = FullContractInfo::parse("src/A.sol:A").unwrap();
    assert_eq!(full.to_string(), "src/A.sol:A");
    assert!(FullContractInfo::parse("A").is_err());
}

#[test]
fn test_unknown_node_type_deserialization() {
    let json = r#"{"nodeType": "SomeUnknownNodeType"}"#;
    let parsed: serde_json::Value = serde_json::from_str(json).unwrap();
    let node_type = NodeType::from_name(parsed["nodeType"].as_str().unwrap());
    assert_eq!(node_type, NodeType::Other("SomeUnknownNodeType".to_string()));
}

#[test]
fn test_known_node_type_deserialization() {
    let json = r#"{"nodeType": "Assignment"}"#;
    let parsed: serde_json::Value = serde_json::from_str(json).unwrap();
    let node_type = NodeType::from_name(parsed["nodeType"].as_str().unwrap());
    assert_eq!(node_type, NodeType::Assignment);
}

#[test]
fn test_node_type_serialization() {
    let known = NodeType::Assignment;
    let unknown = NodeType::Other("SomeUnknownNodeType".to_string());
    assert_eq!(serde_json::to_string(&known.name()).unwrap(), r#""Assignment""#);
    assert_eq!(serde_json::to_string(&unknown.name()).unwrap(), r#""SomeUnknownNodeType""#);
}

#[test]
fn test_node_type_roundtrip_serialization() {
    let test_cases = [
        NodeType::Assignment,
        NodeType::BinaryOperation,
        NodeType::FunctionCall,
        NodeType::ContractDefinition,
        NodeType::YulAssignment,
        NodeType::Other("CustomNodeType".to_string()),
    ];
    for node in test_cases {
        let name = node.name();
        assert_eq!(NodeType::from_name(&name), node);
    }
}

#[test]
fn source_location_parses_and_prints() {
    let loc = SourceLocation::parse("10:20:3").unwrap();
    assert_eq!(loc, SourceLocation { start: 10, length: Some(20), index: Some(3) });
    assert_eq!(loc.to_string(), "10:20:3");
    let neg = SourceLocation::parse("10:-1:-1").unwrap();
    assert_eq!(neg.length, None);
    assert_eq!(neg.to_string(), "10:-1:-1");
    assert!(SourceLocation::parse("10:20").is_err());
}
