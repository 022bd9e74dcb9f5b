use foundry_compilers::parse::{capture_imports, SolData, SolImportAlias};
use foundry_compilers::version::VersionReq;

#[test]
fn soldata_exact_version_without_operator() {
    let d = SolData::parse("pragma solidity 0.8.19;", "a.sol");
    assert_eq!(d.version_req, Some(SolData::parse_version_req("=0.8.19").unwrap()));
}

#[test]
fn soldata_contract_names_in_order() {
    let src = r#"
    contract A {}
library B69$_ {}
abstract contract C_ {} interface $D {}

uint constant x = .1e10;
uint constant y = .1 ether;
        "#;
    let d = SolData::parse(src, "test.sol");
    assert_eq!(d.contract_names, vec!["A", "B69$_", "C_", "$D"]);
    assert_eq!(d.libraries.len(), 1);
    assert!(d.libraries[0].is_inlined());
}

#[test]
fn soldata_library_with_public_function_is_not_inlined() {
    let src = "library L { function f() public {} }\nlibrary M { function g() internal {} }";
    let d = SolData::parse(src, "test.sol");
    assert_eq!(d.libraries.len(), 2);
    assert!(!d.libraries[0].is_inlined());
    assert!(d.libraries[1].is_inlined());
}

#[test]
fn soldata_reads_imports_and_aliases() {
    let content = r#"
import * as T from "./Test.sol";
import { DsTest as Test } from "ds-test/test.sol";
import "ds-test/test.sol" as Test;
import { FloatMath as Math, Math as FloatMath } from "./Math.sol";
import {ReentrancyGuard} from "@openzeppelin/contracts/utils/ReentrancyGuard.sol";
"#;
    let d = SolData::parse(content, "test.sol");
    let paths: Vec<&str> = d.imports.iter().map(|i| i.data.path()).collect();
    assert_eq!(
        paths,
        vec![
            "./Test.sol",
            "ds-test/test.sol",
            "ds-test/test.sol",
            "./Math.sol",
            "@openzeppelin/contracts/utils/ReentrancyGuard.sol"
        ]
    );
    let aliases: Vec<Vec<SolImportAlias>> = d.imports.iter().map(|i| i.data.aliases().to_vec()).collect();
    assert_eq!(
        aliases,
        vec![
            vec![SolImportAlias::File("T".into())],
            vec![SolImportAlias::Contract("Test".into(), "DsTest".into())],
            vec![SolImportAlias::File("Test".into())],
            vec![
                SolImportAlias::Contract("Math".into(), "FloatMath".into()),
                SolImportAlias::Contract("FloatMath".into(), "Math".into()),
            ],
            vec![SolImportAlias::File("ReentrancyGuard".into())],
        ]
    );
    let first = &d.imports[0];
    assert_eq!(&content[first.span.start..first.span.end], "import * as T from \"./Test.sol\";");
}

#[test]
fn soldata_reads_experimental_pragma_and_yul_extension() {
    let d = SolData::parse("pragma experimental ABIEncoderV2;\npragma abicoder v2;", "x.yul");
    assert_eq!(d.experimental.as_ref().unwrap().data, "ABIEncoderV2");
    assert!(d.is_yul);
    assert!(d.version.is_none());
}

#[test]
fn soldata_reads_text_when_parse_fails() {
    let src = "// SPDX-License-Identifier: MIT\npragma solidity ^0.8.0;\nimport {A as B} from \"./A.sol\";\ncontract C { function() external payable {} }";
    let d = SolData::parse(src, "test.sol");
    assert!(d.parse_result.is_err());
    assert_eq!(d.contract_names, vec!["C".to_string()]);
    let v = d.version.as_ref().unwrap();
    assert_eq!(v.data, "^0.8.0");
    assert_eq!(&src[v.span.start..v.span.end], "pragma solidity ^0.8.0;");
    assert_eq!(d.version_req, Some(VersionReq::parse("^0.8.0").unwrap()));
    assert_eq!(d.imports.len(), 1);
    assert_eq!(d.imports[0].data.path(), "./A.sol");
    assert_eq!(d.imports[0].data.aliases().to_vec(), vec![SolImportAlias::Contract("B".into(), "A".into())]);
    assert_eq!(d.license.as_ref().unwrap().data, "MIT");
}

#[test]
fn soldata_reads_license_of_first_line() {
    let d = SolData::parse("/// SPDX-License-Identifier: GPL-3.0\r\ncontract C {}", "test.sol");
    let l = d.license.as_ref().unwrap();
    assert_eq!(l.data, "GPL-3.0");
    assert_eq!((l.span.start, l.span.end), (0, 36));
    assert!(SolData::parse("contract C {}\n// SPDX-License-Identifier: MIT", "test.sol").license.is_none());
}

#[test]
fn soldata_checked_refuses_bare_x_pragma_of_unparsed_source() {
    assert!(SolData::parse_checked("pragma solidity x; contract C { function() external {} }", "a.sol").is_none());
    assert!(SolData::parse_checked("pragma solidity ^0.8.0; contract C {}", "a.sol").is_some());
}

fn assert_version(version_req: Option<&str>, src: &str) {
    let data = SolData::parse(src, "test.sol");
    assert_eq!(data.version_req, version_req.map(|v| VersionReq::parse(v).unwrap()), "src:\n{src}");
}

fn assert_contract_names(names: &[&str], src: &str) {
    let data = SolData::parse(src, "test.sol");
    assert_eq!(data.contract_names, names, "src:\n{src}");
}

#[test]
fn soldata_parsing() {
    assert_version(None, "");
    assert_version(None, "contract C { }");

    // https://github.com/foundry-rs/foundry/issues/9349
    assert_version(
        Some(">=0.4.22, <0.6"),
        r#"
pragma solidity >=0.4.22 <0.6;

contract BugReport {
    function() external payable {
        deposit();
    }
    function deposit() public payable {}
}
        "#,
    );

    assert_contract_names(
        &["A", "B69$_", "C_", "$D"],
        r#"
    contract A {}
library B69$_ {}
abstract contract C_ {} interface $D {}

uint constant x = .1e10;
uint constant y = .1 ether;
        "#,
    );
}

#[test]
fn can_capture_curly_imports() {
    let content = r#"
import { T } from "../Test.sol";
import {ReentrancyGuard} from "@openzeppelin/contracts/utils/ReentrancyGuard.sol";
import {DsTest} from "ds-test/test.sol";
"#;

    let captured_imports =
        capture_imports(content).into_iter().map(|s| s.data.path().to_string()).collect::<Vec<_>>();

    assert_eq!(
        captured_imports,
        vec![
            "../Test.sol".to_string(),
            "@openzeppelin/contracts/utils/ReentrancyGuard.sol".into(),
            "ds-test/test.sol".into(),
        ],
    );
}

#[test]
fn cap_capture_aliases() {
    let content = r#"
import * as T from "./Test.sol";
import { DsTest as Test } from "ds-test/test.sol";
import "ds-test/test.sol" as Test;
import { FloatMath as Math, Math as FloatMath } from "./Math.sol";
"#;

    let caputred_imports =
        capture_imports(content).into_iter().map(|s| s.data.aliases().to_vec()).collect::<Vec<_>>();
    assert_eq!(
        caputred_imports,
        vec![
            vec![SolImportAlias::File("T".into())],
            vec![SolImportAlias::Contract("Test".into(), "DsTest".into())],
            vec![SolImportAlias::File("Test".into())],
            vec![
                SolImportAlias::Contract("Math".into(), "FloatMath".into()),
                SolImportAlias::Contract("FloatMath".into(), "Math".into()),
            ],
        ]
    );
}
