use foundry_compilers::iface::{interface_repr, interface_repr_hash};

const SOURCE: &str = r#"
library Lib {
    function libFn() internal {
        // logic to keep
    }
}
contract A {
    function a() external {}
    function b() public {}
    function c() internal {
        // logic logic logic
    }
    function d() private {}
    function e() external {
        // logic logic logic
    }
}"#;

const EXPECTED: &str = r#"library Lib {function libFn() internal {// logic to keep}}contract A {function a() externalfunction b() publicfunction e() external }"#;

#[test]
fn iface_test_interface_representation() {
    let result = interface_repr(SOURCE, "").unwrap();
    assert_eq!(result, EXPECTED);
}

#[test]
fn mod_test_interface_representation() {
    let result = interface_repr(SOURCE, "").unwrap();
    assert_eq!(result, EXPECTED);
}
