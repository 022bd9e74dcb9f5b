use foundry_compilers::paths::path_strip_prefix;
use foundry_compilers::selection::OutputSelection;

fn strs(v: &[&str]) -> Vec<String> {
    v.iter().map(|s| s.to_string()).collect()
}

fn sample() -> OutputSelection {
    OutputSelection(vec![
        (
            "/root/src/A.sol".to_string(),
            vec![
                ("A".to_string(), strs(&["abi", "evm.bytecode", "evm.gasEstimates"])),
                ("B".to_string(), vec![]),
            ],
        ),
        ("/root/src/B.sol".to_string(), vec![("".to_string(), strs(&["ast"]))]),
    ])
}

#[test]
fn empty_outputs_become_abi() {
    let mut s = sample();
    s.sanitize_output_selection();
    assert_eq!(s.0[0].1[1].1, strs(&["abi"]));
    assert_eq!(s.0[0].1[0].1, strs(&["abi", "evm.bytecode", "evm.gasEstimates"]));
    assert_eq!(s.0[1].1[0].1, strs(&["ast"]));
}

#[test]
fn only_resolc_outputs_stay() {
    let mut s = sample();
    s.retain_resolc_outputs();
    assert_eq!(s.0[0].1[0].1, strs(&["abi", "evm.bytecode"]));
    assert!(s.0[0].1[1].1.is_empty());
    let mut t = sample();
    t.retain_outputs(&strs(&["ast"]));
    assert!(t.0[0].1[0].1.is_empty());
    assert_eq!(t.0[1].1[0].1, strs(&["ast"]));
}

#[test]
fn ast_is_asked_for_every_file() {
    let s = OutputSelection(vec![]).with_ast();
    assert_eq!(s.0, vec![("*".to_string(), vec![("".to_string(), strs(&["ast"]))])]);
    let t = OutputSelection(vec![(
        "*".to_string(),
        vec![("".to_string(), strs(&["abi"])), ("X".to_string(), strs(&["abi"]))],
    )])
    .with_ast();
    assert_eq!(
        t.0,
        vec![("*".to_string(), vec![("".to_string(), strs(&["ast"])), ("X".to_string(), strs(&["abi"]))])]
    );
    let u = sample().with_ast();
    assert_eq!(u.0[0].0, "*");
    assert_eq!(u.0.len(), 3);
}

#[test]
fn file_keys_lose_the_base() {
    let mut s = sample();
    s.strip_prefix("/root");
    let keys: Vec<String> = s.0.iter().map(|(k, _)| k.clone()).collect();
    assert_eq!(keys, strs(&["src/A.sol", "src/B.sol"]));
    let mut t = OutputSelection(vec![
        ("a/x.sol".to_string(), vec![("A".to_string(), strs(&["abi"]))]),
        ("x.sol".to_string(), vec![("B".to_string(), strs(&["ast"]))]),
    ]);
    t.strip_prefix("a");
    assert_eq!(t.0, vec![("x.sol".to_string(), vec![("B".to_string(), strs(&["ast"]))])]);
}

#[test]
fn strip_prefix_keeps_the_rest_of_the_text() {
    assert_eq!(path_strip_prefix("a/b//c", "a"), Some("b//c".to_string()));
    assert_eq!(path_strip_prefix("a/./b", "a"), Some("b".to_string()));
    assert_eq!(path_strip_prefix("a/b/", "a"), Some("b".to_string()));
    assert_eq!(path_strip_prefix("a", "a"), Some(String::new()));
    assert_eq!(path_strip_prefix("/x//y/z", "/x"), Some("y/z".to_string()));
    assert_eq!(path_strip_prefix("./a/b", "."), Some("a/b".to_string()));
    assert_eq!(path_strip_prefix("/a", "/"), Some("a".to_string()));
    assert_eq!(path_strip_prefix("/a//", ""), Some("/a".to_string()));
    assert_eq!(path_strip_prefix("a//b/", ""), Some("a//b".to_string()));
    assert_eq!(path_strip_prefix("./", ""), Some(".".to_string()));
    assert_eq!(path_strip_prefix("b/c", "a"), None);
    assert_eq!(path_strip_prefix("ab/c", "a"), None);
}
