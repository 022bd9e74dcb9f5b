use foundry_compilers::contracts::{VersionedContract, VersionedContracts};
use foundry_compilers::order::{order_paths, order_strs, Order};
use foundry_compilers::artifacts::{artifacts_artifacts, artifacts_into_artifacts, ArtifactFile, Artifacts};
use foundry_compilers::version::Version;

fn v(major: u64, minor: u64, patch: u64) -> Version {
    Version { major, minor, patch, pre: String::new(), build: String::new() }
}

fn vc(contract: &str, version: Version) -> VersionedContract<String> {
    VersionedContract { contract: contract.to_string(), version, build_id: "build".to_string() }
}

fn sample() -> VersionedContracts<String> {
    let mut c = VersionedContracts::new();
    c.insert("src/b.sol".to_string(), "Greeter".to_string(), vc("b-greeter", v(0, 8, 20)));
    c.insert("src/a.sol".to_string(), "Token".to_string(), vc("a-token", v(0, 8, 20)));
    c.insert("src/a.sol".to_string(), "Greeter".to_string(), vc("a-greeter", v(0, 8, 20)));
    c.insert("src/a.sol".to_string(), "Greeter".to_string(), vc("a-greeter-old", v(0, 7, 6)));
    c
}

#[test]
fn paths_order_by_components() {
    assert_eq!(order_paths("src/A/B.sol", "src/A.sol"), Order::Less);
    assert_eq!(order_paths("src/A.sol", "src/A/B.sol"), Order::Greater);
    assert_eq!(order_paths("a//b.sol", "a/b.sol"), Order::Equal);
    assert_eq!(order_paths("a/b/", "a/b"), Order::Equal);
    assert_eq!(order_paths("/x", "a"), Order::Less);
    assert_eq!(order_paths("../a", "a"), Order::Less);
    assert_eq!(order_strs("A", "a"), Order::Less);
    assert_eq!(order_strs("ab", "a"), Order::Greater);
    assert_eq!(order_strs("", ""), Order::Equal);
}

#[test]
fn files_and_names_are_kept_in_order() {
    let c = sample();
    assert_eq!(c.len(), 2);
    assert!(!c.is_empty());
    let files: Vec<String> = c.files().into_iter().cloned().collect();
    assert_eq!(files, vec!["src/a.sol".to_string(), "src/b.sol".to_string()]);
    let listed: Vec<(String, String, String)> = c
        .contracts_with_files()
        .into_iter()
        .map(|(f, n, x)| (f.clone(), n.clone(), x.clone()))
        .collect();
    assert_eq!(
        listed,
        vec![
            ("src/a.sol".to_string(), "Greeter".to_string(), "a-greeter".to_string()),
            ("src/a.sol".to_string(), "Greeter".to_string(), "a-greeter-old".to_string()),
            ("src/a.sol".to_string(), "Token".to_string(), "a-token".to_string()),
            ("src/b.sol".to_string(), "Greeter".to_string(), "b-greeter".to_string()),
        ]
    );
    let versions: Vec<Version> =
        c.contracts_with_files_and_version().into_iter().map(|(_, _, _, v)| v.clone()).collect();
    assert_eq!(versions, vec![v(0, 8, 20), v(0, 7, 6), v(0, 8, 20), v(0, 8, 20)]);
    let names: Vec<String> = c.contracts().into_iter().map(|(n, _)| n.clone()).collect();
    assert_eq!(names, vec!["Greeter", "Greeter", "Token", "Greeter"]);
}

#[test]
fn directories_come_before_files_with_a_longer_name() {
    let mut c = VersionedContracts::new();
    c.insert("src/A.sol".to_string(), "A".to_string(), vc("a", v(0, 8, 0)));
    c.insert("src/A/B.sol".to_string(), "B".to_string(), vc("b", v(0, 8, 0)));
    let files: Vec<String> = c.files().into_iter().cloned().collect();
    assert_eq!(files, vec!["src/A/B.sol".to_string(), "src/A.sol".to_string()]);
    assert_eq!(c.find_first("A"), Some(&"a".to_string()));
}

#[test]
fn insert_under_the_same_path_keeps_the_first_key() {
    let mut c = VersionedContracts::new();
    c.insert("a/b.sol".to_string(), "X".to_string(), vc("x1", v(0, 8, 0)));
    c.insert("a//b.sol".to_string(), "X".to_string(), vc("x2", v(0, 8, 1)));
    assert_eq!(c.len(), 1);
    assert_eq!(c.files()[0], "a/b.sol");
    assert_eq!(c.get("a/b.sol", "X"), Some(&"x1".to_string()));
    assert_eq!(c.contracts().len(), 2);
}

#[test]
fn find_first_and_find() {
    let c = sample();
    assert_eq!(c.find_first("Greeter"), Some(&"a-greeter".to_string()));
    assert_eq!(c.find_first("Token"), Some(&"a-token".to_string()));
    assert_eq!(c.find_first("Missing"), None);
    assert_eq!(c.find("src/b.sol", "Greeter"), Some(&"b-greeter".to_string()));
    assert_eq!(c.find("./src/b.sol", "Greeter"), None);
    assert_eq!(c.find("src//b.sol", "Greeter"), Some(&"b-greeter".to_string()));
    assert_eq!(c.find("src/b.sol", "Token"), None);
}

#[test]
fn get_reads_the_first_version() {
    let c = sample();
    assert_eq!(c.get("src/a.sol", "Greeter"), Some(&"a-greeter".to_string()));
    assert_eq!(c.get("src/a.sol", "Token"), Some(&"a-token".to_string()));
    assert_eq!(c.get("src/c.sol", "Token"), None);
    assert_eq!(c.get("src/b.sol", "Token"), None);
}

#[test]
fn remove_takes_versions_then_entries_then_files() {
    let mut c = sample();
    assert_eq!(c.remove("src/a.sol", "Greeter"), Some("a-greeter".to_string()));
    assert_eq!(c.get("src/a.sol", "Greeter"), Some(&"a-greeter-old".to_string()));
    assert_eq!(c.remove("src/a.sol", "Greeter"), Some("a-greeter-old".to_string()));
    assert_eq!(c.get("src/a.sol", "Greeter"), None);
    assert_eq!(c.remove("src/a.sol", "Greeter"), None);
    assert_eq!(c.len(), 2);
    assert_eq!(c.remove("src/a.sol", "Token"), Some("a-token".to_string()));
    assert_eq!(c.len(), 1);
    assert_eq!(c.remove("src/zzz.sol", "Token"), None);
    assert_eq!(c.len(), 1);
}

#[test]
fn remove_first_searches_files_in_order() {
    let mut c = sample();
    assert_eq!(c.remove_first("Greeter"), Some("a-greeter".to_string()));
    assert_eq!(c.remove_first("Greeter"), Some("a-greeter-old".to_string()));
    assert_eq!(c.remove_first("Greeter"), Some("b-greeter".to_string()));
    assert_eq!(c.remove_first("Greeter"), None);
    assert_eq!(c.len(), 2);
    assert_eq!(c.get("src/b.sol", "Greeter"), None);
    assert_eq!(c.remove_first("Token"), Some("a-token".to_string()));
}

#[test]
fn join_and_strip_paths() {
    let mut c = sample();
    c.join_all("/root");
    let files: Vec<String> = c.files().into_iter().cloned().collect();
    assert_eq!(files, vec!["/root/src/a.sol".to_string(), "/root/src/b.sol".to_string()]);
    c.strip_prefix_all("/root");
    let files: Vec<String> = c.files().into_iter().cloned().collect();
    assert_eq!(files, vec!["src/a.sol".to_string(), "src/b.sol".to_string()]);
    c.strip_prefix_all("src");
    let files: Vec<String> = c.files().into_iter().cloned().collect();
    assert_eq!(files, vec!["a.sol".to_string(), "b.sol".to_string()]);
    c.slash_paths();
    assert_eq!(c.len(), 2);
}

#[test]
fn strip_merges_paths_that_become_the_same_last_wins() {
    let mut c = VersionedContracts::new();
    c.insert("a/x.sol".to_string(), "A".to_string(), vc("from-a", v(0, 8, 0)));
    c.insert("b/x.sol".to_string(), "B".to_string(), vc("from-b", v(0, 8, 0)));
    c.strip_prefix_all("a");
    // `a/x.sol` became `x.sol`, `b/x.sol` stays
    let files: Vec<String> = c.files().into_iter().cloned().collect();
    assert_eq!(files, vec!["b/x.sol".to_string(), "x.sol".to_string()]);

    let mut d = VersionedContracts::new();
    d.insert("/r/x.sol".to_string(), "A".to_string(), vc("first", v(0, 8, 0)));
    d.insert("x.sol".to_string(), "B".to_string(), vc("second", v(0, 8, 0)));
    d.join_all("/r");
    assert_eq!(d.len(), 1);
    assert_eq!(d.get("/r/x.sol", "B"), Some(&"second".to_string()));
    assert_eq!(d.get("/r/x.sol", "A"), None);
}

#[test]
fn into_contracts_keep_the_order() {
    let all = sample().into_contracts_with_files_and_version();
    assert_eq!(all.len(), 4);
    assert_eq!(all[1].0, "src/a.sol");
    assert_eq!(all[1].1, "Greeter");
    assert_eq!(all[1].2, "a-greeter-old");
    assert_eq!(all[1].3, v(0, 7, 6));
    let with_files = sample().into_contracts_with_files();
    assert_eq!(with_files[3], ("src/b.sol".to_string(), "Greeter".to_string(), "b-greeter".to_string()));
    let named = sample().into_contracts();
    let names: Vec<String> = named.iter().map(|(n, _)| n.clone()).collect();
    assert_eq!(names, vec!["Greeter", "Greeter", "Token", "Greeter"]);
    assert_eq!(named[2].1, "a-token");
}

#[test]
fn empty_collection() {
    let c: VersionedContracts<String> = VersionedContracts::default();
    assert!(c.is_empty());
    assert_eq!(c.len(), 0);
    assert_eq!(c.find_first("A"), None);
    assert!(c.contracts().is_empty());
}

fn af(file: &str, artifact: u32) -> ArtifactFile<u32> {
    ArtifactFile { artifact, file: file.to_string(), version: v(0, 8, 20), build_id: "b1".to_string() }
}

#[test]
fn artifacts_are_listed_with_their_ids() {
    let arts = Artifacts(vec![
        (
            "src/A.sol".to_string(),
            vec![
                ("A".to_string(), vec![af("out/A.sol/A.json", 1), af("out/A.sol/A.0.8.20.json", 2)]),
                ("B".to_string(), vec![af("..", 3)]),
            ],
        ),
        ("src/C.sol".to_string(), vec![("C".to_string(), vec![af("out/C.sol/C.json", 4)])]),
    ]);
    let listed = artifacts_artifacts(&arts);
    let ids: Vec<(String, String, String, u32)> =
        listed.iter().map(|(id, a)| (id.name.clone(), id.source.clone(), id.path.clone(), **a)).collect();
    assert_eq!(
        ids,
        vec![
            ("A".to_string(), "src/A.sol".to_string(), "out/A.sol/A.json".to_string(), 1),
            ("A.0.8.20".to_string(), "src/A.sol".to_string(), "out/A.sol/A.0.8.20.json".to_string(), 2),
            ("C".to_string(), "src/C.sol".to_string(), "out/C.sol/C.json".to_string(), 4),
        ]
    );
    assert_eq!(listed[0].0.version, v(0, 8, 20));
    assert_eq!(listed[0].0.build_id, "b1");
    let taken = artifacts_into_artifacts(arts);
    let values: Vec<u32> = taken.iter().map(|(_, a)| *a).collect();
    assert_eq!(values, vec![1, 2, 4]);
    assert_eq!(taken[2].0.name, "C");
}

#[test]
fn insert_then_remove_gives_back_the_collection() {
    let mut c = sample();
    let before: Vec<(String, String, String)> =
        c.contracts_with_files().into_iter().map(|(f, n, x)| (f.clone(), n.clone(), x.clone())).collect();
    c.insert("src/new.sol".to_string(), "New".to_string(), vc("fresh", v(0, 8, 1)));
    assert_eq!(c.get("src/new.sol", "New"), Some(&"fresh".to_string()));
    assert_eq!(c.remove("src/new.sol", "New"), Some("fresh".to_string()));
    let after: Vec<(String, String, String)> =
        c.contracts_with_files().into_iter().map(|(f, n, x)| (f.clone(), n.clone(), x.clone())).collect();
    assert_eq!(before, after);
    assert_eq!(c.len(), 2);
    // find and get agree
    for (f, n) in [("src/a.sol", "Greeter"), ("src/a.sol", "Token"), ("src/b.sol", "Greeter"), ("src/b.sol", "Nope")] {
        assert_eq!(c.find(f, n), c.get(f, n));
    }
}

#[test]
fn contract_name_reads_back_output_file() {
    for (file, name) in [("src/Foo.sol", "Bar"), ("Foo.sol", "Foo"), ("", "Baz"), ("a/b/", "Qux.t")] {
        let out = foundry_compilers::artifacts::output_file(file, name);
        assert_eq!(foundry_compilers::artifacts::contract_name(&out), Some(name.to_string()));
    }
    assert_eq!(foundry_compilers::artifacts::output_file("src/Foo.sol", "Bar"), "Foo.sol/Bar.json");
}

#[test]
fn files_by_depth_puts_top_most_first() {
    let files: Vec<String> = ["src/b/C.sol", "src/B.sol", "B.sol", "src/A.sol", "lib/x/y/Z.sol", "A.sol"]
        .iter()
        .map(|s| s.to_string())
        .collect();
    let ordered = foundry_compilers::artifacts::files_by_depth(&files);
    assert_eq!(ordered, vec!["A.sol", "B.sol", "src/A.sol", "src/B.sol", "src/b/C.sol", "lib/x/y/Z.sol"]);
}
