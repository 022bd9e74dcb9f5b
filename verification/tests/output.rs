use foundry_compilers::output::CompilerOutput;

fn out(files: &[&str], errors: &[&str]) -> CompilerOutput<String, u32, u32> {
    let mut o: CompilerOutput<String, u32, u32> = CompilerOutput::new();
    let mut other = CompilerOutput::new();
    for (i, f) in files.iter().enumerate() {
        other.contracts.push((f.to_string(), vec![("C".to_string(), i as u32)]));
        other.sources.push((f.to_string(), i as u32));
    }
    for e in errors {
        other.errors.push(e.to_string());
    }
    o.merge(other);
    o
}

fn keys<V>(v: &[(String, V)]) -> Vec<String> {
    v.iter().map(|(k, _)| k.clone()).collect()
}

#[test]
fn merge_keeps_path_order_and_appends_errors() {
    let o = out(&["src/b.sol", "src/a.sol", "src/A/x.sol"], &["e1"]);
    assert_eq!(keys(&o.contracts), vec!["src/A/x.sol", "src/a.sol", "src/b.sol"]);
    assert_eq!(keys(&o.sources), vec!["src/A/x.sol", "src/a.sol", "src/b.sol"]);
    assert_eq!(o.sources[1].1, 1);
    let mut o = o;
    let more = out(&["src//a.sol", "z.sol"], &["e2", "e3"]);
    o.merge(more);
    assert_eq!(o.errors, vec!["e1", "e2", "e3"]);
    // `src//a.sol` is `src/a.sol`: its entry is taken, its key stays
    assert_eq!(keys(&o.sources), vec!["src/A/x.sol", "src/a.sol", "src/b.sol", "z.sol"]);
    assert_eq!(o.sources[1].1, 0);
}

#[test]
fn retain_files_ignores_case() {
    let mut o = out(&["src/utils/UpgradeProxy.sol", "src/Other.sol"], &[]);
    o.retain_files(&vec!["src/utils/upgradeProxy.sol".to_string()]);
    assert_eq!(keys(&o.contracts), vec!["src/utils/UpgradeProxy.sol"]);
    assert_eq!(keys(&o.sources), vec!["src/utils/UpgradeProxy.sol"]);
    o.retain_files(&vec![]);
    assert!(o.contracts.is_empty());
    assert!(o.sources.is_empty());
}

#[test]
fn join_all_joins_and_merges() {
    let mut o = out(&["a.sol", "/r/a.sol"], &[]);
    o.join_all("/r");
    assert_eq!(keys(&o.sources), vec!["/r/a.sol"]);
    assert_eq!(o.sources[0].1, 0);
    let mut p = out(&["x.sol", "y/z.sol"], &[]);
    p.join_all("root");
    assert_eq!(keys(&p.contracts), vec!["root/x.sol", "root/y/z.sol"]);
}

#[test]
fn map_err_maps_each_error() {
    let o = out(&["a.sol"], &["one", "three"]);
    let m = o.map_err(|e: String| e.len());
    assert_eq!(m.errors, vec![3, 5]);
    assert_eq!(keys(&m.contracts), vec!["a.sol"]);
    let d: CompilerOutput<u8, u8, u8> = CompilerOutput::default();
    assert!(d.errors.is_empty() && d.contracts.is_empty() && d.sources.is_empty());
}
