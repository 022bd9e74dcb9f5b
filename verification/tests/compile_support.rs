use foundry_compilers::buildinfo::{BuildContext, SolcLanguage};
use foundry_compilers::filter::{
    output_selection, FileFilter, FilteredSources, GraphNode, SourceCompilationKind,
    SparseOutputFilter, TestFileFilter,
};
use foundry_compilers::parse::SolData;
use foundry_compilers::selection::OutputSelection;
use foundry_compilers::resolc::{
    install_step, supported_solc_range, version_from_output, Binary, BinaryInfo, InstallAction,
    InstallEvent, InstallStep, VersionOutputError,
};
use foundry_compilers::sources::Source;
use foundry_compilers::version::{CompareOp, Version};

fn v(major: u64, minor: u64, patch: u64) -> Version {
    Version { major, minor, patch, pre: String::new(), build: String::new() }
}

#[test]
fn test_file_filter_matches_t_sol() {
    let f = TestFileFilter::new();
    assert!(f.is_match("test/Foo.t.sol"));
    assert!(!f.is_match("src/Foo.sol"));
    assert!(!f.is_match("test/"));
}

fn kinds() -> FilteredSources {
    FilteredSources(vec![
        ("a.t.sol".to_string(), SourceCompilationKind::Complete(Source::new("a".to_string()))),
        ("lib.sol".to_string(), SourceCompilationKind::Complete(Source::new("l".to_string()))),
        ("b.sol".to_string(), SourceCompilationKind::Optimized(Source::new("b".to_string()))),
        ("c.sol".to_string(), SourceCompilationKind::Complete(Source::new("c".to_string()))),
    ])
}

#[test]
fn filtered_sources_queries() {
    let s = kinds();
    assert_eq!(s.len(), 4);
    assert!(!s.is_empty());
    assert!(!s.all_dirty());
    assert_eq!(s.dirty_files(), vec!["a.t.sol".to_string(), "lib.sol".to_string(), "c.sol".to_string()]);
    assert_eq!(s.clean().len(), 1);
    assert_eq!(s.dirty().len(), 3);
    assert!(s.0[0].1.is_dirty());
    assert_eq!(s.0[2].1.source().content, "b");
}

#[test]
fn sparse_sources_with_custom_filter_adds_libraries() {
    let s = kinds();
    let graph = vec![
        GraphNode { path: "a.t.sol".to_string(), imports: vec!["lib.sol".to_string(), "b.sol".to_string()], is_sol: true, has_libraries: false },
        GraphNode { path: "lib.sol".to_string(), imports: vec![], is_sol: true, has_libraries: true },
        GraphNode { path: "b.sol".to_string(), imports: vec![], is_sol: true, has_libraries: true },
    ];
    let tf = TestFileFilter::new();
    let filter = SparseOutputFilter::new(Some(&tf as &dyn FileFilter));
    let abi = vec![("*".to_string(), vec!["abi".to_string()])];
    let empty = vec![("*".to_string(), vec![])];
    let mut selection = OutputSelection(vec![
        ("*".to_string(), vec![("*".to_string(), vec!["abi".to_string(), "evm.bytecode".to_string()])]),
        ("x.sol".to_string(), vec![]),
    ]);
    let (sources, mut full) = filter.sparse_sources(s, &mut selection, &abi, &empty, &graph);
    full.sort();
    assert_eq!(full, vec!["a.t.sol".to_string(), "lib.sol".to_string()]);
    assert_eq!(sources.len(), 4);
    let star_sel = vec![("*".to_string(), vec!["abi".to_string(), "evm.bytecode".to_string()])];
    assert_eq!(
        selection.0,
        vec![
            ("a.t.sol".to_string(), star_sel.clone()),
            ("b.sol".to_string(), empty.clone()),
            ("c.sol".to_string(), empty.clone()),
            ("lib.sol".to_string(), star_sel.clone()),
            ("x.sol".to_string(), vec![]),
        ]
    );

    let mut plain = OutputSelection(vec![]);
    let (_, mut all) = SparseOutputFilter::new(None).sparse_sources(kinds(), &mut plain, &abi, &empty, &graph);
    assert_eq!(plain.0[0], ("a.t.sol".to_string(), abi.clone()));
    assert_eq!(plain.0[1], ("b.sol".to_string(), empty.clone()));
    all.sort();
    assert_eq!(all, vec!["a.t.sol".to_string(), "c.sol".to_string(), "lib.sol".to_string()]);
    let sel = output_selection(&kinds(), &all);
    assert_eq!(sel.iter().map(|e| e.1).collect::<Vec<_>>(), vec![true, true, false, true]);
}

#[test]
fn build_context_maps_input_ids() {
    let inputs = vec!["a.sol".to_string(), "b.sol".to_string()];
    let outputs = vec![("b.sol".to_string(), 7u32), ("x.sol".to_string(), 1), ("a.sol".to_string(), 3)];
    let ctx = BuildContext::new(&inputs, &outputs, SolcLanguage::Solidity);
    assert_eq!(ctx.source_id_to_path, std::collections::BTreeMap::from([(3, "a.sol".to_string()), (7, "b.sol".to_string())]));
    let joined = ctx.with_joined_paths("/root");
    assert_eq!(
        joined.source_id_to_path,
        std::collections::BTreeMap::from([(3, "/root/a.sol".to_string()), (7, "/root/b.sol".to_string())])
    );
}

#[test]
fn resolc_version_from_output() {
    let out = "Solidity frontend for the revive compiler version 0.1.0-dev.13+commit.abc\n\n";
    let ver = version_from_output(true, out).unwrap();
    assert_eq!((ver.major, ver.minor, ver.patch), (0, 1, 0));
    assert_eq!(ver.pre, "dev.13");
    assert_eq!(ver.build, "");
    assert!(matches!(version_from_output(false, out), Err(VersionOutputError::Failed)));
    assert!(matches!(version_from_output(true, "  \n"), Err(VersionOutputError::NotFound)));
    assert!(matches!(version_from_output(true, "version x.y"), Err(VersionOutputError::Unreadable)));
}

#[test]
fn supported_range_is_inclusive() {
    let r = supported_solc_range(&v(0, 8, 0), &v(0, 8, 29));
    assert_eq!(r.comparators.len(), 2);
    assert_eq!(r.comparators[0].op, CompareOp::GreaterEq);
    assert_eq!(r.comparators[1].op, CompareOp::LessEq);
    assert_eq!(r.comparators[1].patch, Some(29));
}

fn info() -> BinaryInfo {
    BinaryInfo { version: v(0, 1, 0), first_supported_solc_version: v(0, 8, 0), last_supported_solc_version: v(0, 8, 29) }
}

#[test]
fn install_steps() {
    let requested = Some(v(0, 1, 0));
    let (s, a) = install_step(&requested, InstallStep::Start, InstallEvent::Started);
    assert!(matches!(s, InstallStep::CheckingInstalled));
    assert!(matches!(a, InstallAction::CheckInstalled(_)));
    let (s, a) = install_step(&requested, s, InstallEvent::Installed(false));
    assert!(matches!(a, InstallAction::GetOrInstall(_)));
    let (s, a) = install_step(&requested, s, InstallEvent::Fetched(Binary::Remote(info())));
    assert!(matches!(a, InstallAction::GetOrInstall(_)));
    let (_, a) = install_step(&requested, s, InstallEvent::InstalledAt(Some("/bin/resolc".to_string())));
    match a {
        InstallAction::Finish(Ok(r)) => {
            assert_eq!(r.path, "/bin/resolc");
            assert_eq!(r.supported_solc_versions.comparators.len(), 2);
        }
        _ => panic!("expected a release"),
    }
    let (_, a) = install_step(&None, InstallStep::Listing, InstallEvent::Listed(vec![]));
    match a {
        InstallAction::Finish(Err(m)) => assert_eq!(m, "No `resolc` versions available."),
        _ => panic!("expected an error"),
    }
    let (_, a) = install_step(&None, InstallStep::Listing, InstallEvent::Listed(vec![Binary::Local { path: "p".to_string(), info: info() }]));
    assert!(matches!(a, InstallAction::Finish(Ok(_))));
}

#[test]
fn solidity_version_requirements() {
    let r = SolData::parse_version_req(">=0.4.22 <0.6").unwrap();
    assert_eq!(r.comparators.len(), 2);
    assert_eq!(r.comparators[0].op, CompareOp::GreaterEq);
    assert_eq!(r.comparators[1].op, CompareOp::Less);
    let exact = SolData::parse_version_req("0.8.10").unwrap();
    assert_eq!(exact.comparators[0].op, CompareOp::Exact);
    let caret = SolData::parse_version_req("^0.8.10").unwrap();
    assert_eq!(caret.comparators[0].op, CompareOp::Caret);
    assert!(SolData::parse_version_req("not a version").is_err());
}

#[test]
fn version_displays_like_semver() {
    let ver = Version { major: 1, minor: 2, patch: 3, pre: "rc.1".to_string(), build: "b5".to_string() };
    assert_eq!(ver.to_string(), "1.2.3-rc.1+b5");
    assert_eq!(v(0, 8, 4).to_string(), "0.8.4");
}

#[test]
fn source_hash_and_normalization() {
    let s = Source::from_file_contents("a\r\nb\r\n");
    assert_eq!(s.content, "a\nb\n");
    assert_eq!(Source::content_hash_of(""), "d41d8cd98f00b204e9800998ecf8427e");
    assert_eq!(Source::new("abc".to_string()).content_hash(), "900150983cd24fb0d6963f7d28e17f72");
}

#[test]
fn filters_render_their_names() {
    assert_eq!(TestFileFilter::new().to_string(), "TestFileFilter");
    assert_eq!(SparseOutputFilter::new(None).kind_name(), "Optimized");
    let f = TestFileFilter::new();
    assert_eq!(SparseOutputFilter::new(Some(&f)).kind_name(), "Custom");
}
