use wezel::fetcher::FetchError;
use wezel::fetcher::{
    archive_lock_key, release_api_url, schema_name_matches, select_asset, set_key, ConfigFetcher,
    FetchAction, FetchEvent, FetchStage, LockedTool, WezelLock,
};
use wezel::standalone::{
    active_bisection_names, active_bisection_path, baseline_head, baseline_head_path,
    baseline_path, completed_bisection_path, find_subtree, head_is_current, mktree_text, narrow,
    parse_ls_tree, path_parts, plan_bisection, remove_named, upsert_blob, upsert_tree,
    BisectPlan, TreeEntry,
};

fn entry(mode: &str, kind: &str, sha: &str, name: &str) -> TreeEntry {
    TreeEntry { mode: mode.into(), kind: kind.into(), sha: sha.into(), name: name.into() }
}

#[test]
fn ls_tree_output_round_trips_through_mktree() {
    let text = "100644 blob aaa\tHEAD\n040000 tree bbb\tsub dir\nnot an entry\n";
    let es = parse_ls_tree(text);
    assert_eq!(es.len(), 2);
    assert_eq!(es[1].name, "sub dir");
    assert_eq!(es[1].kind, "tree");
    assert_eq!(mktree_text(&es), "100644 blob aaa\tHEAD\n040000 tree bbb\tsub dir\n");
    assert_eq!(mktree_text(&[]), "");
}

#[test]
fn tree_edits() {
    let es = vec![entry("100644", "blob", "a", "x.json"), entry("040000", "tree", "b", "basic")];
    let es = upsert_blob(es, "x.json", "c");
    assert_eq!(es.len(), 2);
    assert_eq!((es[1].sha.as_str(), es[1].name.as_str()), ("c", "x.json"));
    let es = upsert_tree(es, "new", "d");
    assert_eq!(es[2].mode, "040000");
    assert_eq!(find_subtree(&es, "basic"), Some(0));
    assert_eq!(find_subtree(&es, "x.json"), None);
    let es = remove_named(es, "basic");
    assert_eq!(es.len(), 2);
    assert_eq!(find_subtree(&es, "basic"), None);
}

#[test]
fn data_branch_paths() {
    assert_eq!(path_parts("baselines/basic/HEAD"), vec!["baselines", "basic", "HEAD"]);
    assert_eq!(path_parts("a//b"), vec!["a", "", "b"]);
    assert_eq!(baseline_path("basic", "abc"), "baselines/basic/abc.json");
    assert_eq!(baseline_head_path("basic"), "baselines/basic/HEAD");
    assert_eq!(active_bisection_path("basic"), "bisection/active/basic.json");
    assert_eq!(
        completed_bisection_path("basic", "2024-01-02T03:04:05Z"),
        "bisection/completed/basic-2024-01-02T03-04-05Z.json"
    );
    let files = vec!["basic.json".to_string(), "README".to_string(), "x.json".to_string()];
    assert_eq!(active_bisection_names(&files), vec!["basic".to_string(), "x".to_string()]);
}

#[test]
fn baseline_head_file() {
    assert_eq!(baseline_head(" abc\n"), Some("abc".to_string()));
    assert_eq!(baseline_head("  \n"), None);
    assert!(head_is_current(Some("abc\n"), "abc"));
    assert!(!head_is_current(Some("abd"), "abc"));
    assert!(!head_is_current(None, "abc"));
}

#[test]
fn bisection_moves() {
    assert_eq!(plan_bisection(0), BisectPlan::Culprit);
    assert_eq!(plan_bisection(1), BisectPlan::Culprit);
    assert_eq!(plan_bisection(5), BisectPlan::Test { index: 2 });
    assert_eq!(narrow("g".into(), "b".into(), "m".into(), true), ("g".to_string(), "m".to_string()));
    assert_eq!(narrow("g".into(), "b".into(), "m".into(), false), ("m".to_string(), "b".to_string()));
}

#[test]
fn archive_key_is_sha256_hex() {
    assert_eq!(
        archive_lock_key(b"abc"),
        "sha256:ba7816bf8f01cfea414140de5dae2223b00361a396177a9cb410ff61f20015ad"
    );
    assert_eq!(
        archive_lock_key(b""),
        "sha256:e3b0c44298fc1c149afbf4c8996fb92427ae41e4649b934ca495991b7852b855"
    );
}

fn lock_with_exec() -> WezelLock {
    WezelLock {
        version: 1,
        foragers: vec![(
            "exec".to_string(),
            LockedTool {
                github: "acme/forager_exec".into(),
                tag: "v1.0.0".into(),
                assets: vec![("x86_64-unknown-linux-gnu".into(), "sha256:00".into())],
            },
        )],
    }
}

#[test]
fn fetcher_pins_from_the_lockfile() {
    let f = ConfigFetcher::read_only(lock_with_exec());
    assert!(f.may_install("exec"));
    assert!(!f.may_install("cargo"));
    assert_eq!(f.pinned_tag("exec", Some("v2".into())), Some("v1.0.0".to_string()));
    assert_eq!(f.pinned_tag("cargo", Some("v2".into())), Some("v2".to_string()));
    assert_eq!(f.expected_key("exec", "x86_64-unknown-linux-gnu"), Some("sha256:00".to_string()));
    assert_eq!(f.expected_key("exec", "aarch64-apple-darwin"), None);
    let g = ConfigFetcher::new(lock_with_exec());
    assert!(g.may_install("cargo"));
}

#[test]
fn recording_an_install_pins_it_unless_read_only() {
    let mut f = ConfigFetcher::new(WezelLock { version: 0, foragers: vec![] });
    f.record_install("cargo", "acme/forager_cargo".into(), "v3".into(), "t", "sha256:11".into());
    assert_eq!(f.lock.version, 1);
    assert_eq!(f.pinned_tag("cargo", None), Some("v3".to_string()));
    assert_eq!(f.expected_key("cargo", "t"), Some("sha256:11".to_string()));
    let mut r = ConfigFetcher::read_only(lock_with_exec());
    r.record_install("cargo", "x".into(), "y".into(), "t", "k".into());
    assert_eq!(r.lock.foragers.len(), 1);
    assert_eq!(r.pinned_tag("cargo", None), None);
}

#[test]
fn set_key_replaces_or_appends() {
    let mut m: Vec<(String, String)> = vec![("a".into(), "1".into())];
    set_key(&mut m, "a", "2".into());
    set_key(&mut m, "b", "3".into());
    assert_eq!(m, vec![("a".to_string(), "2".to_string()), ("b".to_string(), "3".to_string())]);
}

#[test]
fn lock_keys_stay_in_order() {
    let mut m: Vec<(String, String)> = vec![("b".into(), "1".into()), ("d".into(), "2".into())];
    set_key(&mut m, "c", "3".into());
    set_key(&mut m, "a", "4".into());
    set_key(&mut m, "e", "5".into());
    let keys: Vec<&str> = m.iter().map(|(k, _)| k.as_str()).collect();
    assert_eq!(keys, vec!["a", "b", "c", "d", "e"]);
    let mut f = ConfigFetcher::new(lock_with_exec());
    f.record_install("cargo", "acme/forager_cargo".into(), "v3".into(), "t", "sha256:11".into());
    f.record_install("zig", "acme/forager_zig".into(), "v1".into(), "t", "sha256:22".into());
    let names: Vec<&str> = f.lock.foragers.iter().map(|(k, _)| k.as_str()).collect();
    assert_eq!(names, vec!["cargo", "exec", "zig"]);
}

#[test]
fn asset_selection() {
    let names = vec![
        "forager_exec-x86_64-unknown-linux-gnu.tar.gz.sha256".to_string(),
        "forager-exec-aarch64-apple-darwin.tar.gz".to_string(),
        "forager_exec-x86_64-unknown-linux-gnu.tar.gz".to_string(),
    ];
    assert_eq!(select_asset(&names, "forager-exec", "x86_64-unknown-linux-gnu"), Some(2));
    assert_eq!(select_asset(&names, "forager-exec", "aarch64-apple-darwin"), Some(1));
    assert_eq!(select_asset(&names, "forager-exec", "riscv64"), None);
}

#[test]
fn release_urls_and_schema_names() {
    assert_eq!(release_api_url("acme/x", None), "https://api.github.com/repos/acme/x/releases?per_page=1");
    assert_eq!(release_api_url("acme/x", Some("v1")), "https://api.github.com/repos/acme/x/releases/tags/v1");
    assert!(schema_name_matches("exec", "exec"));
    assert!(!schema_name_matches("exec2", "exec"));
}

#[test]
fn written_tree_reads_back() {
    let es = vec![
        entry("100644", "blob", "0123abcd", "basic.json"),
        entry("040000", "tree", "89ef", "sub\tdir"),
        entry("100644", "blob", "aa", ""),
    ];
    let back = parse_ls_tree(&mktree_text(&es));
    assert_eq!(back.len(), 3);
    for (a, b) in back.iter().zip(es.iter()) {
        assert_eq!((&a.mode, &a.kind, &a.sha, &a.name), (&b.mode, &b.kind, &b.sha, &b.name));
    }
}

#[test]
fn rebinding_leaves_one_entry_of_that_name() {
    let es = vec![
        entry("100644", "blob", "a", "x"),
        entry("040000", "tree", "b", "y"),
        entry("100644", "blob", "c", "x"),
    ];
    let es = upsert_tree(es, "x", "d");
    let xs: Vec<&TreeEntry> = es.iter().filter(|e| e.name == "x").collect();
    assert_eq!(xs.len(), 1);
    assert_eq!(xs[0].kind, "tree");
    assert_eq!(find_subtree(&es, "x"), Some(1));
}

#[test]
fn installs_are_admitted_in_order() {
    let ro = ConfigFetcher::read_only(lock_with_exec());
    match ro.may_start("cargo", None, true) {
        Err(FetchError::NotAvailable { plugin, target }) => {
            assert_eq!((plugin.as_str(), target.as_str()), ("forager-cargo", "unknown"))
        }
        other => panic!("unexpected {other:?}"),
    }
    match ro.may_start("cargo", Some("t"), false) {
        Err(FetchError::Other(m)) => assert_eq!(
            m,
            "forager `cargo` not declared in `.wezel/config.toml`. Add `[tools.foragers.cargo]` with `github = \"owner/repo\"`."
        ),
        other => panic!("unexpected {other:?}"),
    }
    match ro.may_start("cargo", Some("t"), true) {
        Err(FetchError::Other(m)) => assert!(m.contains("is not pinned in wezel.lock")),
        other => panic!("unexpected {other:?}"),
    }
    assert!(ro.may_start("exec", Some("t"), true).is_ok());
}

#[test]
fn archive_keys_are_checked_against_the_lockfile() {
    let f = ConfigFetcher::read_only(lock_with_exec());
    let key = "sha256:ba7816bf8f01cfea414140de5dae2223b00361a396177a9cb410ff61f20015ad";
    assert_eq!(f.check_archive("exec", "aarch64-apple-darwin", b"abc").unwrap(), key);
    match f.check_archive("exec", "x86_64-unknown-linux-gnu", b"abc") {
        Err(FetchError::Other(m)) => assert_eq!(
            m,
            format!("wezel.lock sha mismatch for forager-exec (x86_64-unknown-linux-gnu): expected sha256:00, got {key}. Delete .wezel/wezel.lock to refresh.")
        ),
        other => panic!("unexpected {other:?}"),
    }
}

fn start(name: &str, target: Option<&str>, github: Option<&str>) -> FetchEvent {
    FetchEvent::Start {
        name: name.into(),
        target: target.map(|t| t.to_string()),
        github: github.map(|g| g.to_string()),
        config_tag: Some("v9".into()),
    }
}

#[test]
fn install_runs_checks_download_verify_then_pin() {
    let mut f = ConfigFetcher::new(WezelLock { version: 0, foragers: vec![] });
    let (stage, action) = f.next_fetch(FetchStage::Idle, start("cargo", Some("t"), Some("acme/forager_cargo")));
    match action {
        FetchAction::Resolve { github, pin } => {
            assert_eq!(github, "acme/forager_cargo");
            assert_eq!(pin, Some("v9".to_string()));
        }
        other => panic!("unexpected {other:?}"),
    }
    let (stage, action) = f.next_fetch(stage, FetchEvent::Resolved { tag: "v9".into() });
    assert!(matches!(action, FetchAction::Download));
    let (stage, action) = f.next_fetch(stage, FetchEvent::Downloaded(b"abc".to_vec()));
    assert!(matches!(action, FetchAction::Install));
    assert!(f.pinned_tag("cargo", None).is_none());
    let (stage, action) = f.next_fetch(stage, FetchEvent::Installed);
    assert!(matches!(stage, FetchStage::Finished));
    assert!(matches!(action, FetchAction::Done { ref tag } if tag == "v9"));
    assert_eq!(f.pinned_tag("cargo", None), Some("v9".to_string()));
    assert_eq!(f.expected_key("cargo", "t"), Some(archive_lock_key(b"abc")));
}

#[test]
fn install_refusals_and_mismatches_fail() {
    let mut r = ConfigFetcher::read_only(lock_with_exec());
    let (stage, action) = r.next_fetch(FetchStage::Idle, start("cargo", Some("t"), Some("acme/c")));
    assert!(matches!(stage, FetchStage::Failed));
    assert!(matches!(action, FetchAction::Fail(FetchError::Other(ref m)) if m.contains("is not pinned in wezel.lock")));
    let (_, action) = r.next_fetch(FetchStage::Idle, start("exec", None, Some("acme/forager_exec")));
    assert!(matches!(action, FetchAction::Fail(FetchError::NotAvailable { .. })));
    let (stage, _) = r.next_fetch(FetchStage::Idle, start("exec", Some("x86_64-unknown-linux-gnu"), Some("acme/forager_exec")));
    let (stage, _) = r.next_fetch(stage, FetchEvent::Resolved { tag: "v1.0.0".into() });
    let (stage, action) = r.next_fetch(stage, FetchEvent::Downloaded(b"other".to_vec()));
    assert!(matches!(stage, FetchStage::Failed));
    assert!(matches!(action, FetchAction::Fail(FetchError::Other(ref m)) if m.starts_with("wezel.lock sha mismatch")));
    let (_, action) = r.next_fetch(FetchStage::Downloading {
        name: "exec".into(),
        target: "t".into(),
        github: "g".into(),
        tag: "v".into(),
    }, FetchEvent::Broken("network down".into()));
    assert!(matches!(action, FetchAction::Fail(FetchError::Other(ref m)) if m == "network down"));
}
