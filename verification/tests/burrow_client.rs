use wezel::client::{aliases_toml_path, pid_file, queue_dir, version_file};
use wezel::burrow::{auth_required, plan_benchmark_pr};
use wezel::client::{coarse_platform, parse_pid, pid_text};
use wezel::burrow::{
    assemble_graph, authorize_url, benchmark_name, benchmark_pr_branch, benchmark_pr_title,
    default_branch_or_main, forbidden_redirect, frontend_url, github_commit_json,
    graph_edge_inserts, graph_node_inserts, heads_ref, ingest_record, nonempty_trimmed,
    oauth_state_matches, org_member_url, org_membership, overview_json, pheromone_identity,
    plan_claim, repo_api_url, runs_to_json, scenario_json, schema_asset_index, DirtyCrate,
    ForagerClaimBody, GithubCommitFields, GraphEdgeRow, GraphEntry, GraphNodeRow, IdNameRow,
    IngestEvent, IngestPheromone, LatestCommit, OrgMembership, Run, Scenario,
};
use wezel::client::{
    api_url, cpuinfo_model_name, event_file_name, exit_codes, forager_note, handler_file_name,
    missing_from_lock, nonempty_output, os_release_pretty_name, pheromone_out_file_name,
    plan_pheromone_update, platform_label, resolve_data_branch, resolve_server_url,
    resolve_username, target_label, DaemonClock, GlobalConfig, PheromoneUpdate,
};

fn node(name: &str) -> GraphNodeRow {
    GraphNodeRow { name: name.into(), version: "1.0".into(), external: false }
}

fn edge(src: &str, dep: &str, kind: &str) -> GraphEdgeRow {
    GraphEdgeRow { source_name: src.into(), dep_name: dep.into(), kind: kind.into() }
}

#[test]
fn graph_nodes_collect_their_edges_by_kind() {
    let nodes = vec![node("app"), node("lib"), node("app")];
    let edges = vec![edge("app", "lib", "normal"), edge("app", "cc", "build"), edge("app", "t", "dev"), edge("app", "x", "weird")];
    let g = assemble_graph(&nodes, &edges);
    assert_eq!(g.len(), 3);
    assert_eq!(g[0].deps, vec!["lib".to_string(), "x".to_string()]);
    assert_eq!(g[0].build_deps, vec!["cc".to_string()]);
    assert_eq!(g[0].dev_deps, vec!["t".to_string()]);
    assert!(g[1].deps.is_empty());
    assert!(g[2].deps.is_empty() && g[2].build_deps.is_empty());
}

fn run(id: i64) -> Run {
    Run {
        id,
        scenario_id: 1,
        user: "u".into(),
        platform: "p".into(),
        timestamp: "t".into(),
        commit_short: "c".into(),
        build_time_ms: 10,
    }
}

#[test]
fn runs_get_their_dirty_crates() {
    let runs = vec![run(1), run(2)];
    let dirty = vec![
        DirtyCrate { run_id: 2, crate_name: "b".into() },
        DirtyCrate { run_id: 1, crate_name: "a".into() },
        DirtyCrate { run_id: 2, crate_name: "c".into() },
    ];
    let js = runs_to_json(&runs, &dirty);
    assert_eq!(js[0].dirty_crates, vec!["a".to_string()]);
    assert_eq!(js[1].dirty_crates, vec!["b".to_string(), "c".to_string()]);
    assert_eq!(js[1].commit, "c");
}

#[test]
fn benchmark_names() {
    assert_eq!(benchmark_name("cargo", "build", &[]), "cargo build");
    assert_eq!(benchmark_name("cargo", "test", &["a".to_string(), "b".to_string()]), "cargo test a b");
}

fn entry(name: Option<&str>, deps: &[&str], build: &[&str]) -> GraphEntry {
    GraphEntry {
        name: name.map(|s| s.to_string()),
        version: None,
        external: Some(true),
        deps: deps.iter().map(|s| s.to_string()).collect(),
        build_deps: build.iter().map(|s| s.to_string()).collect(),
        dev_deps: vec![],
    }
}

#[test]
fn ingested_graph_rows() {
    let entries = vec![entry(Some("app"), &["lib", "ghost"], &["cc"]), entry(None, &["lib"], &[]), entry(Some("lib"), &[], &[])];
    let nodes = graph_node_inserts(&entries);
    assert_eq!(nodes.len(), 2);
    assert_eq!((nodes[0].name.as_str(), nodes[0].version.as_str(), nodes[0].external), ("app", "", true));
    let rows = vec![
        IdNameRow { id: 1, name: "app".into() },
        IdNameRow { id: 2, name: "lib".into() },
        IdNameRow { id: 3, name: "cc".into() },
    ];
    let es = graph_edge_inserts(&entries, &rows);
    let got: Vec<(i64, i64, &str)> = es.iter().map(|e| (e.source_id, e.target_id, e.kind.as_str())).collect();
    assert_eq!(got, vec![(1, 2, "normal"), (1, 3, "build")]);
}

#[test]
fn ingest_defaults() {
    let e = IngestEvent {
        upstream: Some("github.com/acme/widget".into()),
        user: None,
        timestamp: Some("123".into()),
        duration_ms: Some(42),
        platform: None,
        commit: None,
        pheromone: Some(IngestPheromone {
            tool: None,
            command: None,
            profile: None,
            packages: vec![],
            platform: None,
            graph: None,
            dirty_crates: vec!["x".into()],
        }),
    };
    let rec = ingest_record(e).unwrap();
    assert_eq!(rec.project_name, "widget");
    assert_eq!(rec.user, "unknown");
    let r = rec.run.unwrap();
    assert_eq!(r.scenario_name, "unknown build");
    assert_eq!(r.profile, "dev");
    assert_eq!(r.build_time_ms, 42);
    assert_eq!(r.timestamp, "123");
    assert_eq!(r.commit_short, "");
    let none = IngestEvent { upstream: None, user: None, timestamp: None, duration_ms: None, platform: None, commit: None, pheromone: None };
    assert!(ingest_record(none).is_none());
}

#[test]
fn claims_are_trimmed_and_checked() {
    let body = ForagerClaimBody {
        project_upstream: " github.com/acme/widget ".into(),
        commit_sha: "0123456789".into(),
        benchmark_name: "cargo build".into(),
        commit_author: None,
        commit_message: Some("m".into()),
        commit_timestamp: None,
    };
    let p = plan_claim(body).unwrap();
    assert_eq!(p.upstream, "github.com/acme/widget");
    assert_eq!(p.project_name, "widget");
    assert_eq!(p.short_sha, "0123456");
    assert_eq!(p.author, "unknown");
    assert_eq!(p.message, "m");
    let bad = ForagerClaimBody {
        project_upstream: "x".into(),
        commit_sha: "  ".into(),
        benchmark_name: "b".into(),
        commit_author: None,
        commit_message: None,
        commit_timestamp: None,
    };
    assert!(plan_claim(bad).is_none());
}

#[test]
fn github_commit_fallbacks() {
    let f = GithubCommitFields {
        sha: None,
        author_login: None,
        commit_author_name: Some("Ann".into()),
        message: Some("fix".into()),
        author_date: None,
        committer_date: Some("2024".into()),
        html_url: None,
    };
    let c = github_commit_json(f, "abcdef0123");
    assert_eq!(c.sha, "abcdef0123");
    assert_eq!(c.short_sha, "abcdef0");
    assert_eq!(c.author, "Ann");
    assert_eq!(c.timestamp, "2024");
    assert_eq!(c.html_url, "");
}

#[test]
fn pull_request_pieces() {
    assert_eq!(nonempty_trimmed(Some(" tok ".into())), Some("tok".to_string()));
    assert_eq!(nonempty_trimmed(Some("  ".into())), None);
    assert_eq!(default_branch_or_main(None), "main");
    assert_eq!(benchmark_pr_title("incr"), "wezel: add incr benchmark");
    assert_eq!(benchmark_pr_branch("incr", 1700000000), "wezel/benchmark-incr-1700000000");
    assert_eq!(heads_ref("b"), "refs/heads/b");
    assert_eq!(repo_api_url("a", "r", "/pulls"), "https://api.github.com/repos/a/r/pulls");
}

#[test]
fn registry_and_sign_in() {
    let names = vec![Some("x.tar.gz".to_string()), None, Some("schema.json".to_string())];
    assert_eq!(schema_asset_index(&names), Some(2));
    assert_eq!(pheromone_identity(None, None, "acme/pheromone-cargo"), ("pheromone-cargo".to_string(), "0.0.0".to_string()));
    assert!(oauth_state_matches(Some("s1"), "s1"));
    assert!(!oauth_state_matches(None, "s1"));
    assert_eq!(
        authorize_url("cid", "st"),
        "https://github.com/login/oauth/authorize?client_id=cid&state=st&scope=read:user%20read:org"
    );
    assert_eq!(frontend_url(None), "http://localhost:5173");
    assert_eq!(forbidden_redirect("http://f"), "http://f?error=forbidden");
    assert_eq!(org_member_url("o", "l"), "https://api.github.com/orgs/o/members/l");
    assert_eq!(org_membership(404), OrgMembership::NotMember);
    assert_eq!(org_membership(204), OrgMembership::Member);
    assert_eq!(org_membership(500), OrgMembership::Unknown);
}

#[test]
fn responses() {
    let s = Scenario { id: 3, name: "n".into(), profile: "dev".into(), pinned: true, platform: None };
    let j = scenario_json(s, vec![], Some(vec![]));
    assert!(j.graph.is_none());
    assert_eq!(j.id, 3);
    let o = overview_json(4, 1, Some(LatestCommit { short_sha: "abc".into(), status: "done".into() }));
    assert_eq!(o.latest_commit_short_sha.as_deref(), Some("abc"));
    assert_eq!(overview_json(0, 0, None).latest_commit_status, None);
}

#[test]
fn platform_strings() {
    assert_eq!(platform_label("linux", Some("Ubuntu 24.04".into()), None, "x86_64"), "Linux Ubuntu 24.04, x86_64");
    assert_eq!(platform_label("macos", None, Some("Apple M2".into()), "aarch64"), "macOS, Apple M2");
    assert_eq!(platform_label("freebsd", Some(String::new()), None, "x86_64"), "freebsd, x86_64");
    assert_eq!(os_release_pretty_name("NAME=x\nPRETTY_NAME=\"Debian 12\"\n"), Some("Debian 12".to_string()));
    assert_eq!(os_release_pretty_name("NAME=x\n"), None);
    assert_eq!(cpuinfo_model_name("processor\t: 0\nmodel name\t: AMD EPYC 7B13\n"), Some("AMD EPYC 7B13".to_string()));
    assert_eq!(cpuinfo_model_name("model name only\nmodel name : a:b\n"), Some("a".to_string()));
    assert_eq!(nonempty_output(" 14.2\n"), Some("14.2".to_string()));
    assert_eq!(nonempty_output("\n"), None);
}

#[test]
fn wrapped_tool_bookkeeping() {
    assert_eq!(exit_codes(false, None), (127, 127));
    assert_eq!(exit_codes(true, None), (1, 1));
    assert_eq!(exit_codes(true, Some(257)), (257, 1));
    assert_eq!(handler_file_name("cargo"), "pheromone-cargo");
    assert_eq!(pheromone_out_file_name("cargo", "id"), "pheromone-cargo-id.json");
    assert_eq!(event_file_name("cargo", "id"), "cargo-id.json");
    assert_eq!(api_url("http://b//", "/api/events"), "http://b/api/events");
}

#[test]
fn pheromone_update_decisions() {
    let plats = vec!["x86_64-unknown-linux-gnu".to_string()];
    assert!(matches!(
        plan_pheromone_update("pheromone-cargo", "acme/p", "1.2.0", &plats, "aarch64-apple-darwin", None, false),
        PheromoneUpdate::NotAvailable
    ));
    assert!(matches!(
        plan_pheromone_update("pheromone-cargo", "acme/p", "1.2.0", &plats, "x86_64-unknown-linux-gnu", Some("1.2.0\n".into()), false),
        PheromoneUpdate::UpToDate
    ));
    match plan_pheromone_update("pheromone-cargo", "acme/p", "1.2.0", &plats, "x86_64-unknown-linux-gnu", Some("1.1.0".into()), false) {
        PheromoneUpdate::Download { binary, url } => {
            assert_eq!(binary, "pheromone-cargo-x86_64-unknown-linux-gnu");
            assert_eq!(url, "https://github.com/acme/p/releases/download/v1.2.0/pheromone-cargo-x86_64-unknown-linux-gnu");
        }
        _ => panic!("expected a download"),
    }
}

#[test]
fn configuration_layers() {
    let g = GlobalConfig { username: Some("global".into()) };
    assert_eq!(resolve_username(Some("proj".into()), g.clone(), "sys".into()), "proj");
    assert_eq!(resolve_username(None, g.clone(), "sys".into()), "global");
    assert_eq!(resolve_username(Some(String::new()), g, "sys".into()), "sys");
    assert_eq!(resolve_username(None, GlobalConfig::default(), "sys".into()), "sys");
    assert_eq!(resolve_server_url(Some("http://env".into()), Some("http://cfg".into())), Some("http://env".to_string()));
    assert_eq!(resolve_server_url(Some(String::new()), Some("http://cfg".into())), Some("http://cfg".to_string()));
    assert_eq!(resolve_server_url(None, Some(String::new())), None);
    assert_eq!(resolve_data_branch(None), "wezel/data");
    assert_eq!(resolve_data_branch(Some("d".into())), "d");
}

#[test]
fn daemon_timing() {
    let c = DaemonClock::start(1000);
    let (c, t) = c.plan(1000, true);
    assert!(t.flush && t.update);
    let (c, t) = c.plan(20_000, true);
    assert!(!t.flush && !t.update);
    let (c, t) = c.plan(31_000, false);
    assert!(!t.flush && !t.update);
    assert_eq!(c.last_flush, Some(31_000));
    let c = c.flushed(31_000, 2);
    assert_eq!(c.last_activity, 31_000);
    assert!(!c.should_exit(300_000, true));
    assert!(c.should_exit(331_000, true));
    assert!(!c.should_exit(331_000, false));
}

#[test]
fn project_status_lines() {
    assert_eq!(target_label(Some("http://b"), Some("d")), "server http://b");
    assert_eq!(target_label(None, Some("d")), "data branch d");
    assert_eq!(target_label(None, None), "(none)");
    assert_eq!(forager_note(true, true), "");
    assert_eq!(forager_note(true, false), " (installed but not in wezel.lock)");
    let declared = vec!["exec".to_string(), "cargo".to_string(), "llvm".to_string()];
    let locked = vec!["exec".to_string()];
    assert_eq!(missing_from_lock(&declared, &locked), vec!["cargo".to_string(), "llvm".to_string()]);
}

#[test]
fn pid_file_round_trip() {
    for pid in [0u32, 1, 42, 65535, u32::MAX] {
        assert_eq!(parse_pid(&pid_text(pid)), Some(pid));
    }
    assert_eq!(parse_pid(" 123\n"), Some(123));
    assert_eq!(parse_pid("+7"), Some(7));
    assert_eq!(parse_pid("4294967296"), None);
    assert_eq!(parse_pid("12a"), None);
    assert_eq!(parse_pid(""), None);
}

#[test]
fn coarse_platforms_and_auth() {
    assert_eq!(coarse_platform("macos"), Some("macOS"));
    assert_eq!(coarse_platform("freebsd"), Some("FreeBSD"));
    assert_eq!(coarse_platform("haiku"), None);
    assert!(auth_required(true, false));
    assert!(!auth_required(false, false));
}

#[test]
fn wezel_dir_files() {
    assert_eq!(queue_dir("/home/u/.wezel"), "/home/u/.wezel/queue");
    assert_eq!(pid_file("/home/u/.wezel/"), "/home/u/.wezel/wezel.pid");
    assert_eq!(aliases_toml_path("w"), "w/aliases.toml");
    assert_eq!(version_file("/opt/p", "pheromone-cargo"), "/opt/p/pheromone-cargo.version");
}

#[test]
fn flushes_are_spaced() {
    let c = DaemonClock::start(0);
    let (c, t) = c.plan(0, true);
    assert!(t.flush);
    let (_, t) = c.plan(29_999, true);
    assert!(!t.flush);
    let (_, t) = c.plan(30_000, true);
    assert!(t.flush);
}

#[test]
fn benchmark_pr_refusals_come_before_github() {
    assert_eq!(plan_benchmark_pr(None, Some("t".into())), Err(404));
    assert_eq!(plan_benchmark_pr(Some("https://gitlab.com/a/b"), Some("t".into())), Err(400));
    assert_eq!(plan_benchmark_pr(Some("https://github.com/acme/app.git"), None), Err(503));
    assert_eq!(plan_benchmark_pr(Some("https://github.com/acme/app.git"), Some("  ".into())), Err(503));
    assert_eq!(
        plan_benchmark_pr(Some("git@github.com:acme/app.git"), Some(" tok \n".into())),
        Ok(("acme".to_string(), "app".to_string(), "tok".to_string()))
    );
}
