use wezel::topology::{crate_topology, PackageNode};

fn pkg(name: &str, version: &str, links: Vec<usize>) -> PackageNode {
    PackageNode { name: name.into(), version: version.into(), links }
}

#[test]
fn graph_keeps_what_the_workspace_reaches() {
    // 0 app -> 1 serde -> 2 serde_derive ; 3 unused -> 1
    let pkgs = vec![
        pkg("app", "0.1.0", vec![1]),
        pkg("serde", "1.0.0", vec![2]),
        pkg("serde_derive", "1.0.0", vec![]),
        pkg("unused", "0.0.1", vec![1]),
    ];
    let g = crate_topology(&pkgs, &[0]);
    let names: Vec<&str> = g.iter().map(|c| c.name.as_str()).collect();
    assert_eq!(names, vec!["app", "serde", "serde_derive"]);
    assert_eq!(g[0].deps, vec!["serde".to_string()]);
    assert!(!g[0].external);
    assert!(g[1].external);
    assert_eq!(g[1].version, "1.0.0");
}

#[test]
fn a_second_version_of_a_crate_is_not_walked() {
    // app -> syn 1 (index 1) and syn 2 (index 2); syn 2 -> quote.
    let pkgs = vec![
        pkg("app", "0.1.0", vec![1, 2]),
        pkg("syn", "1.0.0", vec![]),
        pkg("syn", "2.0.0", vec![3]),
        pkg("quote", "1.0.0", vec![]),
    ];
    let g = crate_topology(&pkgs, &[0]);
    let names: Vec<&str> = g.iter().map(|c| c.name.as_str()).collect();
    assert_eq!(names, vec!["app", "syn"]);
    assert_eq!(g[0].deps, vec!["syn".to_string(), "syn".to_string()]);
}

#[test]
fn empty_workspace_gives_empty_graph() {
    let pkgs = vec![pkg("a", "1", vec![])];
    assert!(crate_topology(&pkgs, &[]).is_empty());
}
