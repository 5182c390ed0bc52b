use wezel::upstream::{github_cache_key, github_owner_repo, normalize_upstream, project_name_from_upstream, short_sha};

#[test]
fn ssh_and_https_remotes_normalize_alike() {
    assert_eq!(normalize_upstream("git@github.com:acme/widget.git"), "github.com/acme/widget");
    assert_eq!(normalize_upstream("https://github.com/acme/widget.git"), "github.com/acme/widget");
    assert_eq!(normalize_upstream("  ssh://git@github.com/acme/widget\n"), "github.com/acme/widget");
}

#[test]
fn normalize_strips_repeated_git_suffix() {
    assert_eq!(normalize_upstream("http://example.org/x.git.git"), "example.org/x");
}

#[test]
fn github_owner_repo_accepts_common_forms() {
    let want = Some(("acme".to_string(), "widget".to_string()));
    assert_eq!(github_owner_repo("github.com/acme/widget"), want);
    assert_eq!(github_owner_repo("https://github.com/acme/widget.git"), want);
    assert_eq!(github_owner_repo("git@github.com:acme/widget.git"), want);
    assert_eq!(github_owner_repo("https://github.com/acme/widget/"), want);
    assert_eq!(github_owner_repo("github.com/acme/widget/tree/main"), want);
}

#[test]
fn github_owner_repo_rejects_other_hosts_and_partial_paths() {
    assert_eq!(github_owner_repo("gitlab.com/acme/widget"), None);
    assert_eq!(github_owner_repo("github.com/acme"), None);
    assert_eq!(github_owner_repo("github.com//widget"), None);
    assert_eq!(github_owner_repo("github.com/acme/.git"), None);
}

#[test]
fn cache_key_format() {
    assert_eq!(github_cache_key("acme", "widget", "abc123"), "acme/widget:abc123");
}

#[test]
fn project_name_is_last_segment() {
    assert_eq!(project_name_from_upstream("github.com/acme/widget"), "widget");
    assert_eq!(project_name_from_upstream("widget"), "widget");
    assert_eq!(project_name_from_upstream("github.com/acme/"), "");
}

#[test]
fn short_sha_takes_seven_chars() {
    assert_eq!(short_sha("0123456789abcdef"), "0123456");
    assert_eq!(short_sha("abc"), "abc");
}
