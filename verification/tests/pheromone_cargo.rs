use wezel::cargo_args::{is_build_command, normalize_command};
use wezel::cargo_args::{parse_args, parse_compiling_line, strip_ansi, CompileLogScanner};
use wezel::types::Profile;

#[test]
fn parse_simple_build() {
    let args: Vec<String> = vec!["build".into()];
    let parsed = parse_args(&args).unwrap();
    assert_eq!(parsed.command, "build");
    assert_eq!(parsed.profile, Profile::Dev);
    assert!(parsed.packages.is_empty());
}

#[test]
fn parse_short_alias() {
    let args: Vec<String> = vec!["b".into()];
    let parsed = parse_args(&args).unwrap();
    assert_eq!(parsed.command, "build");
}

#[test]
fn parse_release_profile() {
    let args: Vec<String> = vec!["build".into(), "--release".into()];
    let parsed = parse_args(&args).unwrap();
    assert_eq!(parsed.profile, Profile::Release);
}

#[test]
fn parse_named_profile() {
    let args: Vec<String> = vec!["build".into(), "--profile".into(), "release".into()];
    let parsed = parse_args(&args).unwrap();
    assert_eq!(parsed.profile, Profile::Release);
}

#[test]
fn parse_named_profile_eq() {
    let args: Vec<String> = vec!["build".into(), "--profile=bench".into()];
    let parsed = parse_args(&args).unwrap();
    assert_eq!(parsed.profile, Profile::Release);
}

#[test]
fn parse_packages() {
    let args: Vec<String> = vec![
        "test".into(),
        "-p".into(),
        "foo".into(),
        "--package".into(),
        "bar".into(),
    ];
    let parsed = parse_args(&args).unwrap();
    assert_eq!(parsed.command, "test");
    assert_eq!(parsed.packages, vec!["foo", "bar"]);
}

#[test]
fn parse_package_eq() {
    let args: Vec<String> = vec!["check".into(), "--package=baz".into()];
    let parsed = parse_args(&args).unwrap();
    assert_eq!(parsed.packages, vec!["baz"]);
}

#[test]
fn parse_non_build_returns_none() {
    let args: Vec<String> = vec!["fmt".into()];
    assert!(parse_args(&args).is_none());
}

#[test]
fn parse_global_flags_skipped() {
    let args: Vec<String> = vec![
        "--manifest-path".into(),
        "foo/Cargo.toml".into(),
        "build".into(),
        "--release".into(),
    ];
    let parsed = parse_args(&args).unwrap();
    assert_eq!(parsed.command, "build");
    assert_eq!(parsed.profile, Profile::Release);
}

#[test]
fn parse_empty_args() {
    let args: Vec<String> = vec![];
    assert!(parse_args(&args).is_none());
}

#[test]
fn compiling_line_parsed() {
    let line = "   Compiling serde v1.0.228 (/some/path)";
    assert_eq!(parse_compiling_line(line), Some("serde".into()));
}

#[test]
fn compiling_line_with_ansi() {
    let line = "\x1b[0m\x1b[0;32m   Compiling\x1b[0m serde v1.0.228 (/some/path)";
    assert_eq!(parse_compiling_line(line), Some("serde".into()));
}

#[test]
fn compiling_line_no_match() {
    assert_eq!(parse_compiling_line("   Downloading foo v1.0"), None);
    assert_eq!(parse_compiling_line("   Fresh bar v0.1.0"), None);
    assert_eq!(parse_compiling_line("warning: unused variable"), None);
}

#[test]
fn strip_ansi_plain() {
    assert_eq!(strip_ansi("hello world"), "hello world");
}

#[test]
fn strip_ansi_colored() {
    assert_eq!(strip_ansi("\x1b[0;32mCompiling\x1b[0m foo"), "Compiling foo");
}

#[test]
fn global_flag_values_are_not_the_subcommand() {
    let args: Vec<String> = vec!["-Z".into(), "build".into(), "check".into(), "-p".into(), "x".into()];
    let parsed = parse_args(&args).unwrap();
    assert_eq!(parsed.command, "check");
    assert_eq!(parsed.packages, vec!["x"]);
}

#[test]
fn unknown_named_profile_is_dev() {
    let args: Vec<String> = vec!["build".into(), "--release".into(), "--profile=custom".into()];
    let parsed = parse_args(&args).unwrap();
    assert_eq!(parsed.profile, Profile::Dev);
}

#[test]
fn scanner_finds_crates_across_chunk_boundaries() {
    let mut s = CompileLogScanner::new();
    let mut names = s.feed(b"   Compiling ser");
    assert!(names.is_empty());
    names.extend(s.feed(b"de v1.0.0\r   Compiling foo v0.1.0\n  Fresh bar"));
    assert_eq!(names, vec!["serde".to_string(), "foo".to_string()]);
    assert_eq!(s.finish(), None);
}

#[test]
fn scanner_reads_an_unterminated_last_line() {
    let mut s = CompileLogScanner::new();
    let names = s.feed(b"\x1b[32m   Compiling\x1b[0m anyhow v1.0.0");
    assert!(names.is_empty());
    assert_eq!(s.finish(), Some("anyhow".to_string()));
}

#[test]
fn scanner_skips_lines_that_are_not_utf8() {
    let mut s = CompileLogScanner::new();
    let names = s.feed(b"   Compiling \xff\xfe v1\n   Compiling ok v1\n");
    assert_eq!(names, vec!["ok".to_string()]);
}

#[test]
fn build_commands_and_aliases() {
    assert!(is_build_command("clippy"));
    assert!(is_build_command("r"));
    assert!(!is_build_command("fmt"));
    assert_eq!(normalize_command("d"), "doc");
    assert_eq!(normalize_command("bench"), "bench");
}
