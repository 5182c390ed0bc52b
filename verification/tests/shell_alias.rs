use wezel::alias::{added_message, removed_message, AliasesFile};
use wezel::shell::{has_shell_hook, hook_to_append, Shell};

#[test]
fn shell_detected_from_var() {
    assert_eq!(Shell::from_shell_var("/bin/zsh"), Some(Shell::Zsh));
    assert_eq!(Shell::from_shell_var("/usr/local/bin/bash"), Some(Shell::Bash));
    assert_eq!(Shell::from_shell_var("/usr/bin/fish"), Some(Shell::Fish));
    assert_eq!(Shell::from_shell_var("/bin/sh"), None);
}

#[test]
fn rc_and_init_paths() {
    assert_eq!(Shell::Zsh.rc_path("/home/u", false), "/home/u/.zshrc");
    assert_eq!(Shell::Bash.rc_path("/home/u", true), "/home/u/.bashrc");
    assert_eq!(Shell::Bash.rc_path("/home/u", false), "/home/u/.bash_profile");
    assert_eq!(Shell::Fish.rc_path("/home/u", false), "/home/u/.config/fish/conf.d/wezel.fish");
    assert_eq!(Shell::Fish.init_script_path("/home/u/.wezel"), "/home/u/.wezel/init.fish");
}

#[test]
fn source_blocks() {
    assert_eq!(
        Shell::Zsh.source_block("/h/.wezel"),
        "# >>> wezel pheromone >>>\n[[ -f \"/h/.wezel/init.zsh\" ]] && source \"/h/.wezel/init.zsh\"\n# <<< wezel pheromone <<<"
    );
    assert_eq!(
        Shell::Fish.source_block("/h/.wezel"),
        "# >>> wezel pheromone >>>\nif test -f \"/h/.wezel/init.fish\"\n    source \"/h/.wezel/init.fish\"\nend\n# <<< wezel pheromone <<<"
    );
}

#[test]
fn alias_lines_per_shell() {
    assert_eq!(Shell::Bash.alias_line("cargo"), "alias cargo=\"wezel exec -- cargo\"");
    assert_eq!(Shell::Fish.alias_line("cargo"), "alias cargo \"wezel exec -- cargo\"");
}

#[test]
fn init_script_lists_aliases_in_order() {
    let mut a = AliasesFile::new();
    a.insert("npm");
    a.insert("cargo");
    let s = Shell::Zsh.render_init_script(&a);
    assert_eq!(
        s,
        "# Managed by wezel — do not edit, aliases are stored in aliases.toml\nalias cargo=\"wezel exec -- cargo\"\nalias npm=\"wezel exec -- npm\"\n"
    );
}

#[test]
fn hook_detected_by_marker() {
    assert!(has_shell_hook("x\n# >>> wezel pheromone >>>\ny"));
    assert!(!has_shell_hook("# <<< wezel pheromone <<<"));
}

#[test]
fn alias_set_keeps_sorted_unique_names() {
    let mut a = AliasesFile::new();
    assert!(a.is_empty());
    assert!(a.insert("go"));
    assert!(a.insert("cargo"));
    assert!(!a.insert("go"));
    assert_eq!(a.to_vec(), vec!["cargo".to_string(), "go".to_string()]);
    assert!(a.contains("cargo"));
    assert!(!a.contains("npm"));
    assert_eq!(a.len(), 2);
}

#[test]
fn insert_then_remove_restores_the_set() {
    let mut a = AliasesFile::new();
    a.insert("b");
    a.insert("d");
    let before = a.to_vec();
    assert!(a.insert("c"));
    assert!(a.remove("c"));
    assert_eq!(a.to_vec(), before);
    assert!(!a.remove("c"));
}

#[test]
fn alias_messages() {
    let mut a = AliasesFile::new();
    assert_eq!(a.hook_message(), "Shell hook is set up. No aliases configured yet.");
    a.insert("npm");
    a.insert("cargo");
    assert_eq!(a.hook_message(), "Shell hook is set up. 2 alias(es) active: cargo, npm");
    assert_eq!(added_message("go", true), "Added alias for `go`.");
    assert_eq!(added_message("go", false), "Alias for `go` already present.");
    assert_eq!(removed_message("go", true), "Removed alias for `go`.");
    assert_eq!(removed_message("go", false), "No alias for `go` found.");
}

#[test]
fn hook_is_appended_once() {
    let rc = "export PATH=/bin\n";
    let first = hook_to_append(Shell::Zsh, rc, "/home/u/.wezel").expect("hook missing");
    assert!(first.starts_with("\n# >>> wezel pheromone >>>\n"));
    assert!(first.ends_with("# <<< wezel pheromone <<<\n"));
    assert_eq!(first, format!("\n{}\n", Shell::Zsh.source_block("/home/u/.wezel")));
    let after = format!("{rc}{first}");
    assert_eq!(hook_to_append(Shell::Zsh, &after, "/home/u/.wezel"), None);
}
