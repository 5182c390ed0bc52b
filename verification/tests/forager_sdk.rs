use wezel::forager::{failure_message, parse_llvm_lines_output, patch_file_name, step_forager, Forager};

struct Dummy;

impl Forager for Dummy {
    const NAME: &'static str = "dummy";
    const DESCRIPTION: &'static str = "test forager";
    const MEASUREMENTS_DOC: &'static str = "Emits `wall_time` and `rss_peak`.";
}

#[test]
fn measurements_doc_is_exposed() {
    assert!(Dummy::MEASUREMENTS_DOC.contains("wall_time"));
}

#[test]
fn failure_message_names_the_forager() {
    assert_eq!(failure_message::<Dummy>("boom"), "forager-dummy: boom");
}

#[test]
fn llvm_lines_single_spaced_rows_are_read() {
    let out = "  Lines Copies Function name\n  ----- ------ -------------\n  6207 (100%) 186 (100%) (TOTAL)\n  405 (6.5%) 1 (0.5%) std::rt::lang_start\n";
    let (total, detail) = parse_llvm_lines_output(out);
    assert_eq!(total, 6207);
    assert_eq!(detail.len(), 1);
    assert_eq!(detail[0].name, "std::rt::lang_start");
    assert_eq!(detail[0].lines, 405);
}

#[test]
fn llvm_lines_padded_rows_are_read() {
    let out = "  Lines         Copies       Function name\n  -----         ------       -------------\n  6207 (100%)   186 (100%)   (TOTAL)\n   405  (6.5%)    1  (0.5%)  std::rt::lang_start_internal\n";
    let (total, detail) = parse_llvm_lines_output(out);
    assert_eq!(total, 6207);
    assert_eq!(detail.len(), 1);
    assert_eq!(detail[0].name, "std::rt::lang_start_internal");
    assert_eq!(detail[0].lines, 405);
}

#[test]
fn llvm_lines_name_keeps_inner_spaces() {
    let out = "  12 (1%)  3 (1%)  <T as core::fmt::Debug>::fmt  \n";
    let (_, detail) = parse_llvm_lines_output(out);
    assert_eq!(detail[0].name, "<T as core::fmt::Debug>::fmt");
    assert_eq!(detail[0].lines, 12);
}

#[test]
fn llvm_lines_keeps_at_most_fifty_rows() {
    let mut out = String::new();
    for i in 0..60 {
        out.push_str(&format!("{} (1%) 1 (1%) f{}\n", i, i));
    }
    let (_, detail) = parse_llvm_lines_output(&out);
    assert_eq!(detail.len(), 50);
    assert_eq!(detail[49].name, "f49");
}

#[test]
fn llvm_lines_non_numeric_count_is_zero() {
    let (_, detail) = parse_llvm_lines_output("x (1%) 1 (1%) foo\n+7 (1%) 1 (1%) bar\n");
    assert_eq!(detail[0].lines, 0);
    assert_eq!(detail[1].lines, 7);
}

#[test]
fn step_without_forager_uses_exec_when_it_has_cmd() {
    assert_eq!(step_forager("build", None, true), Ok("exec".to_string()));
    assert_eq!(step_forager("build", Some("cargo".into()), false), Ok("cargo".to_string()));
    assert_eq!(
        step_forager("build", None, false),
        Err("step 'build' has no forager name and no cmd field".to_string())
    );
}

#[test]
fn patch_file_defaults_to_step_name() {
    assert_eq!(patch_file_name("edit", None), "edit.patch");
    assert_eq!(patch_file_name("edit", Some("shared")), "shared.patch");
}
