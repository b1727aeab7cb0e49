use rust_bf::commands::join;
use rust_bf::commands::mode_flag;
use rust_bf::commands::plan_ide;
use rust_bf::commands::plan_read;
use rust_bf::commands::plan_write;
use rust_bf::commands::step_ceiling;
use rust_bf::commands::IdeArgs;
use rust_bf::commands::IdePlan;
use rust_bf::commands::ReadArgs;
use rust_bf::commands::ReadPlan;
use rust_bf::commands::ReplArgs;
use rust_bf::commands::WriteArgs;
use rust_bf::commands::WritePlan;
use rust_bf::ModeFlagOverride;

fn read_args(file: Option<&str>, code: &[&str], help: bool) -> ReadArgs {
    ReadArgs {
        debug: false,
        file: file.map(|f| f.to_string()),
        code: code.iter().map(|c| c.to_string()).collect(),
        timeout_ms: None,
        max_steps: None,
        help,
    }
}

fn write_args(bytes: bool, file: Option<&str>, text: &[&str], help: bool) -> WriteArgs {
    WriteArgs {
        bytes,
        file: file.map(|f| f.to_string()),
        text: text.iter().map(|c| c.to_string()).collect(),
        help,
    }
}

#[test]
fn read_needs_exactly_one_source_of_code() {
    assert_eq!(plan_read(&read_args(None, &[], false)), ReadPlan::Usage);
    assert_eq!(plan_read(&read_args(Some("p.bf"), &["+"], false)), ReadPlan::Conflict);
    assert_eq!(plan_read(&read_args(Some("p.bf"), &[], false)), ReadPlan::File("p.bf".to_string()));
    assert_eq!(plan_read(&read_args(None, &["+"], false)), ReadPlan::Code("+".to_string()));
    assert_eq!(plan_read(&read_args(None, &["+[", "", "-]", "é"], false)), ReadPlan::Code("+[-]é".to_string()));
    assert_eq!(plan_read(&read_args(None, &[""], false)), ReadPlan::Code(String::new()));
    assert_eq!(plan_read(&read_args(None, &[], true)), ReadPlan::Help);
    assert_eq!(plan_read(&read_args(Some("p.bf"), &["+"], true)), ReadPlan::Help);
}

#[test]
fn write_takes_text_before_the_standard_input() {
    assert_eq!(plan_write(&write_args(false, None, &[], true)), WritePlan::Help);
    assert_eq!(plan_write(&write_args(false, Some("f"), &["x"], true)), WritePlan::Help);
    assert_eq!(plan_write(&write_args(false, Some("f"), &["x"], false)), WritePlan::Conflict);
    assert_eq!(plan_write(&write_args(true, Some("f"), &[], false)), WritePlan::FileBytes("f".to_string()));
    assert_eq!(plan_write(&write_args(false, Some("f"), &[], false)), WritePlan::FileText("f".to_string()));
    assert_eq!(plan_write(&write_args(false, None, &["+++."], false)), WritePlan::Text(b"+++.".to_vec()));
    assert_eq!(
        plan_write(&write_args(true, None, &["Hello", "wörld", ""], false)),
        WritePlan::Text("Hello wörld ".as_bytes().to_vec())
    );
    assert_eq!(plan_write(&write_args(true, None, &[], false)), WritePlan::StdinBytes);
    assert_eq!(plan_write(&write_args(false, None, &[], false)), WritePlan::StdinText);
}

#[test]
fn texts_are_joined() {
    let parts: Vec<String> = ["a", "", "bc"].iter().map(|p| p.to_string()).collect();
    assert_eq!(join(&parts, ""), "abc");
    assert_eq!(join(&parts, " "), "a  bc");
    assert_eq!(join(&parts, ", "), parts.join(", "));
    assert_eq!(join(&vec![], " "), "");
    assert_eq!(join(&vec!["x".to_string()], " "), "x");
}

#[test]
fn step_ceiling_defaults_to_the_largest_count() {
    assert_eq!(step_ceiling(None), usize::MAX);
    assert_eq!(step_ceiling(Some(0)), 0);
    assert_eq!(step_ceiling(Some(50)), 50);
    assert_eq!(step_ceiling(Some(u64::MAX)), u64::MAX as usize);
}

#[test]
fn repl_flags_choose_the_mode() {
    assert_eq!(mode_flag(ReplArgs { bare: false, editor: false, help: false }), ModeFlagOverride::Unset);
    assert_eq!(mode_flag(ReplArgs { bare: true, editor: false, help: false }), ModeFlagOverride::Bare);
    assert_eq!(mode_flag(ReplArgs { bare: false, editor: true, help: false }), ModeFlagOverride::Editor);
    assert_eq!(mode_flag(ReplArgs { bare: true, editor: true, help: true }), ModeFlagOverride::Bare);
}

#[test]
fn ide_refuses_help_together_with_a_file() {
    let args = |filename: Option<&str>, help: bool| IdeArgs {
        filename: filename.map(|f| f.to_string()),
        vi_mode: false,
        help,
    };
    assert_eq!(plan_ide(&args(None, true)), IdePlan::Help);
    assert_eq!(plan_ide(&args(Some("p.bf"), true)), IdePlan::Conflict);
    assert_eq!(plan_ide(&args(Some("p.bf"), false)), IdePlan::Start(Some("p.bf".to_string())));
    assert_eq!(plan_ide(&args(None, false)), IdePlan::Start(None));
}
