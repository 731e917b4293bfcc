use codexctl::lint::{
    allowed_bounded_contexts, contains_placeholder, follows_file_name_convention_exec,
    lint_loaded_spec, lint_task_file, placeholder_token_list, BetSpec,
};
use codexctl::paths::{
    bet_file_name, default_task_dir, default_task_path, discover_task_specs, extension_of,
    relative_display, sort_names, TaskDirEntry,
};
use codexctl::commands::{
    lint_exit_code, no_specs_exit_code, overall_lint_status, plan_init_bet,
    resolve_bounded_contexts, InitBetOutput,
};
use codexctl::shapeup::{render_bet_scaffold, summarize_reports, LintIssue, LintSeverity, LintStatus};

fn strings(items: &[&str]) -> Vec<String> {
    items.iter().map(|s| s.to_string()).collect()
}

fn valid_spec() -> BetSpec {
    BetSpec {
        name: "valid-bet".to_string(),
        bounded_contexts: strings(&["Validation"]),
        objective: "Improve validation messaging for high-agency operators".to_string(),
        success_signal: "Operators can understand validation failures without inspecting raw logs"
            .to_string(),
        no_gos: strings(&["Do not add queueing."]),
        acceptance_checks: strings(&["test -n \"ok\""]),
        review_checks: vec![],
    }
}

fn codes(issues: &[LintIssue]) -> Vec<&str> {
    issues.iter().map(|i| i.code.as_str()).collect()
}

#[test]
fn valid_spec_passes() {
    let report = lint_loaded_spec("x.yaml".to_string(), "shapeup-bet-valid.yaml", Ok(valid_spec()));
    assert_eq!(report.status, LintStatus::Passed);
    assert!(report.issues.is_empty());
    assert_eq!(report.task_name, Some("valid-bet".to_string()));
    assert_eq!(report.path, "x.yaml");
}

#[test]
fn unknown_bounded_context_fails() {
    let mut spec = valid_spec();
    spec.bounded_contexts = strings(&["Unknown Context"]);
    let report = lint_loaded_spec("p".to_string(), "shapeup-bet-invalid.yaml", Ok(spec));
    assert_eq!(report.status, LintStatus::Failed);
    assert_eq!(
        report.issues,
        vec![LintIssue {
            severity: LintSeverity::Error,
            code: "unknown_bounded_context".to_string(),
            field: Some("bounded_contexts".to_string()),
            message: "Unknown bounded context 'Unknown Context'. Allowed values: Profile Catalog, \
Live Auth Projection, Usage Intelligence, Validation, Task Definition, Run Orchestration, Run Ledger, \
Release Engineering"
                .to_string(),
        }]
    );
}

#[test]
fn file_name_convention_warning() {
    let report = lint_loaded_spec("p".to_string(), "bet.yaml", Ok(valid_spec()));
    assert_eq!(report.status, LintStatus::Warnings);
    assert_eq!(report.issues.len(), 1);
    assert_eq!(report.issues[0].code, "file_name_convention");
    assert_eq!(report.issues[0].severity, LintSeverity::Warning);
    assert_eq!(report.issues[0].field, None);
    assert_eq!(
        report.issues[0].message,
        "Task files should use 'shapeup-bet-<name>.yaml' under .codexctl/tasks"
    );
    assert!(follows_file_name_convention_exec("shapeup-bet-x.yml"));
    assert!(!follows_file_name_convention_exec("shapeup-bet-x.json"));
    assert!(!follows_file_name_convention_exec("shapeup-bet-"));
    assert!(!follows_file_name_convention_exec(""));
}

#[test]
fn load_error_fails_with_spec_invalid() {
    let report = lint_loaded_spec("p".to_string(), "notes.txt", Err("missing field `name`".to_string()));
    assert_eq!(report.status, LintStatus::Failed);
    assert_eq!(report.task_name, None);
    assert_eq!(codes(&report.issues), vec!["file_name_convention", "spec_invalid"]);
    assert_eq!(report.issues[1].message, "missing field `name`");
    assert_eq!(report.issues[1].severity, LintSeverity::Error);
}

#[test]
fn placeholders_and_short_statements() {
    let mut spec = valid_spec();
    spec.objective = "  TODO: write this  ".to_string();
    spec.success_signal = "Too short".to_string();
    let report = lint_loaded_spec("p".to_string(), "shapeup-bet-a.yaml", Ok(spec));
    assert_eq!(codes(&report.issues), vec!["objective_placeholder", "success_signal_too_short"]);
    assert_eq!(report.issues[0].severity, LintSeverity::Error);
    assert_eq!(report.issues[0].message, "Objective still contains placeholder language");
    assert_eq!(report.issues[1].severity, LintSeverity::Warning);
    assert_eq!(
        report.issues[1].message,
        "Success signal is unusually short for operator-facing validation"
    );
    assert_eq!(report.status, LintStatus::Failed);
}

#[test]
fn statement_length_counts_bytes() {
    let mut spec = valid_spec();
    // 12 characters, 24 bytes: long enough.
    spec.objective = "éééééééééééé".to_string();
    spec.success_signal = "Replace Me please, operators".to_string();
    let report = lint_loaded_spec("p".to_string(), "shapeup-bet-a.yaml", Ok(spec));
    assert_eq!(codes(&report.issues), vec!["success_signal_placeholder"]);
    assert_eq!(report.issues[0].field, Some("success_signal".to_string()));

    let mut spec = valid_spec();
    spec.objective = "x".repeat(23);
    let report = lint_loaded_spec("p".to_string(), "shapeup-bet-a.yaml", Ok(spec));
    assert_eq!(codes(&report.issues), vec!["objective_too_short"]);
    assert_eq!(report.issues[0].message, "Objective is unusually short for a shaped bet");
}

#[test]
fn no_go_and_check_rules() {
    let mut spec = valid_spec();
    spec.no_gos = strings(&["Never add queueing", "Do not tbd", "Do not add queues."]);
    spec.acceptance_checks = strings(&["  exit 0 ", ":", "true", "cargo test", "<fill in>"]);
    spec.review_checks = strings(&["placeholder review", "cargo clippy"]);
    let report = lint_loaded_spec("p".to_string(), "shapeup-bet-a.yaml", Ok(spec));
    assert_eq!(
        codes(&report.issues),
        vec![
            "no_go_style",
            "no_go_placeholder",
            "acceptance_check_weak",
            "acceptance_check_weak",
            "acceptance_check_weak",
            "acceptance_check_placeholder",
            "review_check_placeholder",
        ]
    );
    assert_eq!(report.issues[0].message, "No-go should usually start with 'Do not': Never add queueing");
    assert_eq!(report.issues[1].message, "A no-go entry still contains placeholder language");
    assert_eq!(report.issues[2].message, "Acceptance check is too weak to prove success:   exit 0 ");
    assert_eq!(report.issues[5].message, "Acceptance checks still contain placeholder language");
    assert_eq!(report.issues[6].message, "Review checks still contain placeholder language");
    assert_eq!(report.issues[6].field, Some("review_checks".to_string()));
    assert_eq!(report.status, LintStatus::Failed);
}

#[test]
fn placeholder_detection() {
    assert!(contains_placeholder("TODO later"));
    assert!(contains_placeholder("  Replace Me  "));
    assert!(contains_placeholder("xtbdx"));
    assert!(contains_placeholder("Your Objective Here"));
    assert!(!contains_placeholder("Replace this with the shaped outcome"));
    assert!(!contains_placeholder("ship the thing"));
    assert!(!contains_placeholder(""));
    assert_eq!(placeholder_token_list().len(), 9);
    assert_eq!(allowed_bounded_contexts().len(), 8);
}

#[test]
fn lint_task_file_uses_path_parts() {
    let report = lint_task_file(
        "/repo",
        "/repo/.codexctl/tasks/shapeup-bet-valid.yaml",
        Ok(valid_spec()),
    );
    assert_eq!(report.path, ".codexctl/tasks/shapeup-bet-valid.yaml");
    assert_eq!(report.status, LintStatus::Passed);

    let report = lint_task_file("/repo", "/elsewhere/bet.yml", Ok(valid_spec()));
    assert_eq!(report.path, "/elsewhere/bet.yml");
    assert_eq!(codes(&report.issues), vec!["file_name_convention"]);
}

#[test]
fn relative_display_strips_the_root() {
    assert_eq!(relative_display("/repo", "/repo/a/b.yaml"), "a/b.yaml");
    assert_eq!(relative_display("/repo", "/repository/b.yaml"), "/repository/b.yaml");
    assert_eq!(relative_display("/repo", "other/b.yaml"), "other/b.yaml");
}

#[test]
fn bet_file_names() {
    assert_eq!(bet_file_name("My New Bet!"), "shapeup-bet-my-new-bet.yaml");
    assert_eq!(bet_file_name(""), "shapeup-bet-new-bet.yaml");
}

#[test]
fn task_dir_and_path() {
    assert_eq!(default_task_dir("/repo"), "/repo/.codexctl/tasks");
    assert_eq!(default_task_dir("/repo/"), "/repo/.codexctl/tasks");
    assert_eq!(default_task_dir(""), ".codexctl/tasks");
    assert_eq!(
        default_task_path("/repo", "My New Bet!"),
        "/repo/.codexctl/tasks/shapeup-bet-my-new-bet.yaml"
    );
    assert_eq!(default_task_path("r", "***"), "r/.codexctl/tasks/shapeup-bet-new-bet.yaml");
}

#[test]
fn extensions_of_file_names() {
    assert_eq!(extension_of("a.yaml"), Some("yaml".to_string()));
    assert_eq!(extension_of("a.b.yml"), Some("yml".to_string()));
    assert_eq!(extension_of(".yaml"), None);
    assert_eq!(extension_of("noext"), None);
    assert_eq!(extension_of("a."), Some(String::new()));
    assert_eq!(extension_of(".hidden.yaml"), Some("yaml".to_string()));
}

fn entry(name: &str, is_file: bool) -> TaskDirEntry {
    TaskDirEntry {
        file_name: name.to_string(),
        is_file,
    }
}

#[test]
fn discover_keeps_sorted_yaml_files() {
    let entries = vec![
        entry("zeta.yaml", true),
        entry("README.md", true),
        entry("alpha.yml", true),
        entry("dir.yaml", false),
        entry("Beta.yaml", true),
        entry(".yaml", true),
        entry("alpha.yaml", true),
    ];
    assert_eq!(
        discover_task_specs("/r", &entries),
        strings(&[
            "/r/.codexctl/tasks/Beta.yaml",
            "/r/.codexctl/tasks/alpha.yaml",
            "/r/.codexctl/tasks/alpha.yml",
            "/r/.codexctl/tasks/zeta.yaml",
        ])
    );
    assert!(discover_task_specs("/r", &vec![]).is_empty());
}

#[test]
fn sort_names_orders_by_bytes() {
    assert_eq!(
        sort_names(strings(&["b", "a", "ab", "B", "é", "a"])),
        strings(&["B", "a", "a", "ab", "b", "é"])
    );
}

#[test]
fn scaffold_file_names_follow_the_lint_convention() {
    for name in ["Auth UX", "***", "x.y"] {
        let path = default_task_path("/repo", name);
        let file_name = path.rsplit('/').next().unwrap();
        assert!(follows_file_name_convention_exec(file_name));
        let report = lint_task_file("/repo", &path, Ok(valid_spec()));
        assert_eq!(report.status, LintStatus::Passed);
    }
}

#[test]
fn placeholder_detection_ignores_ascii_case() {
    for value in ["ToDo", "REPLACE ME", "Your Success Signal Here", "nothing here"] {
        assert_eq!(contains_placeholder(value), contains_placeholder(&value.to_ascii_lowercase()));
    }
}

#[test]
fn placeholder_detection_ignores_upper_case_and_padding() {
    for value in ["todo", "Replace me", "your objective here", "nothing", ""] {
        let found = contains_placeholder(value);
        assert_eq!(contains_placeholder(&value.to_ascii_uppercase()), found);
        assert_eq!(contains_placeholder(&format!("  {value}  ")), found);
        assert_eq!(contains_placeholder(&format!("\t\n{value}\u{3000}")), found);
    }
}

#[test]
fn shapeup_lint_passes_for_valid_spec() {
    let report = lint_task_file(
        "/repo",
        "/repo/.codexctl/tasks/shapeup-bet-valid.yaml",
        Ok(valid_spec()),
    );
    let summary = summarize_reports(&[report.clone()]);
    assert_eq!(overall_lint_status(&summary), LintStatus::Passed);
    assert_eq!(summary.failed, 0);
    assert_eq!(lint_exit_code(&summary), None);
    assert_eq!(no_specs_exit_code(1), None);
}

#[test]
fn shapeup_lint_fails_for_unknown_bounded_context() {
    let spec = BetSpec {
        name: "invalid-bet".to_string(),
        bounded_contexts: strings(&["Unknown Context"]),
        objective: "Improve something meaningful for operators".to_string(),
        success_signal: "The operator sees explicit improvements in the CLI".to_string(),
        no_gos: strings(&["Do not add queueing."]),
        acceptance_checks: strings(&["test -n \"ok\""]),
        review_checks: vec![],
    };
    let report = lint_task_file("/repo", "/repo/.codexctl/tasks/shapeup-bet-invalid.yaml", Ok(spec));
    let summary = summarize_reports(&[report.clone()]);
    assert_eq!(overall_lint_status(&summary), LintStatus::Failed);
    assert_eq!(lint_exit_code(&summary), Some(14));
    assert!(report.issues.iter().any(|issue| issue.code == "unknown_bounded_context"));
}

#[test]
fn shapeup_init_bet_stdout_prints_scaffold_without_writing_file() {
    assert_eq!(plan_init_bet(true, false, false, false), Ok(InitBetOutput::Stdout));
    let scaffold = render_bet_scaffold("Auth UX", "1_week", &resolve_bounded_contexts(vec![]));
    assert!(scaffold.contains("name: auth-ux"));
}

#[test]
fn no_bet_specs_exit_code() {
    assert_eq!(no_specs_exit_code(0), Some(23));
    assert_eq!(no_specs_exit_code(3), None);
}
