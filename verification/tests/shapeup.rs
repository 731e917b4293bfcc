use codexctl::commands::{
    encryption_passphrase, lint_exit_code, overall_lint_status, plan_init_bet,
    resolve_bounded_contexts, InitBetOutput, InitBetRefusal, INIT_BET_REFUSED_EXIT_CODE,
};
use codexctl::shapeup::{
    default_bounded_contexts, lint_status, render_bet_scaffold, summarize_reports, LintIssue,
    LintReport, LintSeverity, LintStatus, LintSummary, BET_SCHEMA_TYPE,
    SHAPEUP_LINT_FAILED_EXIT_CODE, SHAPEUP_TASK_PREFIX,
};
use codexctl::slug::slugify_bet_name;

#[test]
fn slugify_handles_spaces_and_symbols() {
    assert_eq!(slugify_bet_name("My New Bet!"), "my-new-bet");
    assert_eq!(slugify_bet_name("___"), "new-bet");
}

#[test]
fn scaffold_contains_shapeup_prefix_fields() {
    let rendered = render_bet_scaffold("Auth UX", "1_week", &default_bounded_contexts());
    assert!(rendered.contains("type: codexctl-bet/v1"));
    assert!(rendered.contains("name: auth-ux"));
    assert!(rendered.contains("bounded_contexts:"));
}

#[test]
fn slugify_collapses_runs_and_trims_dashes() {
    assert_eq!(slugify_bet_name("  --Hello__World--  "), "hello-world");
    assert_eq!(slugify_bet_name("API v2 / Rollout"), "api-v2-rollout");
    assert_eq!(slugify_bet_name("already-a-slug"), "already-a-slug");
    assert_eq!(slugify_bet_name("Äuth"), "uth");
    assert_eq!(slugify_bet_name(""), "new-bet");
    assert_eq!(slugify_bet_name("ÄÖÜ"), "new-bet");
    assert_eq!(slugify_bet_name("A1B2"), "a1b2");
}

#[test]
fn slugify_is_idempotent_on_examples() {
    for name in ["My New Bet!", "___", "  x  y  ", "Ünïcödé Bet 42", "a--b"] {
        let once = slugify_bet_name(name);
        assert_eq!(slugify_bet_name(&once), once);
    }
}

#[test]
fn scaffold_is_rendered_in_full() {
    let contexts = vec!["Validation".to_string(), "Run Ledger".to_string()];
    let rendered = render_bet_scaffold("Auth UX", "1_week", &contexts);
    let expected = [
        "type: codexctl-bet/v1\n",
        "name: auth-ux\n",
        "appetite: 1_week\n",
        "objective: Replace this with the shaped outcome for auth-ux\n",
        "bounded_contexts:\n",
        "  - Validation\n",
        "  - Run Ledger\n",
        "success_signal: Replace this with an operator-visible success signal\n",
        "no_gos:\n",
        "- Do not broaden scope beyond the stated appetite.\n",
        "context_files: []\n",
        "constraints: []\n",
        "acceptance_checks:\n",
        "- echo 'replace with deterministic acceptance checks' >&2 && exit 1\n",
        "review_checks: []\n",
        "notes: |\n",
        "Edit the objective, success signal, bounded contexts, and checks before running this bet.\n",
    ]
    .concat();
    assert_eq!(rendered, expected);
}

#[test]
fn scaffold_with_no_contexts_has_empty_context_block() {
    let rendered = render_bet_scaffold("x", "2_weeks", &[]);
    assert!(rendered.contains("bounded_contexts:\n\nsuccess_signal:"));
}

#[test]
fn constants_have_their_values() {
    assert_eq!(SHAPEUP_TASK_PREFIX, "shapeup-bet-");
    assert_eq!(SHAPEUP_LINT_FAILED_EXIT_CODE, 14);
    assert_eq!(BET_SCHEMA_TYPE, "codexctl-bet/v1");
    assert_eq!(default_bounded_contexts(), vec!["Task Definition".to_string()]);
}

fn issue(severity: LintSeverity) -> LintIssue {
    LintIssue {
        severity,
        code: "c".to_string(),
        field: None,
        message: "m".to_string(),
    }
}

#[test]
fn lint_status_follows_severities() {
    assert_eq!(lint_status(&vec![]), LintStatus::Passed);
    assert_eq!(lint_status(&vec![issue(LintSeverity::Warning)]), LintStatus::Warnings);
    assert_eq!(
        lint_status(&vec![issue(LintSeverity::Warning), issue(LintSeverity::Error)]),
        LintStatus::Failed
    );
}

fn report(status: LintStatus, issues: usize) -> LintReport {
    LintReport {
        path: "p".to_string(),
        task_name: None,
        status,
        issues: (0..issues).map(|_| issue(LintSeverity::Warning)).collect(),
    }
}

#[test]
fn summary_counts_reports_and_issues() {
    let reports = vec![
        report(LintStatus::Passed, 0),
        report(LintStatus::Warnings, 2),
        report(LintStatus::Failed, 3),
        report(LintStatus::Failed, 1),
    ];
    let summary = summarize_reports(&reports);
    assert_eq!(
        summary,
        LintSummary {
            total_files: 4,
            passed: 1,
            warnings: 1,
            failed: 2,
            issue_count: 6,
        }
    );
    assert_eq!(summary.passed + summary.warnings + summary.failed, summary.total_files);
    assert_eq!(overall_lint_status(&summary), LintStatus::Failed);
    assert_eq!(lint_exit_code(&summary), Some(14));
}

#[test]
fn summary_of_concatenation_adds_up_and_ignores_order() {
    let a = vec![report(LintStatus::Passed, 0), report(LintStatus::Failed, 2)];
    let b = vec![report(LintStatus::Warnings, 1), report(LintStatus::Failed, 4)];
    let sa = summarize_reports(&a);
    let sb = summarize_reports(&b);
    let both = summarize_reports(&[a.clone(), b.clone()].concat());
    assert_eq!(
        both,
        LintSummary {
            total_files: sa.total_files + sb.total_files,
            passed: sa.passed + sb.passed,
            warnings: sa.warnings + sb.warnings,
            failed: sa.failed + sb.failed,
            issue_count: sa.issue_count + sb.issue_count,
        }
    );
    let mut reversed = [a, b].concat();
    reversed.reverse();
    assert_eq!(summarize_reports(&reversed), both);
}

#[test]
fn summary_of_no_reports_is_zero() {
    let summary = summarize_reports(&[]);
    assert_eq!(summary.total_files, 0);
    assert_eq!(summary.issue_count, 0);
    assert_eq!(overall_lint_status(&summary), LintStatus::Passed);
    assert_eq!(lint_exit_code(&summary), None);
}

#[test]
fn overall_status_with_only_warnings() {
    let summary = summarize_reports(&[report(LintStatus::Warnings, 1), report(LintStatus::Passed, 0)]);
    assert_eq!(overall_lint_status(&summary), LintStatus::Warnings);
    assert_eq!(lint_exit_code(&summary), None);
}

#[test]
fn init_bet_plan_covers_each_case() {
    assert_eq!(plan_init_bet(true, true, false, false), Err(InitBetRefusal::ConflictingOutputFlags));
    assert_eq!(plan_init_bet(true, false, true, false), Ok(InitBetOutput::Stdout));
    assert_eq!(plan_init_bet(false, true, true, false), Err(InitBetRefusal::ScaffoldExists));
    assert_eq!(
        plan_init_bet(false, false, true, true),
        Ok(InitBetOutput::File { overwritten: true })
    );
    assert_eq!(
        plan_init_bet(false, false, false, true),
        Ok(InitBetOutput::File { overwritten: false })
    );
    assert_eq!(InitBetRefusal::ScaffoldExists.exit_code(), INIT_BET_REFUSED_EXIT_CODE);
    assert_eq!(INIT_BET_REFUSED_EXIT_CODE, 2);
}

#[test]
fn bounded_contexts_default_when_none_given() {
    assert_eq!(resolve_bounded_contexts(vec![]), vec!["Task Definition".to_string()]);
    assert_eq!(
        resolve_bounded_contexts(vec!["Validation".to_string()]),
        vec!["Validation".to_string()]
    );
}

#[test]
fn empty_passphrase_means_no_encryption() {
    assert_eq!(encryption_passphrase(None), None);
    assert_eq!(encryption_passphrase(Some(String::new())), None);
    assert_eq!(encryption_passphrase(Some("s3cret".to_string())), Some("s3cret".to_string()));
}
