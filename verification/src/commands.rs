//! The decisions of the `shapeup init-bet` and `shapeup lint` commands,
//! apart from the files and terminal they work on, and the passphrase rule
//! of profile saving.
use vstd::prelude::*;

use crate::shapeup::{
    count_status, default_bounded_contexts, default_contexts, law_count_positive_iff_some_report,
    law_failed_count_positive_iff_some_failed,
    string_views, LintStatus, LintSummary, ReportView, SHAPEUP_LINT_FAILED_EXIT_CODE,
};

verus! {

/// Exit code of `shapeup lint` when there is no bet spec to lint.
pub const NO_BET_SPECS_EXIT_CODE: u8 = 23;

/// Exit code of `shapeup init-bet` when it refuses to run.
pub const INIT_BET_REFUSED_EXIT_CODE: u8 = 2;

/// The status of a whole lint run: failed if a file failed, warnings if a
/// file had warnings, passed otherwise.
pub open spec fn overall_status_of(summary: LintSummary) -> LintStatus {
    if summary.failed > 0 {
        LintStatus::Failed
    } else if summary.warnings > 0 {
        LintStatus::Warnings
    } else {
        LintStatus::Passed
    }
}

/// The status of a whole lint run.
pub fn overall_lint_status(summary: &LintSummary) -> (status: LintStatus)
    ensures
        status == overall_status_of(*summary),
{
    if summary.failed > 0 {
        LintStatus::Failed
    } else if summary.warnings > 0 {
        LintStatus::Warnings
    } else {
        LintStatus::Passed
    }
}

/// The exit code that a lint run ends with, if it fails.
pub fn lint_exit_code(summary: &LintSummary) -> (code: Option<u8>)
    ensures
        code == (if summary.failed > 0 {
            Some(SHAPEUP_LINT_FAILED_EXIT_CODE)
        } else {
            None
        }),
{
    if summary.failed > 0 {
        Some(SHAPEUP_LINT_FAILED_EXIT_CODE)
    } else {
        None
    }
}

/// The exit code that `shapeup lint` refuses with when it has no bet spec
/// to lint.
pub fn no_specs_exit_code(task_count: usize) -> (code: Option<u8>)
    ensures
        code == (if task_count == 0 {
            Some(NO_BET_SPECS_EXIT_CODE)
        } else {
            None
        }),
{
    if task_count == 0 {
        Some(NO_BET_SPECS_EXIT_CODE)
    } else {
        None
    }
}

/// A lint run fails, as a whole and by its exit code, exactly when one of
/// its files failed.
pub proof fn law_lint_run_fails_iff_a_file_fails(reports: Seq<ReportView>, summary: LintSummary)
    requires
        summary.failed == count_status(reports, LintStatus::Failed),
    ensures
        (overall_status_of(summary) == LintStatus::Failed) <==> exists|i: int|
            0 <= i < reports.len() && (#[trigger] reports[i]).status == LintStatus::Failed,
{
    law_failed_count_positive_iff_some_failed(reports);
}

/// The overall status of a lint run by cases of its summary: failed when a
/// file failed; warnings when none failed and one had warnings; passed only
/// when no file failed or had warnings. The exit code is the failure code
/// exactly when the run failed.
pub proof fn law_overall_status_cases(summary: LintSummary)
    ensures
        (overall_status_of(summary) == LintStatus::Failed) <==> summary.failed > 0,
        (overall_status_of(summary) == LintStatus::Warnings) <==> (summary.failed == 0
            && summary.warnings > 0),
        (overall_status_of(summary) == LintStatus::Passed) <==> (summary.failed == 0
            && summary.warnings == 0),
{
}

/// The overall status of a lint run in terms of its reports: warnings
/// exactly when no report failed and some report has warnings, passed
/// exactly when every report passed.
pub proof fn law_overall_status_of_reports(reports: Seq<ReportView>, summary: LintSummary)
    requires
        summary.failed == count_status(reports, LintStatus::Failed),
        summary.warnings == count_status(reports, LintStatus::Warnings),
    ensures
        (overall_status_of(summary) == LintStatus::Warnings) <==> ((forall|i: int|
            0 <= i < reports.len() ==> (#[trigger] reports[i]).status != LintStatus::Failed)
            && exists|i: int|
            0 <= i < reports.len() && (#[trigger] reports[i]).status == LintStatus::Warnings),
        (overall_status_of(summary) == LintStatus::Passed) <==> (forall|i: int|
            0 <= i < reports.len() ==> (#[trigger] reports[i]).status == LintStatus::Passed),
{
    law_count_positive_iff_some_report(reports, LintStatus::Failed);
    law_count_positive_iff_some_report(reports, LintStatus::Warnings);
    if overall_status_of(summary) != LintStatus::Passed {
        if summary.failed > 0 {
            let i = choose|i: int| 0 <= i < reports.len() && (#[trigger] reports[i]).status == LintStatus::Failed;
            assert(reports[i].status != LintStatus::Passed);
        } else {
            let i = choose|i: int| 0 <= i < reports.len() && (#[trigger] reports[i]).status == LintStatus::Warnings;
            assert(reports[i].status != LintStatus::Passed);
        }
    }
}

/// Where `shapeup init-bet` puts the scaffold.
#[derive(Clone, Copy, Debug, PartialEq, Eq, Structural)]
pub enum InitBetOutput {
    /// Print it and write no file.
    Stdout,
    /// Write the spec file; `overwritten` tells whether one was there.
    File { overwritten: bool },
}

/// Why `shapeup init-bet` refuses to run.
#[derive(Clone, Copy, Debug, PartialEq, Eq, Structural)]
pub enum InitBetRefusal {
    /// `--stdout` and `--json` were both given.
    ConflictingOutputFlags,
    /// The spec file exists and `--force` was not given.
    ScaffoldExists,
}

impl InitBetRefusal {
    pub fn exit_code(&self) -> (code: u8)
        ensures
            code == INIT_BET_REFUSED_EXIT_CODE,
    {
        INIT_BET_REFUSED_EXIT_CODE
    }
}

/// What `shapeup init-bet` does, from its flags and whether the spec file
/// already exists.
pub open spec fn init_bet_plan(stdout: bool, json: bool, existed: bool, force: bool) -> Result<
    InitBetOutput,
    InitBetRefusal,
> {
    if stdout && json {
        Err(InitBetRefusal::ConflictingOutputFlags)
    } else if stdout {
        Ok(InitBetOutput::Stdout)
    } else if existed && !force {
        Err(InitBetRefusal::ScaffoldExists)
    } else {
        Ok(InitBetOutput::File { overwritten: existed && force })
    }
}

/// Decides what `shapeup init-bet` does.
pub fn plan_init_bet(stdout: bool, json: bool, existed: bool, force: bool) -> (plan: Result<
    InitBetOutput,
    InitBetRefusal,
>)
    ensures
        plan == init_bet_plan(stdout, json, existed, force),
{
    if stdout && json {
        return Err(InitBetRefusal::ConflictingOutputFlags);
    }
    if stdout {
        return Ok(InitBetOutput::Stdout);
    }
    if existed && !force {
        return Err(InitBetRefusal::ScaffoldExists);
    }
    Ok(InitBetOutput::File { overwritten: existed && force })
}

/// `init-bet` never overwrites a spec file unless `--force` is given, and
/// never writes one when asked to print.
pub proof fn law_init_bet_never_clobbers(stdout: bool, json: bool, existed: bool, force: bool)
    ensures
        init_bet_plan(stdout, json, existed, force) matches Ok(InitBetOutput::File { overwritten })
            ==> (overwritten <==> existed) && (existed ==> force) && !stdout,
{
}

/// What `init-bet` does in each case of its flags: both output flags are
/// refused; `--stdout` alone prints; otherwise a spec file that does not
/// exist yet is written, one that exists is overwritten with `--force` and
/// refused without it.
pub proof fn law_init_bet_cases(stdout: bool, json: bool, existed: bool, force: bool)
    ensures
        stdout && json ==> init_bet_plan(stdout, json, existed, force) == Err::<
            InitBetOutput,
            InitBetRefusal,
        >(InitBetRefusal::ConflictingOutputFlags),
        stdout && !json ==> init_bet_plan(stdout, json, existed, force) == Ok::<
            InitBetOutput,
            InitBetRefusal,
        >(InitBetOutput::Stdout),
        !stdout && !existed ==> init_bet_plan(stdout, json, existed, force) == Ok::<
            InitBetOutput,
            InitBetRefusal,
        >(InitBetOutput::File { overwritten: false }),
        !stdout && existed && force ==> init_bet_plan(stdout, json, existed, force) == Ok::<
            InitBetOutput,
            InitBetRefusal,
        >(InitBetOutput::File { overwritten: true }),
        !stdout && existed && !force ==> init_bet_plan(stdout, json, existed, force) == Err::<
            InitBetOutput,
            InitBetRefusal,
        >(InitBetRefusal::ScaffoldExists),
{
}

/// The bounded contexts of a new bet: those given, or the default ones when
/// none are given.
pub fn resolve_bounded_contexts(given: Vec<String>) -> (contexts: Vec<String>)
    ensures
        string_views(contexts@) == if given@.len() == 0 {
            default_contexts()
        } else {
            string_views(given@)
        },
{
    if given.len() == 0 {
        default_bounded_contexts()
    } else {
        given
    }
}

/// The passphrase that `save` encrypts a profile with: the one given,
/// unless it is empty.
pub fn encryption_passphrase(passphrase: Option<String>) -> (secret: Option<String>)
    ensures
        match passphrase {
            Some(p) => if p@.len() == 0 {
                secret is None
            } else {
                secret == Some(p)
            },
            None => secret is None,
        },
{
    match passphrase {
        Some(p) => {
            if p.as_str().is_empty() {
                None
            } else {
                Some(p)
            }
        },
        None => None,
    }
}

} // verus!
