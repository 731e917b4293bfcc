//! The Shape Up data model: lint severities, issues, reports and their
//! summary, the bet scaffold and the constants the commands share.
use vstd::prelude::*;

use crate::slug::{slugify, slugify_bet_name};
use crate::text::{append_joined, contains_seq, join, lemma_join_item, starts_with};

verus! {

/// File names of bet specs start with this prefix.
pub const SHAPEUP_TASK_PREFIX: &'static str = "shapeup-bet-";

/// Exit code of `shapeup lint` when a bet spec fails.
pub const SHAPEUP_LINT_FAILED_EXIT_CODE: u8 = 14;

/// The `type:` line of every bet spec.
pub const BET_SCHEMA_TYPE: &'static str = "codexctl-bet/v1";

#[derive(Debug, Clone, Copy, PartialEq, Eq, Structural)]
pub enum LintSeverity {
    Warning,
    Error,
}

#[derive(Debug, Clone, Copy, PartialEq, Eq, Structural)]
pub enum LintStatus {
    Passed,
    Warnings,
    Failed,
}

#[derive(Debug, Clone, PartialEq, Eq)]
pub struct LintIssue {
    pub severity: LintSeverity,
    pub code: String,
    pub field: Option<String>,
    pub message: String,
}

#[derive(Debug, Clone, PartialEq, Eq)]
pub struct LintReport {
    pub path: String,
    pub task_name: Option<String>,
    pub status: LintStatus,
    pub issues: Vec<LintIssue>,
}

#[derive(Debug, Clone, Copy, PartialEq, Eq, Structural)]
pub struct LintSummary {
    pub total_files: usize,
    pub passed: usize,
    pub warnings: usize,
    pub failed: usize,
    pub issue_count: usize,
}

/// The mathematical value of a `LintIssue`.
pub struct IssueView {
    pub severity: LintSeverity,
    pub code: Seq<char>,
    pub field: Option<Seq<char>>,
    pub message: Seq<char>,
}

/// The mathematical value of a `LintReport`.
pub struct ReportView {
    pub path: Seq<char>,
    pub task_name: Option<Seq<char>>,
    pub status: LintStatus,
    pub issues: Seq<IssueView>,
}

pub open spec fn opt_view(o: Option<String>) -> Option<Seq<char>> {
    match o {
        Some(s) => Some(s@),
        None => None,
    }
}

impl View for LintIssue {
    type V = IssueView;

    open spec fn view(&self) -> IssueView {
        IssueView {
            severity: self.severity,
            code: self.code@,
            field: opt_view(self.field),
            message: self.message@,
        }
    }
}

impl View for LintReport {
    type V = ReportView;

    open spec fn view(&self) -> ReportView {
        ReportView {
            path: self.path@,
            task_name: opt_view(self.task_name),
            status: self.status,
            issues: self.issues@.map_values(|i: LintIssue| i@),
        }
    }
}

/// Some issue is an error.
pub open spec fn has_error(issues: Seq<IssueView>) -> bool {
    exists|i: int| 0 <= i < issues.len() && (#[trigger] issues[i]).severity == LintSeverity::Error
}

/// The status that a list of issues earns: failed on any error, passed on
/// none at all, warnings otherwise.
pub open spec fn status_of(issues: Seq<IssueView>) -> LintStatus {
    if has_error(issues) {
        LintStatus::Failed
    } else if issues.len() == 0 {
        LintStatus::Passed
    } else {
        LintStatus::Warnings
    }
}

/// The status that a list of issues earns.
pub fn lint_status(issues: &Vec<LintIssue>) -> (status: LintStatus)
    ensures
        status == status_of(issues@.map_values(|i: LintIssue| i@)),
{
    let ghost views = issues@.map_values(|i: LintIssue| i@);
    let mut k: usize = 0;
    while k < issues.len()
        invariant
            k <= issues.len(),
            views == issues@.map_values(|i: LintIssue| i@),
            forall|m: int| 0 <= m < k ==> (#[trigger] views[m]).severity != LintSeverity::Error,
        decreases issues.len() - k,
    {
        if issues[k].severity == LintSeverity::Error {
            assert(views[k as int].severity == LintSeverity::Error);
            return LintStatus::Failed;
        }
        k = k + 1;
    }
    if issues.len() == 0 {
        LintStatus::Passed
    } else {
        LintStatus::Warnings
    }
}

/// A report fails exactly when one of its issues is an error.
pub proof fn law_failed_iff_some_error(issues: Seq<IssueView>)
    ensures
        (status_of(issues) == LintStatus::Failed) <==> exists|i: int|
            0 <= i < issues.len() && (#[trigger] issues[i]).severity == LintSeverity::Error,
{
}

/// A report passes exactly when it has no issue at all.
pub proof fn law_passed_iff_no_issues(issues: Seq<IssueView>)
    ensures
        (status_of(issues) == LintStatus::Passed) <==> issues.len() == 0,
{
}

/// Number of reports with the given status.
pub open spec fn count_status(reports: Seq<ReportView>, status: LintStatus) -> nat
    decreases reports.len(),
{
    if reports.len() == 0 {
        0
    } else {
        count_status(reports.drop_last(), status) + if reports.last().status == status {
            1nat
        } else {
            0nat
        }
    }
}

/// Total number of issues over all reports.
pub open spec fn total_issues(reports: Seq<ReportView>) -> nat
    decreases reports.len(),
{
    if reports.len() == 0 {
        0
    } else {
        total_issues(reports.drop_last()) + reports.last().issues.len()
    }
}

pub open spec fn report_views(reports: Seq<LintReport>) -> Seq<ReportView> {
    reports.map_values(|r: LintReport| r@)
}

/// Counts the reports by status and adds up their issues.
pub fn summarize_reports(reports: &[LintReport]) -> (summary: LintSummary)
    requires
        total_issues(report_views(reports@)) <= usize::MAX,
    ensures
        summary.total_files == reports@.len(),
        summary.passed == count_status(report_views(reports@), LintStatus::Passed),
        summary.warnings == count_status(report_views(reports@), LintStatus::Warnings),
        summary.failed == count_status(report_views(reports@), LintStatus::Failed),
        summary.issue_count == total_issues(report_views(reports@)),
{
    let ghost views = report_views(reports@);
    let mut summary = LintSummary {
        total_files: reports.len(),
        passed: 0,
        warnings: 0,
        failed: 0,
        issue_count: 0,
    };
    let mut k: usize = 0;
    while k < reports.len()
        invariant
            k <= reports@.len(),
            views == report_views(reports@),
            total_issues(views) <= usize::MAX,
            summary.total_files == reports@.len(),
            summary.passed == count_status(views.subrange(0, k as int), LintStatus::Passed),
            summary.warnings == count_status(views.subrange(0, k as int), LintStatus::Warnings),
            summary.failed == count_status(views.subrange(0, k as int), LintStatus::Failed),
            summary.issue_count == total_issues(views.subrange(0, k as int)),
        decreases reports@.len() - k,
    {
        proof {
            let p = views.subrange(0, k + 1);
            assert(p.drop_last() =~= views.subrange(0, k as int));
            lemma_count_bounded(p, LintStatus::Passed);
            lemma_count_bounded(p, LintStatus::Warnings);
            lemma_count_bounded(p, LintStatus::Failed);
            lemma_total_issues_prefix(views, k + 1);
            assert(p.last() == reports@[k as int]@);
        }
        summary.issue_count = summary.issue_count + reports[k].issues.len();
        match reports[k].status {
            LintStatus::Passed => summary.passed = summary.passed + 1,
            LintStatus::Warnings => summary.warnings = summary.warnings + 1,
            LintStatus::Failed => summary.failed = summary.failed + 1,
        }
        k = k + 1;
    }
    assert(views.subrange(0, reports@.len() as int) =~= views);
    summary
}

proof fn lemma_count_bounded(reports: Seq<ReportView>, status: LintStatus)
    ensures
        count_status(reports, status) <= reports.len(),
    decreases reports.len(),
{
    if reports.len() > 0 {
        lemma_count_bounded(reports.drop_last(), status);
    }
}

proof fn lemma_total_issues_prefix(reports: Seq<ReportView>, n: int)
    requires
        0 <= n <= reports.len(),
    ensures
        total_issues(reports.subrange(0, n)) <= total_issues(reports),
    decreases reports.len() - n,
{
    if n < reports.len() {
        lemma_total_issues_prefix(reports, n + 1);
        assert(reports.subrange(0, n + 1).drop_last() =~= reports.subrange(0, n));
    } else {
        assert(reports.subrange(0, n) =~= reports);
    }
}

/// The partition law of the summary: every report is counted exactly once,
/// under passed, warnings or failed.
pub proof fn law_summary_partitions_reports(reports: Seq<ReportView>)
    ensures
        count_status(reports, LintStatus::Passed) + count_status(reports, LintStatus::Warnings)
            + count_status(reports, LintStatus::Failed) == reports.len(),
    decreases reports.len(),
{
    if reports.len() > 0 {
        law_summary_partitions_reports(reports.drop_last());
    }
}

/// A report counts as failed in the summary exactly when some report failed.
pub proof fn law_failed_count_positive_iff_some_failed(reports: Seq<ReportView>)
    ensures
        count_status(reports, LintStatus::Failed) > 0 <==> exists|i: int|
            0 <= i < reports.len() && (#[trigger] reports[i]).status == LintStatus::Failed,
    decreases reports.len(),
{
    if reports.len() > 0 {
        let r = reports.drop_last();
        law_failed_count_positive_iff_some_failed(r);
        if count_status(r, LintStatus::Failed) > 0 {
            let i = choose|i: int| 0 <= i < r.len() && (#[trigger] r[i]).status == LintStatus::Failed;
            assert(reports[i] == r[i]);
        }
        assert forall|i: int| 0 <= i < r.len() implies (#[trigger] reports[i]) == r[i] by {}
        let last = reports.len() - 1;
        assert(reports[last] == reports.last());
    }
}

/// A status is counted in the summary exactly when some report has it.
pub proof fn law_count_positive_iff_some_report(reports: Seq<ReportView>, status: LintStatus)
    ensures
        count_status(reports, status) > 0 <==> exists|i: int|
            0 <= i < reports.len() && (#[trigger] reports[i]).status == status,
    decreases reports.len(),
{
    if reports.len() > 0 {
        let r = reports.drop_last();
        law_count_positive_iff_some_report(r, status);
        if count_status(r, status) > 0 {
            let i = choose|i: int| 0 <= i < r.len() && (#[trigger] r[i]).status == status;
            assert(reports[i] == r[i]);
        }
        assert forall|i: int| 0 <= i < r.len() implies (#[trigger] reports[i]) == r[i] by {}
        let last = reports.len() - 1;
        assert(reports[last] == reports.last());
    }
}

proof fn lemma_count_concat(a: Seq<ReportView>, b: Seq<ReportView>, status: LintStatus)
    ensures
        count_status(a + b, status) == count_status(a, status) + count_status(b, status),
        total_issues(a + b) == total_issues(a) + total_issues(b),
    decreases b.len(),
{
    if b.len() == 0 {
        assert(a + b =~= a);
    } else {
        lemma_count_concat(a, b.drop_last(), status);
        assert((a + b).drop_last() =~= a + b.drop_last());
        assert((a + b).last() == b.last());
    }
}

/// The summary of two lists of reports put together is the sum, field by
/// field, of their summaries.
pub proof fn law_summary_of_concatenation(a: Seq<ReportView>, b: Seq<ReportView>)
    ensures
        forall|status: LintStatus|
            #[trigger] count_status(a + b, status) == count_status(a, status) + count_status(
                b,
                status,
            ),
        total_issues(a + b) == total_issues(a) + total_issues(b),
{
    lemma_count_concat(a, b, LintStatus::Passed);
    assert forall|status: LintStatus|
        #[trigger] count_status(a + b, status) == count_status(a, status) + count_status(b, status) by {
        lemma_count_concat(a, b, status);
    }
}

/// The summary of no reports is all zeros.
pub proof fn law_summary_of_no_reports()
    ensures
        forall|status: LintStatus| #[trigger] count_status(Seq::<ReportView>::empty(), status) == 0,
        total_issues(Seq::<ReportView>::empty()) == 0,
{
}

proof fn lemma_summary_without(s: Seq<ReportView>, j: int, status: LintStatus)
    requires
        0 <= j < s.len(),
    ensures
        count_status(s, status) == count_status(s.remove(j), status) + if s[j].status == status {
            1nat
        } else {
            0nat
        },
        total_issues(s) == total_issues(s.remove(j)) + s[j].issues.len(),
{
    let front = s.subrange(0, j);
    let mid = seq![s[j]];
    let back = s.subrange(j + 1, s.len() as int);
    assert(s =~= (front + mid) + back);
    assert(s.remove(j) =~= front + back);
    lemma_count_concat(front + mid, back, status);
    lemma_count_concat(front, mid, status);
    lemma_count_concat(front, back, status);
    assert(mid.drop_last() =~= Seq::<ReportView>::empty());
    assert(mid.last() == s[j]);
    assert(count_status(mid.drop_last(), status) == 0);
    assert(total_issues(mid.drop_last()) == 0);
    assert(count_status(mid, status) == if s[j].status == status {
        1nat
    } else {
        0nat
    });
    assert(total_issues(mid) == s[j].issues.len());
    assert(count_status(s, status) == count_status((front + mid) + back, status));
}

/// The summary does not depend on the order of the reports: two lists that
/// hold the same reports have the same summary.
pub proof fn law_summary_ignores_order(a: Seq<ReportView>, b: Seq<ReportView>)
    requires
        a.to_multiset() == b.to_multiset(),
    ensures
        forall|status: LintStatus| #[trigger] count_status(a, status) == count_status(b, status),
        total_issues(a) == total_issues(b),
    decreases a.len(),
{
    broadcast use vstd::seq_lib::group_to_multiset_ensures;

    if a.len() == 0 {
        assert(a.to_multiset().len() == 0);
        assert(b.to_multiset().len() == b.len());
        assert(b =~= Seq::<ReportView>::empty());
    } else {
        let x = a.last();
        let ra = a.drop_last();
        assert(a =~= ra.push(x));
        assert(a.to_multiset().count(x) > 0);
        assert(b.to_multiset().count(x) > 0);
        assert(b.contains(x));
        let j = choose|j: int| 0 <= j < b.len() && b[j] == x;
        let rb = b.remove(j);
        assert(rb.to_multiset() =~= b.to_multiset().remove(x));
        assert(ra.to_multiset() =~= a.to_multiset().remove(x));
        law_summary_ignores_order(ra, rb);
        lemma_summary_without(b, j, LintStatus::Passed);
        assert(a.remove(a.len() - 1) =~= ra);
        lemma_summary_without(a, a.len() - 1, LintStatus::Passed);
        assert forall|status: LintStatus| #[trigger] count_status(a, status) == count_status(b, status) by {
            lemma_summary_without(b, j, status);
            lemma_summary_without(a, a.len() - 1, status);
            assert(count_status(ra, status) == count_status(rb, status));
            assert(count_status(b, status) == count_status(rb, status) + if x.status == status {
                1nat
            } else {
                0nat
            });
        }
    }
}

/// The contexts that a new bet gets when none are given.
pub open spec fn default_contexts() -> Seq<Seq<char>> {
    seq!["Task Definition"@]
}

pub open spec fn string_views(v: Seq<String>) -> Seq<Seq<char>> {
    v.map_values(|s: String| s@)
}

/// The bounded contexts of a new bet when none are given.
pub fn default_bounded_contexts() -> (v: Vec<String>)
    ensures
        string_views(v@) == default_contexts(),
{
    let v = vec!["Task Definition".to_string()];
    assert(string_views(v@) =~= default_contexts());
    v
}

/// One `  - <context>` line for each bounded context, joined by newlines.
pub open spec fn context_lines(contexts: Seq<Seq<char>>) -> Seq<char> {
    join(contexts.map_values(|c: Seq<char>| "  - "@ + c), "\n"@)
}

/// The text of a new bet spec.
pub open spec fn scaffold_text(bet_name: Seq<char>, appetite: Seq<char>, contexts: Seq<Seq<char>>) -> Seq<char> {
    "type: "@ + BET_SCHEMA_TYPE@
    + "\nname: "@ + bet_name
    + "\nappetite: "@ + appetite
    + "\nobjective: Replace this with the shaped outcome for "@ + bet_name
    + "\nbounded_contexts:\n"@ + context_lines(contexts)
    + "\nsuccess_signal: Replace this with an operator-visible success signal\nno_gos:\n- Do not broaden scope beyond the stated appetite.\ncontext_files: []\nconstraints: []\nacceptance_checks:\n- echo 'replace with deterministic acceptance checks' >&2 && exit 1\nreview_checks: []\nnotes: |\nEdit the objective, success signal, bounded contexts, and checks before running this bet.\n"@
}

/// Every bounded context of a new bet appears in its scaffold as a list
/// item of its own: a line that is exactly `  - <context>`.
pub proof fn law_scaffold_lists_each_context(
    bet_name: Seq<char>,
    appetite: Seq<char>,
    contexts: Seq<Seq<char>>,
    i: int,
)
    requires
        0 <= i < contexts.len(),
    ensures
        contains_seq(
            scaffold_text(bet_name, appetite, contexts),
            seq!['\n'] + "  - "@ + contexts[i] + seq!['\n'],
        ),
{
    reveal_strlit("\n");
    reveal_strlit("\nbounded_contexts:\n");
    reveal_strlit("\nsuccess_signal: Replace this with an operator-visible success signal\nno_gos:\n- Do not broaden scope beyond the stated appetite.\ncontext_files: []\nconstraints: []\nacceptance_checks:\n- echo 'replace with deterministic acceptance checks' >&2 && exit 1\nreview_checks: []\nnotes: |\nEdit the objective, success signal, bounded contexts, and checks before running this bet.\n");
    let head = "type: "@ + BET_SCHEMA_TYPE@ + "\nname: "@ + bet_name + "\nappetite: "@ + appetite
        + "\nobjective: Replace this with the shaped outcome for "@ + bet_name
        + "\nbounded_contexts:\n"@;
    let tail = "\nsuccess_signal: Replace this with an operator-visible success signal\nno_gos:\n- Do not broaden scope beyond the stated appetite.\ncontext_files: []\nconstraints: []\nacceptance_checks:\n- echo 'replace with deterministic acceptance checks' >&2 && exit 1\nreview_checks: []\nnotes: |\nEdit the objective, success signal, bounded contexts, and checks before running this bet.\n"@;
    let lines = contexts.map_values(|c: Seq<char>| "  - "@ + c);
    let line = lines[i];
    assert(line == "  - "@ + contexts[i]);
    let (pre, post) = lemma_join_item(lines, "\n"@, i);
    let text = scaffold_text(bet_name, appetite, contexts);
    assert(text =~= head + (pre + line + post) + tail);
    let w = seq!['\n'] + "  - "@ + contexts[i] + seq!['\n'];
    let k = head.len() + pre.len() - 1;
    assert(head.last() == '\n');
    assert(tail[0] == '\n');
    assert(text[k] == '\n') by {
        if i == 0 {
            assert(text[k] == head[head.len() - 1]);
        } else {
            assert(pre[pre.len() - 1] == pre.subrange(pre.len() - 1, pre.len() as int)[0]);
            assert(text[k] == pre[pre.len() - 1]);
        }
    }
    let e: int = (head.len() + pre.len() + line.len()) as int;
    assert(text[e] == '\n') by {
        if i == contexts.len() - 1 {
            assert(text[e] == tail[0]);
        } else {
            assert(post[0] == post.subrange(0, 1)[0]);
            assert(text[e] == post[0]);
        }
    }
    assert forall|m: int| 0 <= m < line.len() implies text[k + 1 + m] == #[trigger] line[m] by {
        assert(text[k + 1 + m] == (pre + line + post)[pre.len() + m]);
    }
    assert(text.subrange(k, k + w.len()) =~= w);
}

/// A scaffold opens with its schema type, then the bet's name, then its
/// appetite, one line each.
pub proof fn law_scaffold_opens_with_type_name_and_appetite(
    bet_name: Seq<char>,
    appetite: Seq<char>,
    contexts: Seq<Seq<char>>,
)
    ensures
        starts_with(
            scaffold_text(bet_name, appetite, contexts),
            "type: "@ + BET_SCHEMA_TYPE@ + seq!['\n'] + "name: "@ + bet_name + seq!['\n']
                + "appetite: "@ + appetite + seq!['\n'],
        ),
{
    reveal_strlit("\nname: ");
    reveal_strlit("name: ");
    reveal_strlit("\nappetite: ");
    reveal_strlit("appetite: ");
    reveal_strlit("\nobjective: Replace this with the shaped outcome for ");
    let p = "type: "@ + BET_SCHEMA_TYPE@ + seq!['\n'] + "name: "@ + bet_name + seq!['\n']
        + "appetite: "@ + appetite + seq!['\n'];
    assert("\nname: "@ =~= seq!['\n'] + "name: "@);
    assert("\nappetite: "@ =~= seq!['\n'] + "appetite: "@);
    let rest = "\nobjective: Replace this with the shaped outcome for "@.subrange(1, "\nobjective: Replace this with the shaped outcome for "@.len() as int) + bet_name
        + "\nbounded_contexts:\n"@ + context_lines(contexts)
        + "\nsuccess_signal: Replace this with an operator-visible success signal\nno_gos:\n- Do not broaden scope beyond the stated appetite.\ncontext_files: []\nconstraints: []\nacceptance_checks:\n- echo 'replace with deterministic acceptance checks' >&2 && exit 1\nreview_checks: []\nnotes: |\nEdit the objective, success signal, bounded contexts, and checks before running this bet.\n"@;
    assert("\nobjective: Replace this with the shaped outcome for "@ =~= seq!['\n'] + "\nobjective: Replace this with the shaped outcome for "@.subrange(1, "\nobjective: Replace this with the shaped outcome for "@.len() as int));
    let text = scaffold_text(bet_name, appetite, contexts);
    assert(text =~= p + rest);
    assert(text.subrange(0, p.len() as int) =~= p);
}

/// Renders the spec file of a new bet.
pub fn render_bet_scaffold(raw_name: &str, appetite: &str, bounded_contexts: &[String]) -> (text: String)
    ensures
        text@ == scaffold_text(slugify(raw_name@), appetite@, string_views(bounded_contexts@)),
{
    let bet_name = slugify_bet_name(raw_name);
    let ghost contexts = string_views(bounded_contexts@);
    let mut lines: Vec<String> = Vec::new();
    let mut k: usize = 0;
    while k < bounded_contexts.len()
        invariant
            k <= bounded_contexts@.len(),
            contexts == string_views(bounded_contexts@),
            string_views(lines@) == contexts.subrange(0, k as int).map_values(|c: Seq<char>| "  - "@ + c),
        decreases bounded_contexts@.len() - k,
    {
        let mut line = String::new();
        line.append("  - ");
        line.append(bounded_contexts[k].as_str());
        assert(line@ =~= "  - "@ + contexts[k as int]);
        let ghost before = lines@;
        lines.push(line);
        k = k + 1;
        assert(string_views(lines@) =~= string_views(before).push("  - "@ + contexts[k - 1]));
        assert(string_views(lines@) =~= contexts.subrange(0, k as int).map_values(|c: Seq<char>| "  - "@ + c));
    }
    assert(contexts.subrange(0, bounded_contexts@.len() as int) =~= contexts);
    let mut text = String::new();
    text.append("type: ");
    text.append(BET_SCHEMA_TYPE);
    text.append("\nname: ");
    text.append(bet_name.as_str());
    text.append("\nappetite: ");
    text.append(appetite);
    text.append("\nobjective: Replace this with the shaped outcome for ");
    text.append(bet_name.as_str());
    text.append("\nbounded_contexts:\n");
    append_joined(&mut text, &lines, "\n");
    text.append("\nsuccess_signal: Replace this with an operator-visible success signal\nno_gos:\n- Do not broaden scope beyond the stated appetite.\ncontext_files: []\nconstraints: []\nacceptance_checks:\n- echo 'replace with deterministic acceptance checks' >&2 && exit 1\nreview_checks: []\nnotes: |\nEdit the objective, success signal, bounded contexts, and checks before running this bet.\n");
    assert(text@ =~= scaffold_text(slugify(raw_name@), appetite@, contexts));
    text
}

} // verus!
