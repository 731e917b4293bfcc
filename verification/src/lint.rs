//! The Shape Up lint: the rules that a bet spec must follow, the issues that
//! each broken rule raises, and the report of one task file.
use vstd::prelude::*;
use vstd::utf8::encode_utf8;

use crate::paths::{
    display_path, extension_of, file_extension, file_name_of, is_yaml_extension,
    is_yaml_extension_exec, law_file_extension, lemma_last_dot_index_from, path_file_name,
    relative_display,
    task_file_name,
};
use crate::shapeup::{
    has_error, lint_status, status_of, string_views, IssueView, LintIssue, LintReport,
    LintSeverity, LintStatus, ReportView, SHAPEUP_TASK_PREFIX,
};
use crate::text::{
    append_joined, ascii_lower_chars, ascii_lower_seq, chars_eq, chars_of, contains_chars,
    contains_seq, is_unicode_whitespace, join, ascii_lower, ascii_upper, ascii_upper_seq, starts_with, starts_with_chars, trim,
    trim_chars, trim_end, trim_start, TrimClass,
};

verus! {

/// The fields of a bet spec that the lint reads.
pub struct BetSpec {
    pub name: String,
    pub bounded_contexts: Vec<String>,
    pub objective: String,
    pub success_signal: String,
    pub no_gos: Vec<String>,
    pub acceptance_checks: Vec<String>,
    pub review_checks: Vec<String>,
}

/// The mathematical value of a `BetSpec`.
pub struct BetSpecView {
    pub name: Seq<char>,
    pub bounded_contexts: Seq<Seq<char>>,
    pub objective: Seq<char>,
    pub success_signal: Seq<char>,
    pub no_gos: Seq<Seq<char>>,
    pub acceptance_checks: Seq<Seq<char>>,
    pub review_checks: Seq<Seq<char>>,
}

impl View for BetSpec {
    type V = BetSpecView;

    open spec fn view(&self) -> BetSpecView {
        BetSpecView {
            name: self.name@,
            bounded_contexts: string_views(self.bounded_contexts@),
            objective: self.objective@,
            success_signal: self.success_signal@,
            no_gos: string_views(self.no_gos@),
            acceptance_checks: string_views(self.acceptance_checks@),
            review_checks: string_views(self.review_checks@),
        }
    }
}

/// Phrases that mark text as not yet written.
pub open spec fn placeholder_tokens() -> Seq<Seq<char>> {
    seq![
        "todo"@,
        "tbd"@,
        "replace me"@,
        "replace_this"@,
        "replace-with"@,
        "placeholder"@,
        "<fill"@,
        "your objective here"@,
        "your success signal here"@,
    ]
}

/// The bounded contexts that a bet may name.
pub open spec fn allowed_contexts() -> Seq<Seq<char>> {
    seq![
        "Profile Catalog"@,
        "Live Auth Projection"@,
        "Usage Intelligence"@,
        "Validation"@,
        "Task Definition"@,
        "Run Orchestration"@,
        "Run Ledger"@,
        "Release Engineering"@,
    ]
}

/// Text still holds placeholder language: once trimmed and lower-cased
/// (ASCII), it contains one of the placeholder phrases.
pub open spec fn has_placeholder(value: Seq<char>) -> bool {
    let normalized = ascii_lower_seq(trim(value, TrimClass::Whitespace));
    exists|k: int|
        0 <= k < placeholder_tokens().len() && contains_seq(
            normalized,
            #[trigger] placeholder_tokens()[k],
        )
}

/// Shortest objective or success signal, in UTF-8 bytes, that draws no warning.
pub open spec fn min_statement_len() -> nat {
    24
}

pub open spec fn issue(
    severity: LintSeverity,
    code: Seq<char>,
    field: Option<Seq<char>>,
    message: Seq<char>,
) -> IssueView {
    IssueView { severity, code, field, message }
}

/// The warning for a task file whose name breaks the convention.
pub open spec fn file_name_issue() -> IssueView {
    issue(
        LintSeverity::Warning,
        "file_name_convention"@,
        None,
        "Task files should use '"@ + SHAPEUP_TASK_PREFIX@ + "<name>.yaml' under .codexctl/tasks"@,
    )
}

/// The error for a task file that could not be loaded.
pub open spec fn spec_invalid_issue(error: Seq<char>) -> IssueView {
    issue(LintSeverity::Error, "spec_invalid"@, None, error)
}

pub open spec fn objective_issues(objective: Seq<char>) -> Seq<IssueView> {
    if has_placeholder(objective) {
        seq![
            issue(
                LintSeverity::Error,
                "objective_placeholder"@,
                Some("objective"@),
                "Objective still contains placeholder language"@,
            ),
        ]
    } else if encode_utf8(objective).len() < min_statement_len() {
        seq![
            issue(
                LintSeverity::Warning,
                "objective_too_short"@,
                Some("objective"@),
                "Objective is unusually short for a shaped bet"@,
            ),
        ]
    } else {
        Seq::empty()
    }
}

pub open spec fn success_signal_issues(signal: Seq<char>) -> Seq<IssueView> {
    if has_placeholder(signal) {
        seq![
            issue(
                LintSeverity::Error,
                "success_signal_placeholder"@,
                Some("success_signal"@),
                "Success signal still contains placeholder language"@,
            ),
        ]
    } else if encode_utf8(signal).len() < min_statement_len() {
        seq![
            issue(
                LintSeverity::Warning,
                "success_signal_too_short"@,
                Some("success_signal"@),
                "Success signal is unusually short for operator-facing validation"@,
            ),
        ]
    } else {
        Seq::empty()
    }
}

/// The lists of a bet spec whose items are checked one by one.
#[derive(Clone, Copy, Debug, PartialEq, Eq, Structural)]
pub enum ItemKind {
    BoundedContext,
    NoGo,
    AcceptanceCheck,
    ReviewCheck,
}

/// Acceptance checks that prove nothing.
pub open spec fn is_weak_check(check: Seq<char>) -> bool {
    let t = trim(check, TrimClass::Whitespace);
    t == "true"@ || t == ":"@ || t == "exit 0"@
}

/// The issue that one item of a list raises, if any.
pub open spec fn item_issue(kind: ItemKind, item: Seq<char>) -> Option<IssueView> {
    match kind {
        ItemKind::BoundedContext => if allowed_contexts().contains(item) {
            None
        } else {
            Some(
                issue(
                    LintSeverity::Error,
                    "unknown_bounded_context"@,
                    Some("bounded_contexts"@),
                    "Unknown bounded context '"@ + item + "'. Allowed values: "@ + join(
                        allowed_contexts(),
                        ", "@,
                    ),
                ),
            )
        },
        ItemKind::NoGo => if has_placeholder(item) {
            Some(
                issue(
                    LintSeverity::Error,
                    "no_go_placeholder"@,
                    Some("no_gos"@),
                    "A no-go entry still contains placeholder language"@,
                ),
            )
        } else if !starts_with(item, "Do not "@) {
            Some(
                issue(
                    LintSeverity::Warning,
                    "no_go_style"@,
                    Some("no_gos"@),
                    "No-go should usually start with 'Do not': "@ + item,
                ),
            )
        } else {
            None
        },
        ItemKind::AcceptanceCheck => if has_placeholder(item) {
            Some(
                issue(
                    LintSeverity::Error,
                    "acceptance_check_placeholder"@,
                    Some("acceptance_checks"@),
                    "Acceptance checks still contain placeholder language"@,
                ),
            )
        } else if is_weak_check(item) {
            Some(
                issue(
                    LintSeverity::Warning,
                    "acceptance_check_weak"@,
                    Some("acceptance_checks"@),
                    "Acceptance check is too weak to prove success: "@ + item,
                ),
            )
        } else {
            None
        },
        ItemKind::ReviewCheck => if has_placeholder(item) {
            Some(
                issue(
                    LintSeverity::Error,
                    "review_check_placeholder"@,
                    Some("review_checks"@),
                    "Review checks still contain placeholder language"@,
                ),
            )
        } else {
            None
        },
    }
}

/// The issues that the items of a list raise, in order.
pub open spec fn item_issues(kind: ItemKind, items: Seq<Seq<char>>) -> Seq<IssueView>
    decreases items.len(),
{
    if items.len() == 0 {
        Seq::empty()
    } else {
        let rest = item_issues(kind, items.drop_last());
        match item_issue(kind, items.last()) {
            Some(i) => rest.push(i),
            None => rest,
        }
    }
}

/// The issues of a loaded bet spec, in the order the lint raises them.
pub open spec fn spec_issues(spec: BetSpecView) -> Seq<IssueView> {
    item_issues(ItemKind::BoundedContext, spec.bounded_contexts) + objective_issues(spec.objective)
        + success_signal_issues(spec.success_signal) + item_issues(ItemKind::NoGo, spec.no_gos)
        + item_issues(ItemKind::AcceptanceCheck, spec.acceptance_checks) + item_issues(
        ItemKind::ReviewCheck,
        spec.review_checks,
    )
}

/// A task file name that follows the convention `shapeup-bet-<name>.yaml`
/// (or `.yml`).
pub open spec fn follows_file_name_convention(file_name: Seq<char>) -> bool {
    starts_with(file_name, SHAPEUP_TASK_PREFIX@) && is_yaml_extension(file_extension(file_name))
}

pub open spec fn loaded_view(loaded: Result<BetSpec, String>) -> Result<BetSpecView, Seq<char>> {
    match loaded {
        Ok(s) => Ok(s@),
        Err(e) => Err(e@),
    }
}

/// The report on one task file, from the path shown to the user, the file's
/// name and the outcome of loading its spec.
pub open spec fn lint_report(
    path: Seq<char>,
    file_name: Seq<char>,
    loaded: Result<BetSpecView, Seq<char>>,
) -> ReportView {
    let head = if follows_file_name_convention(file_name) {
        Seq::<IssueView>::empty()
    } else {
        seq![file_name_issue()]
    };
    match loaded {
        Err(error) => ReportView {
            path,
            task_name: None,
            status: LintStatus::Failed,
            issues: head.push(spec_invalid_issue(error)),
        },
        Ok(spec) => {
            let issues = head + spec_issues(spec);
            ReportView { path, task_name: Some(spec.name), status: status_of(issues), issues }
        },
    }
}

/// The placeholder phrases, in order.
pub fn placeholder_token_list() -> (tokens: Vec<String>)
    ensures
        string_views(tokens@) == placeholder_tokens(),
{
    let tokens = vec![
        "todo".to_string(),
        "tbd".to_string(),
        "replace me".to_string(),
        "replace_this".to_string(),
        "replace-with".to_string(),
        "placeholder".to_string(),
        "<fill".to_string(),
        "your objective here".to_string(),
        "your success signal here".to_string(),
    ];
    assert(string_views(tokens@) =~= placeholder_tokens());
    tokens
}

/// The bounded contexts that a bet may name, in order.
pub fn allowed_bounded_contexts() -> (contexts: Vec<String>)
    ensures
        string_views(contexts@) == allowed_contexts(),
{
    let contexts = vec![
        "Profile Catalog".to_string(),
        "Live Auth Projection".to_string(),
        "Usage Intelligence".to_string(),
        "Validation".to_string(),
        "Task Definition".to_string(),
        "Run Orchestration".to_string(),
        "Run Ledger".to_string(),
        "Release Engineering".to_string(),
    ];
    assert(string_views(contexts@) =~= allowed_contexts());
    contexts
}

/// Whether text still holds placeholder language.
pub fn contains_placeholder(value: &str) -> (found: bool)
    ensures
        found == has_placeholder(value@),
{
    let chars = chars_of(value);
    let trimmed = trim_chars(&chars, TrimClass::Whitespace);
    let normalized = ascii_lower_chars(&trimmed);
    let tokens = placeholder_token_list();
    let mut k: usize = 0;
    while k < tokens.len()
        invariant
            k <= tokens.len(),
            string_views(tokens@) == placeholder_tokens(),
            normalized@ == ascii_lower_seq(trim(value@, TrimClass::Whitespace)),
            forall|m: int|
                0 <= m < k ==> !contains_seq(normalized@, #[trigger] placeholder_tokens()[m]),
        decreases tokens.len() - k,
    {
        let token = chars_of(tokens[k].as_str());
        assert(token@ == placeholder_tokens()[k as int]);
        if contains_chars(&normalized, &token) {
            return true;
        }
        k = k + 1;
    }
    false
}

/// Whether `item` is one of `list`.
fn string_in(list: &Vec<String>, item: &String) -> (found: bool)
    ensures
        found == string_views(list@).contains(item@),
{
    let ghost views = string_views(list@);
    let mut k: usize = 0;
    while k < list.len()
        invariant
            k <= list.len(),
            views == string_views(list@),
            forall|m: int| 0 <= m < k ==> #[trigger] views[m] != item@,
        decreases list.len() - k,
    {
        if list[k] == *item {
            assert(views[k as int] == item@);
            return true;
        }
        k = k + 1;
    }
    false
}

fn make_issue(severity: LintSeverity, code: &str, field: Option<&str>, message: String) -> (i: LintIssue)
    ensures
        i@ == issue(
            severity,
            code@,
            match field {
                Some(f) => Some(f@),
                None => None,
            },
            message@,
        ),
{
    LintIssue {
        severity,
        code: code.to_string(),
        field: match field {
            Some(f) => Some(f.to_string()),
            None => None,
        },
        message,
    }
}

pub open spec fn opt_issue_view(i: Option<LintIssue>) -> Option<IssueView> {
    match i {
        Some(i) => Some(i@),
        None => None,
    }
}

/// Whether the trimmed check is one of the weak ones.
fn is_weak_check_exec(check: &String) -> (weak: bool)
    ensures
        weak == is_weak_check(check@),
{
    let t = trim_chars(&chars_of(check.as_str()), TrimClass::Whitespace);
    chars_eq(&t, &chars_of("true")) || chars_eq(&t, &chars_of(":")) || chars_eq(&t, &chars_of("exit 0"))
}

/// The issue that one item of a list raises, if any.
fn check_item(kind: ItemKind, item: &String) -> (found: Option<LintIssue>)
    ensures
        opt_issue_view(found) == item_issue(kind, item@),
{
    match kind {
        ItemKind::BoundedContext => {
            let allowed = allowed_bounded_contexts();
            if string_in(&allowed, item) {
                None
            } else {
                let mut message = String::new();
                message.append("Unknown bounded context '");
                message.append(item.as_str());
                message.append("'. Allowed values: ");
                append_joined(&mut message, &allowed, ", ");
                assert(message@ =~= "Unknown bounded context '"@ + item@ + "'. Allowed values: "@
                    + join(allowed_contexts(), ", "@));
                Some(make_issue(LintSeverity::Error, "unknown_bounded_context", Some("bounded_contexts"), message))
            }
        },
        ItemKind::NoGo => {
            if contains_placeholder(item.as_str()) {
                Some(make_issue(LintSeverity::Error, "no_go_placeholder", Some("no_gos"),
                    "A no-go entry still contains placeholder language".to_string()))
            } else if !starts_with_chars(&chars_of(item.as_str()), &chars_of("Do not ")) {
                let mut message = String::new();
                message.append("No-go should usually start with 'Do not': ");
                message.append(item.as_str());
                assert(message@ =~= "No-go should usually start with 'Do not': "@ + item@);
                Some(make_issue(LintSeverity::Warning, "no_go_style", Some("no_gos"), message))
            } else {
                None
            }
        },
        ItemKind::AcceptanceCheck => {
            if contains_placeholder(item.as_str()) {
                Some(make_issue(LintSeverity::Error, "acceptance_check_placeholder", Some("acceptance_checks"),
                    "Acceptance checks still contain placeholder language".to_string()))
            } else if is_weak_check_exec(item) {
                let mut message = String::new();
                message.append("Acceptance check is too weak to prove success: ");
                message.append(item.as_str());
                assert(message@ =~= "Acceptance check is too weak to prove success: "@ + item@);
                Some(make_issue(LintSeverity::Warning, "acceptance_check_weak", Some("acceptance_checks"), message))
            } else {
                None
            }
        },
        ItemKind::ReviewCheck => {
            if contains_placeholder(item.as_str()) {
                Some(make_issue(LintSeverity::Error, "review_check_placeholder", Some("review_checks"),
                    "Review checks still contain placeholder language".to_string()))
            } else {
                None
            }
        },
    }
}

pub open spec fn issue_views(issues: Seq<LintIssue>) -> Seq<IssueView> {
    issues.map_values(|i: LintIssue| i@)
}

/// Appends the issues that the items of a list raise.
fn check_items(issues: &mut Vec<LintIssue>, kind: ItemKind, items: &Vec<String>)
    ensures
        issue_views(final(issues)@) == issue_views(old(issues)@) + item_issues(kind, string_views(items@)),
{
    let ghost start = issue_views(issues@);
    let ghost views = string_views(items@);
    let mut k: usize = 0;
    assert(views.subrange(0, 0) =~= Seq::<Seq<char>>::empty());
    assert(issue_views(issues@) =~= start + Seq::<IssueView>::empty());
    while k < items.len()
        invariant
            k <= items.len(),
            views == string_views(items@),
            issue_views(issues@) == start + item_issues(kind, views.subrange(0, k as int)),
        decreases items.len() - k,
    {
        let found = check_item(kind, &items[k]);
        let ghost before = issue_views(issues@);
        proof {
            let p = views.subrange(0, k + 1);
            assert(p.drop_last() =~= views.subrange(0, k as int));
            assert(p.last() == items@[k as int]@);
        }
        match found {
            Some(i) => {
                issues.push(i);
                assert(issue_views(issues@) =~= before.push(i@));
            },
            None => {},
        }
        k = k + 1;
    }
    assert(views.subrange(0, items.len() as int) =~= views);
}

/// Appends the issues of an objective or a success signal.
fn check_statement(issues: &mut Vec<LintIssue>, value: &String, is_objective: bool)
    ensures
        issue_views(final(issues)@) == issue_views(old(issues)@) + if is_objective {
            objective_issues(value@)
        } else {
            success_signal_issues(value@)
        },
{
    let ghost before = issue_views(issues@);
    if contains_placeholder(value.as_str()) {
        let i = if is_objective {
            make_issue(LintSeverity::Error, "objective_placeholder", Some("objective"),
                "Objective still contains placeholder language".to_string())
        } else {
            make_issue(LintSeverity::Error, "success_signal_placeholder", Some("success_signal"),
                "Success signal still contains placeholder language".to_string())
        };
        issues.push(i);
        assert(issue_views(issues@) =~= before + seq![i@]);
    } else if value.as_str().as_bytes().len() < 24 {
        let i = if is_objective {
            make_issue(LintSeverity::Warning, "objective_too_short", Some("objective"),
                "Objective is unusually short for a shaped bet".to_string())
        } else {
            make_issue(LintSeverity::Warning, "success_signal_too_short", Some("success_signal"),
                "Success signal is unusually short for operator-facing validation".to_string())
        };
        issues.push(i);
        assert(issue_views(issues@) =~= before + seq![i@]);
    } else {
        assert(issue_views(issues@) =~= before + Seq::<IssueView>::empty());
    }
}

/// Whether a task file name follows the convention.
pub fn follows_file_name_convention_exec(file_name: &str) -> (ok: bool)
    ensures
        ok == follows_file_name_convention(file_name@),
{
    let ext = extension_of(file_name);
    starts_with_chars(&chars_of(file_name), &chars_of(SHAPEUP_TASK_PREFIX)) && is_yaml_extension_exec(&ext)
}

/// Lints one task file, given the path to show, the file's name and the
/// outcome of loading its spec.
pub fn lint_loaded_spec(display: String, file_name: &str, loaded: Result<BetSpec, String>) -> (report: LintReport)
    ensures
        report@ == lint_report(display@, file_name@, loaded_view(loaded)),
{
    let mut issues: Vec<LintIssue> = Vec::new();
    if !follows_file_name_convention_exec(file_name) {
        let mut message = String::new();
        message.append("Task files should use '");
        message.append(SHAPEUP_TASK_PREFIX);
        message.append("<name>.yaml' under .codexctl/tasks");
        issues.push(make_issue(LintSeverity::Warning, "file_name_convention", None, message));
        assert(issue_views(issues@) =~= seq![file_name_issue()]);
    } else {
        assert(issue_views(issues@) =~= Seq::<IssueView>::empty());
    }
    let ghost head = issue_views(issues@);
    match loaded {
        Err(error) => {
            let ghost e = error@;
            issues.push(make_issue(LintSeverity::Error, "spec_invalid", None, error));
            assert(issue_views(issues@) =~= head.push(spec_invalid_issue(e)));
            LintReport { path: display, task_name: None, status: LintStatus::Failed, issues }
        },
        Ok(spec) => {
            let ghost sv = spec@;
            check_items(&mut issues, ItemKind::BoundedContext, &spec.bounded_contexts);
            check_statement(&mut issues, &spec.objective, true);
            check_statement(&mut issues, &spec.success_signal, false);
            check_items(&mut issues, ItemKind::NoGo, &spec.no_gos);
            check_items(&mut issues, ItemKind::AcceptanceCheck, &spec.acceptance_checks);
            check_items(&mut issues, ItemKind::ReviewCheck, &spec.review_checks);
            assert(issue_views(issues@) =~= head + spec_issues(sv));
            let status = lint_status(&issues);
            LintReport { path: display, task_name: Some(spec.name), status, issues }
        },
    }
}

pub open spec fn name_or_empty(name: Option<Seq<char>>) -> Seq<char> {
    match name {
        Some(n) => n,
        None => Seq::empty(),
    }
}

/// Lints one task file of a repository, given the outcome of loading its
/// spec (the spec itself, or the text of the error that loading gave).
pub fn lint_task_file(repo_root: &str, task_path: &str, loaded: Result<BetSpec, String>) -> (report: LintReport)
    ensures
        report@ == lint_report(
            display_path(repo_root@, task_path@),
            name_or_empty(path_file_name(task_path@)),
            loaded_view(loaded),
        ),
{
    let display = relative_display(repo_root, task_path);
    let file_name = match file_name_of(task_path) {
        Some(name) => name,
        None => String::new(),
    };
    lint_loaded_spec(display, file_name.as_str(), loaded)
}

/// Every item that raises an issue contributes it to the list's issues.
proof fn lemma_item_issue_listed(kind: ItemKind, items: Seq<Seq<char>>, i: int)
    requires
        0 <= i < items.len(),
        item_issue(kind, items[i]) is Some,
    ensures
        item_issues(kind, items).contains(item_issue(kind, items[i])->0),
    decreases items.len(),
{
    let rest = items.drop_last();
    if i < items.len() - 1 {
        assert(rest[i] == items[i]);
        lemma_item_issue_listed(kind, rest, i);
        let r = item_issues(kind, rest);
        let j = choose|j: int| 0 <= j < r.len() && r[j] == item_issue(kind, items[i])->0;
        match item_issue(kind, items.last()) {
            Some(x) => assert(r.push(x)[j] == r[j]),
            None => {},
        }
    } else {
        let r = item_issues(kind, rest);
        assert(r.push(item_issue(kind, items[i])->0)[r.len() as int] == item_issue(kind, items[i])->0);
    }
}

/// A bet that names a bounded context outside the allowed ones fails the
/// lint, whatever else it holds and whatever its file is called.
pub proof fn law_unknown_context_fails(path: Seq<char>, file_name: Seq<char>, spec: BetSpecView, i: int)
    requires
        0 <= i < spec.bounded_contexts.len(),
        !allowed_contexts().contains(spec.bounded_contexts[i]),
    ensures
        lint_report(path, file_name, Ok(spec)).status == LintStatus::Failed,
{
    let c = spec.bounded_contexts[i];
    lemma_item_issue_listed(ItemKind::BoundedContext, spec.bounded_contexts, i);
    let ctx = item_issues(ItemKind::BoundedContext, spec.bounded_contexts);
    let x = item_issue(ItemKind::BoundedContext, c)->0;
    let j = choose|j: int| 0 <= j < ctx.len() && ctx[j] == x;
    let head = if follows_file_name_convention(file_name) {
        Seq::<IssueView>::empty()
    } else {
        seq![file_name_issue()]
    };
    let issues = head + spec_issues(spec);
    assert(issues[head.len() + j] == x);
    assert(has_error(issues));
}

/// The issues of a report on a loaded spec: the file-name warning, if any,
/// then the spec's own issues.
proof fn lemma_report_issues(path: Seq<char>, file_name: Seq<char>, spec: BetSpecView) -> (head: Seq<IssueView>)
    ensures
        lint_report(path, file_name, Ok(spec)).issues == head + spec_issues(spec),
        lint_report(path, file_name, Ok(spec)).status == status_of(head + spec_issues(spec)),
{
    if follows_file_name_convention(file_name) {
        Seq::<IssueView>::empty()
    } else {
        seq![file_name_issue()]
    }
}

/// An objective or a success signal that still holds placeholder language
/// fails the lint, with an error on that field.
pub proof fn law_placeholder_statement_fails(path: Seq<char>, file_name: Seq<char>, spec: BetSpecView)
    requires
        has_placeholder(spec.objective) || has_placeholder(spec.success_signal),
    ensures
        lint_report(path, file_name, Ok(spec)).status == LintStatus::Failed,
        has_placeholder(spec.objective) ==> exists|k: int|
            0 <= k < lint_report(path, file_name, Ok(spec)).issues.len() && {
                let i = #[trigger] lint_report(path, file_name, Ok(spec)).issues[k];
                &&& i.severity == LintSeverity::Error
                &&& i.code == "objective_placeholder"@
                &&& i.field == Some("objective"@)
            },
        has_placeholder(spec.success_signal) ==> exists|k: int|
            0 <= k < lint_report(path, file_name, Ok(spec)).issues.len() && {
                let i = #[trigger] lint_report(path, file_name, Ok(spec)).issues[k];
                &&& i.severity == LintSeverity::Error
                &&& i.code == "success_signal_placeholder"@
                &&& i.field == Some("success_signal"@)
            },
{
    let head = lemma_report_issues(path, file_name, spec);
    let issues = head + spec_issues(spec);
    let ctx = item_issues(ItemKind::BoundedContext, spec.bounded_contexts);
    let obj = objective_issues(spec.objective);
    let sig = success_signal_issues(spec.success_signal);
    if has_placeholder(spec.objective) {
        assert(issues[(head.len() + ctx.len()) as int] == obj[0]);
        assert(has_error(issues));
    }
    if has_placeholder(spec.success_signal) {
        assert(issues[(head.len() + ctx.len() + obj.len()) as int] == sig[0]);
        assert(has_error(issues));
    }
}

/// A no-go, acceptance check or review check that still holds placeholder
/// language fails the lint.
pub proof fn law_placeholder_item_fails(path: Seq<char>, file_name: Seq<char>, spec: BetSpecView, kind: ItemKind, i: int)
    requires
        kind != ItemKind::BoundedContext,
        0 <= i < (match kind {
            ItemKind::NoGo => spec.no_gos,
            ItemKind::AcceptanceCheck => spec.acceptance_checks,
            _ => spec.review_checks,
        }).len(),
        has_placeholder((match kind {
            ItemKind::NoGo => spec.no_gos,
            ItemKind::AcceptanceCheck => spec.acceptance_checks,
            _ => spec.review_checks,
        })[i]),
    ensures
        lint_report(path, file_name, Ok(spec)).status == LintStatus::Failed,
{
    let head = lemma_report_issues(path, file_name, spec);
    let issues = head + spec_issues(spec);
    let items = match kind {
        ItemKind::NoGo => spec.no_gos,
        ItemKind::AcceptanceCheck => spec.acceptance_checks,
        _ => spec.review_checks,
    };
    let x = item_issue(kind, items[i])->0;
    assert(x.severity == LintSeverity::Error);
    lemma_item_issue_listed(kind, items, i);
    let list = item_issues(kind, items);
    let j = choose|j: int| 0 <= j < list.len() && list[j] == x;
    let ctx = item_issues(ItemKind::BoundedContext, spec.bounded_contexts);
    let obj = objective_issues(spec.objective);
    let sig = success_signal_issues(spec.success_signal);
    let nogo = item_issues(ItemKind::NoGo, spec.no_gos);
    let acc = item_issues(ItemKind::AcceptanceCheck, spec.acceptance_checks);
    let before: int = (head.len() + ctx.len() + obj.len() + sig.len()) as int;
    match kind {
        ItemKind::NoGo => {
            assert(issues[before + j] == x);
        },
        ItemKind::AcceptanceCheck => {
            assert(issues[before + nogo.len() + j] == x);
        },
        _ => {
            assert(issues[before + nogo.len() + acc.len() + j] == x);
        },
    }
    assert(has_error(issues));
}

proof fn lemma_item_issues_empty(kind: ItemKind, items: Seq<Seq<char>>)
    requires
        forall|i: int| 0 <= i < items.len() ==> item_issue(kind, #[trigger] items[i]) is None,
    ensures
        item_issues(kind, items).len() == 0,
    decreases items.len(),
{
    if items.len() > 0 {
        let d = items.drop_last();
        assert forall|i: int| 0 <= i < d.len() implies item_issue(kind, #[trigger] d[i]) is None by {
            assert(d[i] == items[i]);
        }
        lemma_item_issues_empty(kind, d);
        assert(item_issue(kind, items[items.len() - 1]) is None);
    }
}

proof fn lemma_item_issues_warnings(kind: ItemKind, items: Seq<Seq<char>>)
    requires
        forall|i: int|
            0 <= i < items.len() ==> match item_issue(kind, #[trigger] items[i]) {
                Some(x) => x.severity == LintSeverity::Warning,
                None => true,
            },
    ensures
        forall|k: int|
            0 <= k < item_issues(kind, items).len() ==> (#[trigger] item_issues(kind, items)[k]).severity
                == LintSeverity::Warning,
    decreases items.len(),
{
    if items.len() > 0 {
        let d = items.drop_last();
        assert forall|i: int| 0 <= i < d.len() implies match item_issue(kind, #[trigger] d[i]) {
            Some(x) => x.severity == LintSeverity::Warning,
            None => true,
        } by {
            assert(d[i] == items[i]);
        }
        lemma_item_issues_warnings(kind, d);
        let last = items[items.len() - 1];
        assert(last == items.last());
        let r = item_issues(kind, d);
        match item_issue(kind, last) {
            Some(x) => {
                assert forall|k: int| 0 <= k < r.push(x).len() implies (#[trigger] r.push(x)[k]).severity
                    == LintSeverity::Warning by {
                    if k < r.len() {
                        assert(r.push(x)[k] == r[k]);
                    }
                }
            },
            None => {},
        }
    }
}

/// A bet spec that follows every rule passes the lint with no issue: a
/// conventional file name, only allowed bounded contexts, an objective and
/// a success signal of at least 24 bytes without placeholder language,
/// no-gos that start with `Do not `, acceptance checks that are neither
/// `true`, `:` nor `exit 0` once trimmed, and no placeholder anywhere.
pub proof fn law_clean_spec_passes(path: Seq<char>, file_name: Seq<char>, spec: BetSpecView)
    requires
        follows_file_name_convention(file_name),
        forall|i: int|
            0 <= i < spec.bounded_contexts.len() ==> allowed_contexts().contains(
                #[trigger] spec.bounded_contexts[i],
            ),
        !has_placeholder(spec.objective),
        encode_utf8(spec.objective).len() >= 24,
        !has_placeholder(spec.success_signal),
        encode_utf8(spec.success_signal).len() >= 24,
        forall|i: int|
            0 <= i < spec.no_gos.len() ==> !has_placeholder(#[trigger] spec.no_gos[i])
                && starts_with(spec.no_gos[i], "Do not "@),
        forall|i: int|
            0 <= i < spec.acceptance_checks.len() ==> {
                let t = trim(#[trigger] spec.acceptance_checks[i], TrimClass::Whitespace);
                &&& !has_placeholder(spec.acceptance_checks[i])
                &&& t != "true"@
                &&& t != ":"@
                &&& t != "exit 0"@
            },
        forall|i: int| 0 <= i < spec.review_checks.len() ==> !has_placeholder(#[trigger] spec.review_checks[i]),
    ensures
        lint_report(path, file_name, Ok(spec)).status == LintStatus::Passed,
        lint_report(path, file_name, Ok(spec)).issues.len() == 0,
        lint_report(path, file_name, Ok(spec)).task_name == Some(spec.name),
{
    lemma_item_issues_empty(ItemKind::BoundedContext, spec.bounded_contexts);
    lemma_item_issues_empty(ItemKind::NoGo, spec.no_gos);
    assert forall|i: int| 0 <= i < spec.acceptance_checks.len() implies item_issue(
        ItemKind::AcceptanceCheck,
        #[trigger] spec.acceptance_checks[i],
    ) is None by {
        assert(!is_weak_check(spec.acceptance_checks[i]));
    }
    lemma_item_issues_empty(ItemKind::AcceptanceCheck, spec.acceptance_checks);
    lemma_item_issues_empty(ItemKind::ReviewCheck, spec.review_checks);
    let head = lemma_report_issues(path, file_name, spec);
    assert(spec_issues(spec) =~= Seq::<IssueView>::empty());
    assert(head + spec_issues(spec) =~= Seq::<IssueView>::empty());
}

/// Only placeholder language and unknown bounded contexts fail a loaded
/// spec: without them every issue is a warning and the lint does not fail,
/// whatever the file name, lengths, no-go style or acceptance checks.
pub proof fn law_only_placeholders_and_unknown_contexts_fail(path: Seq<char>, file_name: Seq<char>, spec: BetSpecView)
    requires
        forall|i: int|
            0 <= i < spec.bounded_contexts.len() ==> allowed_contexts().contains(
                #[trigger] spec.bounded_contexts[i],
            ),
        !has_placeholder(spec.objective),
        !has_placeholder(spec.success_signal),
        forall|i: int| 0 <= i < spec.no_gos.len() ==> !has_placeholder(#[trigger] spec.no_gos[i]),
        forall|i: int|
            0 <= i < spec.acceptance_checks.len() ==> !has_placeholder(#[trigger] spec.acceptance_checks[i]),
        forall|i: int| 0 <= i < spec.review_checks.len() ==> !has_placeholder(#[trigger] spec.review_checks[i]),
    ensures
        forall|k: int|
            0 <= k < lint_report(path, file_name, Ok(spec)).issues.len() ==> (
            #[trigger] lint_report(path, file_name, Ok(spec)).issues[k]).severity == LintSeverity::Warning,
        lint_report(path, file_name, Ok(spec)).status != LintStatus::Failed,
{
    lemma_item_issues_empty(ItemKind::BoundedContext, spec.bounded_contexts);
    lemma_item_issues_empty(ItemKind::ReviewCheck, spec.review_checks);
    lemma_item_issues_warnings(ItemKind::NoGo, spec.no_gos);
    lemma_item_issues_warnings(ItemKind::AcceptanceCheck, spec.acceptance_checks);
    let head = lemma_report_issues(path, file_name, spec);
    let issues = head + spec_issues(spec);
    let ctx = item_issues(ItemKind::BoundedContext, spec.bounded_contexts);
    let obj = objective_issues(spec.objective);
    let sig = success_signal_issues(spec.success_signal);
    let nogo = item_issues(ItemKind::NoGo, spec.no_gos);
    let acc = item_issues(ItemKind::AcceptanceCheck, spec.acceptance_checks);
    let rev = item_issues(ItemKind::ReviewCheck, spec.review_checks);
    assert(issues =~= head + ctx + obj + sig + nogo + acc + rev);
    assert forall|k: int| 0 <= k < issues.len() implies (#[trigger] issues[k]).severity == LintSeverity::Warning by {
        let a = head.len() as int;
        let b = a + ctx.len() + obj.len() + sig.len();
        let c = b + nogo.len();
        if k < a {
            assert(issues[k] == head[k]);
        } else if k < b {
            if k < a + obj.len() {
                assert(issues[k] == obj[k - a]);
            } else {
                assert(issues[k] == sig[k - a - obj.len()]);
            }
        } else if k < c {
            assert(issues[k] == nogo[k - b]);
        } else {
            assert(issues[k] == acc[k - c]);
        }
    }
    assert(!has_error(issues));
}

/// An objective or success signal shorter than 24 bytes (UTF-8) and free of
/// placeholder language draws a warning on that field, not an error.
pub proof fn law_short_statement_warns(path: Seq<char>, file_name: Seq<char>, spec: BetSpecView)
    requires
        !has_placeholder(spec.objective),
        encode_utf8(spec.objective).len() < 24,
    ensures
        exists|k: int|
            0 <= k < lint_report(path, file_name, Ok(spec)).issues.len() && {
                let i = #[trigger] lint_report(path, file_name, Ok(spec)).issues[k];
                &&& i.severity == LintSeverity::Warning
                &&& i.code == "objective_too_short"@
                &&& i.field == Some("objective"@)
            },
{
    let head = lemma_report_issues(path, file_name, spec);
    let issues = head + spec_issues(spec);
    let ctx = item_issues(ItemKind::BoundedContext, spec.bounded_contexts);
    let obj = objective_issues(spec.objective);
    assert(issues[(head.len() + ctx.len()) as int] == obj[0]);
}

/// A success signal shorter than 24 bytes (UTF-8) and free of placeholder
/// language draws a warning on that field, not an error.
pub proof fn law_short_signal_warns(path: Seq<char>, file_name: Seq<char>, spec: BetSpecView)
    requires
        !has_placeholder(spec.success_signal),
        encode_utf8(spec.success_signal).len() < 24,
    ensures
        exists|k: int|
            0 <= k < lint_report(path, file_name, Ok(spec)).issues.len() && {
                let i = #[trigger] lint_report(path, file_name, Ok(spec)).issues[k];
                &&& i.severity == LintSeverity::Warning
                &&& i.code == "success_signal_too_short"@
                &&& i.field == Some("success_signal"@)
            },
{
    let head = lemma_report_issues(path, file_name, spec);
    let issues = head + spec_issues(spec);
    let ctx = item_issues(ItemKind::BoundedContext, spec.bounded_contexts);
    let obj = objective_issues(spec.objective);
    let sig = success_signal_issues(spec.success_signal);
    assert(issues[(head.len() + ctx.len() + obj.len()) as int] == sig[0]);
}

pub open spec fn item_list(spec: BetSpecView, kind: ItemKind) -> Seq<Seq<char>> {
    match kind {
        ItemKind::BoundedContext => spec.bounded_contexts,
        ItemKind::NoGo => spec.no_gos,
        ItemKind::AcceptanceCheck => spec.acceptance_checks,
        ItemKind::ReviewCheck => spec.review_checks,
    }
}

proof fn lemma_item_in_report(path: Seq<char>, file_name: Seq<char>, spec: BetSpecView, kind: ItemKind, i: int)
    requires
        0 <= i < item_list(spec, kind).len(),
        item_issue(kind, item_list(spec, kind)[i]) is Some,
    ensures
        lint_report(path, file_name, Ok(spec)).issues.contains(
            item_issue(kind, item_list(spec, kind)[i])->0,
        ),
{
    let head = lemma_report_issues(path, file_name, spec);
    let issues = head + spec_issues(spec);
    let items = item_list(spec, kind);
    let x = item_issue(kind, items[i])->0;
    lemma_item_issue_listed(kind, items, i);
    let list = item_issues(kind, items);
    let j = choose|j: int| 0 <= j < list.len() && list[j] == x;
    let ctx = item_issues(ItemKind::BoundedContext, spec.bounded_contexts);
    let obj = objective_issues(spec.objective);
    let sig = success_signal_issues(spec.success_signal);
    let nogo = item_issues(ItemKind::NoGo, spec.no_gos);
    let acc = item_issues(ItemKind::AcceptanceCheck, spec.acceptance_checks);
    let a: int = head.len() as int;
    let before: int = (head.len() + ctx.len() + obj.len() + sig.len()) as int;
    match kind {
        ItemKind::BoundedContext => {
            assert(issues[a + j] == x);
        },
        ItemKind::NoGo => {
            assert(issues[before + j] == x);
        },
        ItemKind::AcceptanceCheck => {
            assert(issues[before + nogo.len() + j] == x);
        },
        ItemKind::ReviewCheck => {
            assert(issues[before + nogo.len() + acc.len() + j] == x);
        },
    }
}

/// A no-go free of placeholder language that does not start with `Do not `
/// draws a style warning that quotes it.
pub proof fn law_no_go_style_warns(path: Seq<char>, file_name: Seq<char>, spec: BetSpecView, i: int)
    requires
        0 <= i < spec.no_gos.len(),
        !has_placeholder(spec.no_gos[i]),
        !starts_with(spec.no_gos[i], "Do not "@),
    ensures
        lint_report(path, file_name, Ok(spec)).issues.contains(
            IssueView {
                severity: LintSeverity::Warning,
                code: "no_go_style"@,
                field: Some("no_gos"@),
                message: "No-go should usually start with 'Do not': "@ + spec.no_gos[i],
            },
        ),
{
    lemma_item_in_report(path, file_name, spec, ItemKind::NoGo, i);
}

/// An acceptance check free of placeholder language that is `true`, `:` or
/// `exit 0` once trimmed draws a weak-check warning that quotes it.
pub proof fn law_weak_acceptance_check_warns(path: Seq<char>, file_name: Seq<char>, spec: BetSpecView, i: int)
    requires
        0 <= i < spec.acceptance_checks.len(),
        !has_placeholder(spec.acceptance_checks[i]),
        trim(spec.acceptance_checks[i], TrimClass::Whitespace) == "true"@ || trim(
            spec.acceptance_checks[i],
            TrimClass::Whitespace,
        ) == ":"@ || trim(spec.acceptance_checks[i], TrimClass::Whitespace) == "exit 0"@,
    ensures
        lint_report(path, file_name, Ok(spec)).issues.contains(
            IssueView {
                severity: LintSeverity::Warning,
                code: "acceptance_check_weak"@,
                field: Some("acceptance_checks"@),
                message: "Acceptance check is too weak to prove success: "@ + spec.acceptance_checks[i],
            },
        ),
{
    lemma_item_in_report(path, file_name, spec, ItemKind::AcceptanceCheck, i);
}

/// A task file whose name breaks the convention gets, first of all, a
/// warning that names the convention, whether or not its spec loads.
pub proof fn law_file_name_convention_warns(
    path: Seq<char>,
    file_name: Seq<char>,
    loaded: Result<BetSpecView, Seq<char>>,
)
    requires
        !follows_file_name_convention(file_name),
    ensures
        lint_report(path, file_name, loaded).issues.len() > 0,
        lint_report(path, file_name, loaded).issues[0] == (IssueView {
            severity: LintSeverity::Warning,
            code: "file_name_convention"@,
            field: None,
            message: "Task files should use '"@ + SHAPEUP_TASK_PREFIX@ + "<name>.yaml' under .codexctl/tasks"@,
        }),
{
    match loaded {
        Ok(spec) => {
            let head = lemma_report_issues(path, file_name, spec);
            assert((head + spec_issues(spec))[0] == head[0]);
        },
        Err(e) => {},
    }
}

/// A file name follows the convention exactly when it starts with
/// `shapeup-bet-` and ends in `.yaml` or `.yml` after a non-empty stem.
pub proof fn law_file_name_convention_by_extension(stem: Seq<char>, ext: Seq<char>)
    requires
        stem.len() > 0,
        !ext.contains('.'),
    ensures
        follows_file_name_convention(stem + seq!['.'] + ext) == (starts_with(
            stem + seq!['.'] + ext,
            SHAPEUP_TASK_PREFIX@,
        ) && (ext == "yaml"@ || ext == "yml"@)),
{
    law_file_extension(stem, ext);
}

/// A spec file that cannot be loaded always fails the lint, with no task
/// name and the loading error as its last issue.
pub proof fn law_unloadable_spec_fails(path: Seq<char>, file_name: Seq<char>, error: Seq<char>)
    ensures
        lint_report(path, file_name, Err(error)).status == LintStatus::Failed,
        lint_report(path, file_name, Err(error)).task_name is None,
        lint_report(path, file_name, Err(error)).issues.last() == spec_invalid_issue(error),
{
}

/// Spec files that `init-bet` names follow the lint's file-name
/// convention: `shapeup-bet-<slug>.yaml` never draws that warning.
pub proof fn law_scaffold_file_name_follows_convention(name: Seq<char>)
    ensures
        follows_file_name_convention(task_file_name(name)),
{
    reveal_strlit(".yaml");
    reveal_strlit("yaml");
    reveal_strlit("shapeup-bet-");
    let f = task_file_name(name);
    let n = f.len();
    assert(f.subrange(0, SHAPEUP_TASK_PREFIX@.len() as int) =~= SHAPEUP_TASK_PREFIX@);
    assert(f[n - 5] == '.');
    assert forall|k: int| n - 5 < k < n implies f[k] != '.' by {
        assert(f[k] == ".yaml"@[k - (n - 5)]);
    }
    lemma_last_dot_index_from(f, n - 5);
    assert(f.subrange(n - 4, n as int) =~= "yaml"@);
}

proof fn lemma_lower_keeps_whitespace(c: char)
    ensures
        is_unicode_whitespace(ascii_lower(c)) == is_unicode_whitespace(c),
        ascii_lower(ascii_lower(c)) == ascii_lower(c),
{
    if 'A' <= c && c <= 'Z' {
        let l = ascii_lower(c);
        assert((l as u32) == (c as u32) + 32);
        assert('a' <= l && l <= 'z');
    }
}

proof fn lemma_lower_trim_start(s: Seq<char>)
    ensures
        trim_start(ascii_lower_seq(s), TrimClass::Whitespace) == ascii_lower_seq(
            trim_start(s, TrimClass::Whitespace),
        ),
    decreases s.len(),
{
    let l = ascii_lower_seq(s);
    if s.len() > 0 {
        lemma_lower_keeps_whitespace(s[0]);
        assert(l[0] == ascii_lower(s[0]));
        if is_unicode_whitespace(s[0]) {
            assert(l.drop_first() =~= ascii_lower_seq(s.drop_first()));
            lemma_lower_trim_start(s.drop_first());
        }
    }
}

proof fn lemma_lower_trim_end(s: Seq<char>)
    ensures
        trim_end(ascii_lower_seq(s), TrimClass::Whitespace) == ascii_lower_seq(
            trim_end(s, TrimClass::Whitespace),
        ),
    decreases s.len(),
{
    let l = ascii_lower_seq(s);
    if s.len() > 0 {
        lemma_lower_keeps_whitespace(s.last());
        assert(l.last() == ascii_lower(s.last()));
        if is_unicode_whitespace(s.last()) {
            assert(l.drop_last() =~= ascii_lower_seq(s.drop_last()));
            lemma_lower_trim_end(s.drop_last());
        }
    }
}

proof fn lemma_upper_keeps_whitespace(c: char)
    ensures
        is_unicode_whitespace(ascii_upper(c)) == is_unicode_whitespace(c),
        ascii_lower(ascii_upper(c)) == ascii_lower(c),
{
    if 'a' <= c && c <= 'z' {
        let u = ascii_upper(c);
        assert((u as u32) == (c as u32) - 32);
        assert('A' <= u && u <= 'Z');
        assert((ascii_lower(u) as u32) == (c as u32));
    }
}

proof fn lemma_upper_trim_start(s: Seq<char>)
    ensures
        trim_start(ascii_upper_seq(s), TrimClass::Whitespace) == ascii_upper_seq(
            trim_start(s, TrimClass::Whitespace),
        ),
    decreases s.len(),
{
    let u = ascii_upper_seq(s);
    if s.len() > 0 {
        lemma_upper_keeps_whitespace(s[0]);
        assert(u[0] == ascii_upper(s[0]));
        if is_unicode_whitespace(s[0]) {
            assert(u.drop_first() =~= ascii_upper_seq(s.drop_first()));
            lemma_upper_trim_start(s.drop_first());
        }
    }
}

proof fn lemma_upper_trim_end(s: Seq<char>)
    ensures
        trim_end(ascii_upper_seq(s), TrimClass::Whitespace) == ascii_upper_seq(
            trim_end(s, TrimClass::Whitespace),
        ),
    decreases s.len(),
{
    let u = ascii_upper_seq(s);
    if s.len() > 0 {
        lemma_upper_keeps_whitespace(s.last());
        assert(u.last() == ascii_upper(s.last()));
        if is_unicode_whitespace(s.last()) {
            assert(u.drop_last() =~= ascii_upper_seq(s.drop_last()));
            lemma_upper_trim_end(s.drop_last());
        }
    }
}

/// Placeholder detection ignores ASCII case: text, its lower-cased form and
/// its upper-cased form hold placeholder language alike.
pub proof fn law_placeholder_ignores_ascii_case(value: Seq<char>)
    ensures
        has_placeholder(ascii_lower_seq(value)) == has_placeholder(value),
        has_placeholder(ascii_upper_seq(value)) == has_placeholder(value),
{
    let t = trim_start(value, TrimClass::Whitespace);
    let n = ascii_lower_seq(trim(value, TrimClass::Whitespace));
    lemma_lower_trim_start(value);
    lemma_lower_trim_end(t);
    assert forall|i: int| 0 <= i < n.len() implies ascii_lower(#[trigger] n[i]) == n[i] by {
        lemma_lower_keeps_whitespace(trim(value, TrimClass::Whitespace)[i]);
    }
    assert(ascii_lower_seq(n) =~= n);
    lemma_upper_trim_start(value);
    lemma_upper_trim_end(t);
    let w = trim(value, TrimClass::Whitespace);
    assert forall|i: int| 0 <= i < w.len() implies ascii_lower(
        #[trigger] ascii_upper_seq(w)[i],
    ) == ascii_lower(w[i]) by {
        lemma_upper_keeps_whitespace(w[i]);
    }
    assert(ascii_lower_seq(ascii_upper_seq(w)) =~= ascii_lower_seq(w));
}

pub open spec fn all_whitespace(s: Seq<char>) -> bool {
    forall|i: int| 0 <= i < s.len() ==> is_unicode_whitespace(#[trigger] s[i])
}

proof fn lemma_trim_start_skips_whitespace(p: Seq<char>, s: Seq<char>)
    requires
        all_whitespace(p),
    ensures
        trim_start(p + s, TrimClass::Whitespace) == trim_start(s, TrimClass::Whitespace),
    decreases p.len(),
{
    if p.len() == 0 {
        assert(p + s =~= s);
    } else {
        assert((p + s)[0] == p[0]);
        assert((p + s).drop_first() =~= p.drop_first() + s);
        assert forall|i: int| 0 <= i < p.drop_first().len() implies is_unicode_whitespace(
            #[trigger] p.drop_first()[i],
        ) by {
            assert(p.drop_first()[i] == p[i + 1]);
        }
        lemma_trim_start_skips_whitespace(p.drop_first(), s);
    }
}

proof fn lemma_trim_end_skips_whitespace(s: Seq<char>, q: Seq<char>)
    requires
        all_whitespace(q),
    ensures
        trim_end(s + q, TrimClass::Whitespace) == trim_end(s, TrimClass::Whitespace),
    decreases q.len(),
{
    if q.len() == 0 {
        assert(s + q =~= s);
    } else {
        assert((s + q).last() == q.last());
        assert((s + q).drop_last() =~= s + q.drop_last());
        assert forall|i: int| 0 <= i < q.drop_last().len() implies is_unicode_whitespace(
            #[trigger] q.drop_last()[i],
        ) by {
            assert(q.drop_last()[i] == q[i]);
        }
        lemma_trim_end_skips_whitespace(s, q.drop_last());
    }
}

proof fn lemma_trim_ignores_trailing_whitespace(s: Seq<char>, q: Seq<char>)
    requires
        all_whitespace(q),
    ensures
        trim(s + q, TrimClass::Whitespace) == trim(s, TrimClass::Whitespace),
    decreases s.len(),
{
    if s.len() == 0 {
        assert(s + q =~= q);
        lemma_trim_start_skips_whitespace(q, Seq::<char>::empty());
        assert(q + Seq::<char>::empty() =~= q);
    } else if is_unicode_whitespace(s[0]) {
        assert((s + q)[0] == s[0]);
        assert((s + q).drop_first() =~= s.drop_first() + q);
        lemma_trim_ignores_trailing_whitespace(s.drop_first(), q);
    } else {
        assert((s + q)[0] == s[0]);
        lemma_trim_end_skips_whitespace(s, q);
    }
}

/// Placeholder detection ignores white space around the text.
pub proof fn law_placeholder_ignores_surrounding_whitespace(
    before: Seq<char>,
    value: Seq<char>,
    after: Seq<char>,
)
    requires
        all_whitespace(before),
        all_whitespace(after),
    ensures
        has_placeholder(before + value + after) == has_placeholder(value),
{
    assert(before + value + after =~= before + (value + after));
    lemma_trim_start_skips_whitespace(before, value + after);
    lemma_trim_ignores_trailing_whitespace(value, after);
}

} // verus!
