//! Where bet specs live: the task directory of a repository, the path of a
//! bet's spec file, which directory entries are bet specs and in what order
//! they are listed, and how a spec's path is shown relative to the repository.
//!
//! Paths are held as UTF-8 strings; joining them is left to `std::path`.
use vstd::prelude::*;
use vstd::relations::{sorted_by, total_ordering};
use vstd::utf8::encode_utf8;

use crate::shapeup::{opt_view, string_views, SHAPEUP_TASK_PREFIX};
use crate::slug::{slugify, slugify_bet_name};
use crate::text::{chars_of, push_char};

verus! {

/// What `Path::join` gives for `base` joined with `part`, as text: the
/// separator and the rules for absolute and prefixed parts are those of the
/// platform's `std::path`.
pub uninterp spec fn path_join(base: Seq<char>, part: Seq<char>) -> Seq<char>;

/// Calls `std::path::Path::join` and returns the joined path as a `String`.
/// The contract only names the result: how `std::path` places separators
/// on this platform is not restated.
#[verifier::external_body]
pub(crate) fn join_path(base: &str, part: &str) -> (joined: String)
    ensures
        joined@ == path_join(base@, part@),
{
    std::path::Path::new(base).join(part).to_string_lossy().into_owned()
}

/// The directory that holds a repository's bet specs.
pub open spec fn task_dir(repo_root: Seq<char>) -> Seq<char> {
    path_join(path_join(repo_root, ".codexctl"@), "tasks"@)
}

/// The file name of a bet's spec.
pub open spec fn task_file_name(name: Seq<char>) -> Seq<char> {
    SHAPEUP_TASK_PREFIX@ + slugify(name) + ".yaml"@
}

/// The directory that holds a repository's bet specs: `<repo>/.codexctl/tasks`.
pub fn default_task_dir(repo_root: &str) -> (dir: String)
    ensures
        dir@ == task_dir(repo_root@),
{
    let codexctl = join_path(repo_root, ".codexctl");
    join_path(codexctl.as_str(), "tasks")
}

/// The spec file of a bet: `<repo>/.codexctl/tasks/shapeup-bet-<slug>.yaml`.
pub fn default_task_path(repo_root: &str, name: &str) -> (path: String)
    ensures
        path@ == path_join(task_dir(repo_root@), task_file_name(name@)),
{
    let dir = default_task_dir(repo_root);
    let file_name = bet_file_name(name);
    join_path(dir.as_str(), file_name.as_str())
}

/// The file name of a bet's spec: `shapeup-bet-<slug>.yaml`.
pub fn bet_file_name(name: &str) -> (file_name: String)
    ensures
        file_name@ == task_file_name(name@),
{
    let slug = slugify_bet_name(name);
    let mut file_name = String::new();
    file_name.append(SHAPEUP_TASK_PREFIX);
    file_name.append(slug.as_str());
    file_name.append(".yaml");
    assert(file_name@ =~= task_file_name(name@));
    file_name
}

/// Index of the last `.` in `s`, or -1.
pub open spec fn last_dot_index(s: Seq<char>) -> int
    decreases s.len(),
{
    if s.len() == 0 {
        -1
    } else if s.last() == '.' {
        s.len() - 1
    } else {
        last_dot_index(s.drop_last())
    }
}

/// `Path::extension` of a file name: what follows its last `.`, unless the
/// name has no `.` or its only `.` is the first character.
pub open spec fn file_extension(file_name: Seq<char>) -> Option<Seq<char>> {
    let i = last_dot_index(file_name);
    if i <= 0 {
        None
    } else {
        Some(file_name.subrange(i + 1, file_name.len() as int))
    }
}

pub(crate) proof fn lemma_last_dot_index_from(s: Seq<char>, j: int)
    requires
        -1 <= j < s.len(),
        j >= 0 ==> s[j] == '.',
        forall|k: int| j < k < s.len() ==> s[k] != '.',
    ensures
        last_dot_index(s) == j,
    decreases s.len(),
{
    if s.len() > 0 && j < s.len() - 1 {
        let t = s.drop_last();
        assert forall|k: int| j < k < t.len() implies t[k] != '.' by {
            assert(t[k] == s[k]);
        }
        lemma_last_dot_index_from(t, j);
    }
}

/// The extension of a file name.
pub fn extension_of(file_name: &str) -> (ext: Option<String>)
    ensures
        opt_view(ext) == file_extension(file_name@),
{
    let v = chars_of(file_name);
    let mut j: usize = v.len();
    while j > 0 && v[j - 1] != '.'
        invariant
            j <= v.len(),
            forall|k: int| j <= k < v.len() ==> v@[k] != '.',
        decreases j,
    {
        j = j - 1;
    }
    proof {
        lemma_last_dot_index_from(v@, j - 1);
    }
    if j <= 1 {
        None
    } else {
        let mut ext = String::new();
        let mut k: usize = j;
        while k < v.len()
            invariant
                j <= k <= v.len(),
                ext@ == v@.subrange(j as int, k as int),
            decreases v.len() - k,
        {
            push_char(&mut ext, v[k]);
            k = k + 1;
        }
        Some(ext)
    }
}

/// Whether an extension marks a YAML file: `yaml` or `yml`.
pub open spec fn is_yaml_extension(ext: Option<Seq<char>>) -> bool {
    ext == Some("yaml"@) || ext == Some("yml"@)
}

pub fn is_yaml_extension_exec(ext: &Option<String>) -> (r: bool)
    ensures
        r == is_yaml_extension(opt_view(*ext)),
{
    match ext {
        Some(e) => {
            let yaml = "yaml".to_string();
            let yml = "yml".to_string();
            *e == yaml || *e == yml
        },
        None => false,
    }
}

/// What the `std::path` parser takes as the final component of `path`
/// (`Path::file_name`); `None` where the path ends in `..` or is a root.
pub uninterp spec fn path_file_name(path: Seq<char>) -> Option<Seq<char>>;

/// Calls `std::path::Path::file_name` on `path` and returns the component as
/// a `String`. The contract only names the result: the component grammar of
/// `std::path` (separators, `.` and `..` components) is not restated here.
#[verifier::external_body]
pub(crate) fn file_name_of(path: &str) -> (name: Option<String>)
    ensures
        opt_view(name) == path_file_name(path@),
{
    match std::path::Path::new(path).file_name() {
        Some(n) => Some(n.to_string_lossy().into_owned()),
        None => None,
    }
}

/// What `Path::strip_prefix` leaves of `path` once the components of `base`
/// are taken off its front, displayed as text; `None` where `base` is not a
/// prefix of `path` component by component.
pub uninterp spec fn path_strip_prefix(path: Seq<char>, base: Seq<char>) -> Option<Seq<char>>;

/// Calls `std::path::Path::strip_prefix` and displays the rest as a
/// `String`. The contract only names the result: which component sequences
/// count as a prefix is the business of `std::path` and is not restated.
#[verifier::external_body]
pub(crate) fn strip_path_prefix(path: &str, base: &str) -> (rest: Option<String>)
    ensures
        opt_view(rest) == path_strip_prefix(path@, base@),
{
    match std::path::Path::new(path).strip_prefix(base) {
        Ok(rest) => Some(rest.display().to_string()),
        Err(_) => None,
    }
}

/// The path of a task file as shown to the user: relative to the repository
/// where it lies under it, as given otherwise.
pub open spec fn display_path(repo_root: Seq<char>, task_path: Seq<char>) -> Seq<char> {
    match path_strip_prefix(task_path, repo_root) {
        Some(rest) => rest,
        None => task_path,
    }
}

/// The path to show, given what stripping the repository root left of it:
/// that rest where the root was a prefix, the path as given otherwise.
pub fn shown_path(stripped: Option<String>, task_path: &str) -> (shown: String)
    ensures
        shown@ == match opt_view(stripped) {
            Some(rest) => rest,
            None => task_path@,
        },
{
    match stripped {
        Some(rest) => rest,
        None => task_path.to_string(),
    }
}

/// Shows a task file's path relative to the repository root when it lies
/// under it.
pub fn relative_display(repo_root: &str, task_path: &str) -> (shown: String)
    ensures
        shown@ == display_path(repo_root@, task_path@),
{
    let stripped = strip_path_prefix(task_path, repo_root);
    shown_path(stripped, task_path)
}

/// One entry of the task directory: its file name and whether it is a
/// regular file.
pub struct TaskDirEntry {
    pub file_name: String,
    pub is_file: bool,
}

/// Whether a directory entry is a bet spec: a file with a YAML extension.
pub open spec fn is_task_spec_entry(file_name: Seq<char>, is_file: bool) -> bool {
    is_file && is_yaml_extension(file_extension(file_name))
}

/// The names of the bet specs among the entries, in listing order.
pub open spec fn task_spec_names(entries: Seq<TaskDirEntry>) -> Seq<Seq<char>>
    decreases entries.len(),
{
    if entries.len() == 0 {
        Seq::empty()
    } else {
        let rest = task_spec_names(entries.drop_last());
        let e = entries.last();
        if is_task_spec_entry(e.file_name@, e.is_file) {
            rest.push(e.file_name@)
        } else {
            rest
        }
    }
}

/// Lexicographic order of byte strings, as `[u8]` and `OsStr` compare.
pub open spec fn bytes_le(a: Seq<u8>, b: Seq<u8>) -> bool
    decreases a.len(),
{
    if a.len() == 0 {
        true
    } else if b.len() == 0 {
        false
    } else if a[0] != b[0] {
        a[0] < b[0]
    } else {
        bytes_le(a.drop_first(), b.drop_first())
    }
}

/// The order of file names: by their UTF-8 bytes.
pub open spec fn name_le(a: Seq<char>, b: Seq<char>) -> bool {
    bytes_le(encode_utf8(a), encode_utf8(b))
}

proof fn lemma_bytes_le_reflexive(a: Seq<u8>)
    ensures
        bytes_le(a, a),
    decreases a.len(),
{
    if a.len() > 0 {
        lemma_bytes_le_reflexive(a.drop_first());
    }
}

proof fn lemma_bytes_le_antisymmetric(a: Seq<u8>, b: Seq<u8>)
    requires
        bytes_le(a, b),
        bytes_le(b, a),
    ensures
        a == b,
    decreases a.len(),
{
    if a.len() > 0 && b.len() > 0 {
        lemma_bytes_le_antisymmetric(a.drop_first(), b.drop_first());
        assert(a =~= seq![a[0]] + a.drop_first());
        assert(b =~= seq![b[0]] + b.drop_first());
    } else {
        assert(a =~= b);
    }
}

proof fn lemma_bytes_le_transitive(a: Seq<u8>, b: Seq<u8>, c: Seq<u8>)
    requires
        bytes_le(a, b),
        bytes_le(b, c),
    ensures
        bytes_le(a, c),
    decreases a.len(),
{
    if a.len() > 0 && b.len() > 0 && c.len() > 0 && a[0] == b[0] && b[0] == c[0] {
        lemma_bytes_le_transitive(a.drop_first(), b.drop_first(), c.drop_first());
    }
}

proof fn lemma_bytes_le_total(a: Seq<u8>, b: Seq<u8>)
    ensures
        bytes_le(a, b) || bytes_le(b, a),
    decreases a.len(),
{
    if a.len() > 0 && b.len() > 0 && a[0] == b[0] {
        lemma_bytes_le_total(a.drop_first(), b.drop_first());
    }
}

/// File names are totally ordered by their bytes.
pub proof fn lemma_name_le_total_ordering()
    ensures
        total_ordering(|a: Seq<char>, b: Seq<char>| name_le(a, b)),
{
    let leq = |a: Seq<char>, b: Seq<char>| name_le(a, b);
    assert forall|a: Seq<char>| #[trigger] leq(a, a) by {
        lemma_bytes_le_reflexive(encode_utf8(a));
    }
    assert forall|a: Seq<char>, b: Seq<char>| #[trigger] leq(a, b) && #[trigger] leq(b, a) implies a
        == b by {
        lemma_bytes_le_antisymmetric(encode_utf8(a), encode_utf8(b));
        vstd::utf8::encode_utf8_decode_utf8(a);
        vstd::utf8::encode_utf8_decode_utf8(b);
    }
    assert forall|a: Seq<char>, b: Seq<char>, c: Seq<char>| #[trigger] leq(a, b) && #[trigger] leq(
        b,
        c,
    ) implies leq(a, c) by {
        lemma_bytes_le_transitive(encode_utf8(a), encode_utf8(b), encode_utf8(c));
    }
    assert forall|a: Seq<char>, b: Seq<char>| #[trigger] leq(a, b) || #[trigger] leq(b, a) by {
        lemma_bytes_le_total(encode_utf8(a), encode_utf8(b));
    }
}

/// `bytes_le` on byte slices.
pub fn bytes_le_exec(a: &[u8], b: &[u8]) -> (r: bool)
    ensures
        r == bytes_le(a@, b@),
{
    let mut i: usize = 0;
    assert(a@.subrange(0, a@.len() as int) =~= a@);
    assert(b@.subrange(0, b@.len() as int) =~= b@);
    while i < a.len() && i < b.len()
        invariant
            i <= a@.len(),
            i <= b@.len(),
            bytes_le(a@, b@) == bytes_le(a@.subrange(i as int, a@.len() as int), b@.subrange(i as int, b@.len() as int)),
        decreases a@.len() - i,
    {
        if a[i] != b[i] {
            return a[i] < b[i];
        }
        proof {
            let sa = a@.subrange(i as int, a@.len() as int);
            let sb = b@.subrange(i as int, b@.len() as int);
            assert(sa.drop_first() =~= a@.subrange(i + 1, a@.len() as int));
            assert(sb.drop_first() =~= b@.subrange(i + 1, b@.len() as int));
        }
        i = i + 1;
    }
    i == a.len()
}

/// Whether `a` sorts no later than `b`.
fn name_le_exec(a: &String, b: &String) -> (r: bool)
    ensures
        r == name_le(a@, b@),
{
    bytes_le_exec(a.as_str().as_bytes(), b.as_str().as_bytes())
}

proof fn lemma_insert_multiset<A>(s: Seq<A>, p: int, x: A)
    requires
        0 <= p <= s.len(),
    ensures
        s.insert(p, x).to_multiset() == s.to_multiset().insert(x),
{
    broadcast use vstd::seq_lib::group_to_multiset_ensures;

    let t = s.insert(p, x);
    assert(t.remove(p) =~= s);
    assert(t[p] == x);
    assert(t.to_multiset().count(x) > 0);
    assert(t.to_multiset() =~= t.to_multiset().remove(x).insert(x));
}

/// Sorts file names by their bytes (insertion sort, stable).
pub fn sort_names(names: Vec<String>) -> (sorted: Vec<String>)
    ensures
        string_views(sorted@) == string_views(names@).sort_by(
            |a: Seq<char>, b: Seq<char>| name_le(a, b),
        ),
{
    let ghost leq = |a: Seq<char>, b: Seq<char>| name_le(a, b);
    proof {
        lemma_name_le_total_ordering();
    }
    let ghost input = string_views(names@);
    let mut out: Vec<String> = Vec::new();
    let mut k: usize = 0;
    assert(string_views(out@) =~= input.subrange(0, 0));
    while k < names.len()
        invariant
            k <= names.len(),
            input == string_views(names@),
            total_ordering(leq),
            leq == (|a: Seq<char>, b: Seq<char>| name_le(a, b)),
            sorted_by(string_views(out@), leq),
            string_views(out@).to_multiset() == input.subrange(0, k as int).to_multiset(),
        decreases names.len() - k,
    {
        let x = names[k].clone();
        let mut p: usize = 0;
        while p < out.len() && name_le_exec(&out[p], &x)
            invariant
                p <= out.len(),
                forall|m: int| 0 <= m < p ==> name_le(#[trigger] out@[m]@, x@),
            decreases out.len() - p,
        {
            p = p + 1;
        }
        let ghost before = string_views(out@);
        proof {
            assert forall|m: int| 0 <= m < p implies leq(#[trigger] before[m], x@) by {
                assert(before[m] == out@[m]@);
            }
            if p < out.len() {
                assert(before[p as int] == out@[p as int]@);
                assert(!leq(before[p as int], x@));
                assert(leq(x@, before[p as int]) || leq(before[p as int], x@));
                assert(leq(x@, before[p as int]));
            }
        }
        out.insert(p, x);
        k = k + 1;
        proof {
            let after = string_views(out@);
            assert(after =~= before.insert(p as int, x@));
            lemma_insert_multiset(before, p as int, x@);
            let pre = input.subrange(0, k as int);
            assert(pre =~= input.subrange(0, k - 1).push(x@));
            vstd::seq_lib::to_multiset_build(input.subrange(0, k - 1), x@);
            assert forall|i: int, j: int| 0 <= i < j < after.len() implies #[trigger] leq(
                after[i],
                after[j],
            ) by {
                if j < p {
                } else if j == p {
                } else if i < p {
                    assert(leq(before[i], x@));
                    assert(leq(x@, before[j - 1])) by {
                        if j - 1 > p {
                            assert(leq(before[p as int], before[j - 1]));
                        }
                    }
                } else if i == p {
                    if j - 1 > p {
                        assert(leq(before[p as int], before[j - 1]));
                    }
                } else {
                    assert(leq(before[i - 1], before[j - 1]));
                }
            }
        }
    }
    proof {
        assert(input.subrange(0, names.len() as int) =~= input);
        input.lemma_sort_by_ensures(leq);
        vstd::seq_lib::lemma_sorted_unique(string_views(out@), input.sort_by(leq), leq);
    }
    out
}

/// The bet specs of a task directory listing: the YAML files, sorted by
/// name, each joined onto the task directory.
pub open spec fn task_spec_paths(repo_root: Seq<char>, entries: Seq<TaskDirEntry>) -> Seq<Seq<char>> {
    task_spec_names(entries).sort_by(|a: Seq<char>, b: Seq<char>| name_le(a, b)).map_values(
        |n: Seq<char>| path_join(task_dir(repo_root), n),
    )
}

/// The bet specs of a repository, given the entries of its task directory
/// (an empty listing where the directory does not exist).
pub fn discover_task_specs(repo_root: &str, entries: &Vec<TaskDirEntry>) -> (paths: Vec<String>)
    ensures
        string_views(paths@) == task_spec_paths(repo_root@, entries@),
{
    let dir = default_task_dir(repo_root);
    let mut names: Vec<String> = Vec::new();
    let mut k: usize = 0;
    while k < entries.len()
        invariant
            k <= entries.len(),
            string_views(names@) == task_spec_names(entries@.subrange(0, k as int)),
        decreases entries.len() - k,
    {
        let e = &entries[k];
        let ext = extension_of(e.file_name.as_str());
        let ghost before = names@;
        if e.is_file && is_yaml_extension_exec(&ext) {
            names.push(e.file_name.clone());
        }
        k = k + 1;
        proof {
            let p = entries@.subrange(0, k as int);
            assert(p.drop_last() =~= entries@.subrange(0, k - 1));
            assert(string_views(names@) =~= task_spec_names(p));
        }
    }
    assert(entries@.subrange(0, entries.len() as int) =~= entries@);
    let sorted = sort_names(names);
    let ghost sorted_views = string_views(sorted@);
    let mut paths: Vec<String> = Vec::new();
    let mut m: usize = 0;
    while m < sorted.len()
        invariant
            m <= sorted.len(),
            sorted_views == string_views(sorted@),
            dir@ == task_dir(repo_root@),
            string_views(paths@) == sorted_views.subrange(0, m as int).map_values(
                |n: Seq<char>| path_join(task_dir(repo_root@), n),
            ),
        decreases sorted.len() - m,
    {
        let path = join_path(dir.as_str(), sorted[m].as_str());
        let ghost before = string_views(paths@);
        assert(sorted_views[m as int] == sorted@[m as int]@);
        paths.push(path);
        m = m + 1;
        assert(string_views(paths@) =~= before.push(path_join(task_dir(repo_root@), sorted_views[m - 1])));
        assert(string_views(paths@) =~= sorted_views.subrange(0, m as int).map_values(
            |n: Seq<char>| path_join(task_dir(repo_root@), n),
        ));
    }
    assert(sorted_views.subrange(0, sorted.len() as int) =~= sorted_views);
    paths
}

/// The extension of `stem.ext`, for a non-empty stem and an extension
/// without a dot, is `ext`; a name without any dot has no extension.
pub proof fn law_file_extension(stem: Seq<char>, ext: Seq<char>)
    requires
        stem.len() > 0,
        !ext.contains('.'),
    ensures
        file_extension(stem + seq!['.'] + ext) == Some(ext),
        !stem.contains('.') ==> file_extension(stem) is None,
{
    let f = stem + seq!['.'] + ext;
    let j = stem.len() as int;
    assert(f[j] == '.');
    assert forall|k: int| j < k < f.len() implies f[k] != '.' by {
        assert(f[k] == ext[k - j - 1]);
    }
    lemma_last_dot_index_from(f, j);
    assert(f.subrange(j + 1, f.len() as int) =~= ext);
    if !stem.contains('.') {
        assert forall|k: int| -1 < k < stem.len() implies stem[k] != '.' by {
            if stem[k] == '.' {
                assert(stem.contains('.'));
            }
        }
        lemma_last_dot_index_from(stem, -1);
    }
}

/// Whether an entry is a file whose extension is `yaml` or `yml`.
pub open spec fn is_yaml_file(e: TaskDirEntry) -> bool {
    e.is_file && (file_extension(e.file_name@) == Some("yaml"@) || file_extension(e.file_name@)
        == Some("yml"@))
}

proof fn lemma_task_spec_names_members(entries: Seq<TaskDirEntry>)
    ensures
        forall|i: int|
            0 <= i < entries.len() && is_yaml_file(#[trigger] entries[i])
                ==> task_spec_names(entries).contains(entries[i].file_name@),
        forall|n: Seq<char>|
            #[trigger] task_spec_names(entries).contains(n) ==> exists|i: int|
                0 <= i < entries.len() && is_yaml_file(#[trigger] entries[i]) && entries[i].file_name@
                    == n,
    decreases entries.len(),
{
    if entries.len() > 0 {
        let d = entries.drop_last();
        lemma_task_spec_names_members(d);
        let r = task_spec_names(d);
        let e = entries.last();
        let out = task_spec_names(entries);
        assert(entries[entries.len() - 1] == e);
        assert forall|i: int|
            0 <= i < entries.len() && is_yaml_file(#[trigger] entries[i])
                implies out.contains(entries[i].file_name@) by {
            if i < entries.len() - 1 {
                assert(entries[i] == d[i]);
                assert(r.contains(entries[i].file_name@));
                let k = choose|k: int| 0 <= k < r.len() && r[k] == entries[i].file_name@;
                if is_task_spec_entry(e.file_name@, e.is_file) {
                    assert(out[k] == r[k]);
                }
            } else {
                assert(out[r.len() as int] == e.file_name@);
            }
        }
        assert forall|n: Seq<char>| #[trigger] out.contains(n) implies exists|i: int|
            0 <= i < entries.len() && is_yaml_file(#[trigger] entries[i]) && entries[i].file_name@
                == n by {
            let k = choose|k: int| 0 <= k < out.len() && out[k] == n;
            if k < r.len() {
                if is_task_spec_entry(e.file_name@, e.is_file) {
                    assert(out[k] == r[k]);
                }
                assert(r.contains(n));
                let i = choose|i: int| 0 <= i < d.len() && is_yaml_file(#[trigger] d[i]) && d[i].file_name@ == n;
                assert(entries[i] == d[i]);
            } else {
                assert(is_yaml_file(entries[entries.len() - 1]));
            }
        }
    }
}

/// The task-spec listing holds, for each YAML file among the entries, its
/// path in the task directory.
pub proof fn law_discover_lists_every_yaml_file(repo_root: Seq<char>, entries: Seq<TaskDirEntry>)
    ensures
        forall|i: int|
            0 <= i < entries.len() && is_yaml_file(#[trigger] entries[i]) ==> task_spec_paths(
                repo_root,
                entries,
            ).contains(path_join(task_dir(repo_root), entries[i].file_name@)),
{
    broadcast use vstd::seq_lib::group_to_multiset_ensures;

    let leq = |a: Seq<char>, b: Seq<char>| name_le(a, b);
    lemma_name_le_total_ordering();
    let names = task_spec_names(entries);
    names.lemma_sort_by_ensures(leq);
    let sorted = names.sort_by(leq);
    lemma_task_spec_names_members(entries);
    let paths = task_spec_paths(repo_root, entries);
    assert(paths == sorted.map_values(|n: Seq<char>| path_join(task_dir(repo_root), n)));
    assert forall|i: int| 0 <= i < entries.len() && is_yaml_file(#[trigger] entries[i]) implies paths.contains(
        path_join(task_dir(repo_root), entries[i].file_name@),
    ) by {
        let n = entries[i].file_name@;
        assert(names.contains(n));
        assert(names.to_multiset().count(n) > 0);
        assert(sorted.to_multiset().count(n) > 0);
        assert(sorted.contains(n));
        let k = choose|k: int| 0 <= k < sorted.len() && sorted[k] == n;
        assert(paths[k] == path_join(task_dir(repo_root), n));
    }
}

/// Each path of the task-spec listing is that of a YAML file among the
/// entries: the entry is returned.
pub proof fn law_discover_lists_only_yaml_files(repo_root: Seq<char>, entries: Seq<TaskDirEntry>, k: int) -> (i: int)
    requires
        0 <= k < task_spec_paths(repo_root, entries).len(),
    ensures
        0 <= i < entries.len(),
        is_yaml_file(entries[i]),
        task_spec_paths(repo_root, entries)[k] == path_join(task_dir(repo_root), entries[i].file_name@),
{
    broadcast use vstd::seq_lib::group_to_multiset_ensures;

    let leq = |a: Seq<char>, b: Seq<char>| name_le(a, b);
    lemma_name_le_total_ordering();
    let names = task_spec_names(entries);
    names.lemma_sort_by_ensures(leq);
    let sorted = names.sort_by(leq);
    lemma_task_spec_names_members(entries);
    let n = sorted[k];
    assert(sorted.contains(n));
    assert(sorted.to_multiset().count(n) > 0);
    assert(names.contains(n));
    let i = choose|i: int| 0 <= i < entries.len() && is_yaml_file(#[trigger] entries[i]) && entries[i].file_name@ == n;
    i
}

/// Byte strings are ordered by their first differing byte, and a prefix
/// comes before what extends it.
pub proof fn law_bytes_order(a: Seq<u8>, b: Seq<u8>, j: int)
    requires
        0 <= j < a.len(),
        j < b.len(),
        a.subrange(0, j) == b.subrange(0, j),
        a[j] < b[j],
    ensures
        bytes_le(a, b),
        !bytes_le(b, a),
        bytes_le(a.subrange(0, j), a),
    decreases j,
{
    if j > 0 {
        assert(a[0] == a.subrange(0, j)[0]);
        assert(b[0] == b.subrange(0, j)[0]);
        assert(a.drop_first().subrange(0, j - 1) =~= a.subrange(0, j).drop_first());
        assert(b.drop_first().subrange(0, j - 1) =~= b.subrange(0, j).drop_first());
        assert(a.subrange(0, j).drop_first() =~= a.drop_first().subrange(0, j - 1));
        law_bytes_order(a.drop_first(), b.drop_first(), j - 1);
    }
}

} // verus!
