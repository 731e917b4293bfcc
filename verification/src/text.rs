//! Character-level text utilities: ASCII classification and case mapping,
//! trimming, substring search, prefixes and joining, all stated over the
//! `Seq<char>` view of strings.
use vstd::prelude::*;

verus! {

/// `char::is_ascii_alphanumeric`.
pub open spec fn is_ascii_alnum(c: char) -> bool {
    ||| ('0' <= c && c <= '9')
    ||| ('A' <= c && c <= 'Z')
    ||| ('a' <= c && c <= 'z')
}

/// `char::to_ascii_lowercase`: ASCII upper-case letters map to their
/// lower-case counterpart, every other character is unchanged.
pub open spec fn ascii_lower(c: char) -> char {
    if 'A' <= c && c <= 'Z' {
        ((c as u32) + 32) as char
    } else {
        c
    }
}

/// `str::to_ascii_lowercase`, character by character.
pub open spec fn ascii_lower_seq(s: Seq<char>) -> Seq<char> {
    s.map_values(|c: char| ascii_lower(c))
}

/// `char::to_ascii_uppercase`: ASCII lower-case letters map to their
/// upper-case counterpart, every other character is unchanged.
pub open spec fn ascii_upper(c: char) -> char {
    if 'a' <= c && c <= 'z' {
        ((c as u32) - 32) as char
    } else {
        c
    }
}

/// `str::to_ascii_uppercase`, character by character.
pub open spec fn ascii_upper_seq(s: Seq<char>) -> Seq<char> {
    s.map_values(|c: char| ascii_upper(c))
}

/// `char::is_whitespace`: the Unicode `White_Space` property.
pub open spec fn is_unicode_whitespace(c: char) -> bool {
    ||| ('\u{9}' <= c && c <= '\u{d}')
    ||| c == ' '
    ||| c == '\u{85}'
    ||| c == '\u{a0}'
    ||| c == '\u{1680}'
    ||| ('\u{2000}' <= c && c <= '\u{200a}')
    ||| c == '\u{2028}'
    ||| c == '\u{2029}'
    ||| c == '\u{202f}'
    ||| c == '\u{205f}'
    ||| c == '\u{3000}'
}

/// The two character classes that the library trims away.
#[derive(Clone, Copy, Debug, PartialEq, Eq, Structural)]
pub enum TrimClass {
    /// The character `-`.
    Dash,
    /// Unicode white space, as `str::trim` removes it.
    Whitespace,
}

pub open spec fn in_class(class: TrimClass, c: char) -> bool {
    match class {
        TrimClass::Dash => c == '-',
        TrimClass::Whitespace => is_unicode_whitespace(c),
    }
}

/// Drops the leading characters of the class.
pub open spec fn trim_start(s: Seq<char>, class: TrimClass) -> Seq<char>
    decreases s.len(),
{
    if s.len() > 0 && in_class(class, s[0]) {
        trim_start(s.drop_first(), class)
    } else {
        s
    }
}

/// Drops the trailing characters of the class.
pub open spec fn trim_end(s: Seq<char>, class: TrimClass) -> Seq<char>
    decreases s.len(),
{
    if s.len() > 0 && in_class(class, s.last()) {
        trim_end(s.drop_last(), class)
    } else {
        s
    }
}

/// `str::trim_matches` with the class as pattern (for white space this is `str::trim`).
pub open spec fn trim(s: Seq<char>, class: TrimClass) -> Seq<char> {
    trim_end(trim_start(s, class), class)
}

/// `needle` occurs in `hay` as a contiguous run (`str::contains`).
pub open spec fn contains_seq(hay: Seq<char>, needle: Seq<char>) -> bool {
    exists|i: int|
        0 <= i && i + needle.len() <= hay.len() && #[trigger] hay.subrange(i, i + needle.len())
            == needle
}

/// `str::starts_with`.
pub open spec fn starts_with(s: Seq<char>, prefix: Seq<char>) -> bool {
    prefix.len() <= s.len() && s.subrange(0, prefix.len() as int) == prefix
}

/// The items joined by `sep` (`[String]::join`).
pub open spec fn join(items: Seq<Seq<char>>, sep: Seq<char>) -> Seq<char>
    decreases items.len(),
{
    if items.len() == 0 {
        Seq::empty()
    } else if items.len() == 1 {
        items[0]
    } else {
        join(items.drop_last(), sep) + sep + items.last()
    }
}

/// Where one item stands in a joined sequence: after a separator unless it
/// is the first item, before a separator unless it is the last.
pub proof fn lemma_join_item(items: Seq<Seq<char>>, sep: Seq<char>, i: int) -> (parts: (
    Seq<char>,
    Seq<char>,
))
    requires
        0 <= i < items.len(),
    ensures
        join(items, sep) == parts.0 + items[i] + parts.1,
        i == 0 ==> parts.0.len() == 0,
        i > 0 ==> parts.0.len() >= sep.len() && parts.0.subrange(
            parts.0.len() - sep.len(),
            parts.0.len() as int,
        ) == sep,
        i == items.len() - 1 ==> parts.1.len() == 0,
        i < items.len() - 1 ==> parts.1.len() >= sep.len() && parts.1.subrange(0, sep.len() as int)
            == sep,
    decreases items.len(),
{
    let n = items.len();
    if n == 1 {
        assert(join(items, sep) =~= Seq::<char>::empty() + items[0] + Seq::<char>::empty());
        (Seq::<char>::empty(), Seq::<char>::empty())
    } else if i == n - 1 {
        let pre = join(items.drop_last(), sep) + sep;
        assert(join(items, sep) =~= pre + items[i] + Seq::<char>::empty());
        assert(pre.subrange(pre.len() - sep.len(), pre.len() as int) =~= sep);
        (pre, Seq::<char>::empty())
    } else {
        let dl = items.drop_last();
        let (p, q) = lemma_join_item(dl, sep, i);
        assert(dl[i] == items[i]);
        let post = q + sep + items.last();
        assert(join(items, sep) =~= p + items[i] + post);
        if i == n - 2 {
            assert(post.subrange(0, sep.len() as int) =~= sep);
        } else {
            assert(post.subrange(0, sep.len() as int) =~= q.subrange(0, sep.len() as int));
        }
        (p, post)
    }
}

/// Calls `String::push`, which appends the character to the end of the
/// string; the contract claims exactly that of the character sequence.
#[verifier::external_body]
pub(crate) fn push_char(s: &mut String, c: char)
    ensures
        final(s)@ == old(s)@.push(c),
{
    s.push(c);
}

pub fn is_ascii_alnum_exec(c: char) -> (r: bool)
    ensures
        r == is_ascii_alnum(c),
{
    ('0' <= c && c <= '9') || ('A' <= c && c <= 'Z') || ('a' <= c && c <= 'z')
}

pub fn ascii_lower_exec(c: char) -> (r: char)
    ensures
        r == ascii_lower(c),
{
    if 'A' <= c && c <= 'Z' {
        let b: u8 = c as u8;
        let r = (b + 32) as char;
        assert(r == ((c as u32) + 32) as char);
        r
    } else {
        c
    }
}

pub fn in_class_exec(class: TrimClass, c: char) -> (r: bool)
    ensures
        r == in_class(class, c),
{
    match class {
        TrimClass::Dash => c == '-',
        TrimClass::Whitespace => {
            ('\u{9}' <= c && c <= '\u{d}') || c == ' ' || c == '\u{85}' || c == '\u{a0}' || c
                == '\u{1680}' || ('\u{2000}' <= c && c <= '\u{200a}') || c == '\u{2028}' || c
                == '\u{2029}' || c == '\u{202f}' || c == '\u{205f}' || c == '\u{3000}'
        },
    }
}

/// The characters of `s`, in order.
pub fn chars_of(s: &str) -> (v: Vec<char>)
    ensures
        v@ == s@,
{
    let n = s.unicode_len();
    let mut v: Vec<char> = Vec::new();
    let mut i: usize = 0;
    while i < n
        invariant
            n == s@.len(),
            i <= n,
            v@ == s@.subrange(0, i as int),
        decreases n - i,
    {
        let c = s.get_char(i);
        v.push(c);
        i = i + 1;
    }
    v
}

/// A `String` holding exactly the given characters.
pub fn string_of(v: &Vec<char>) -> (s: String)
    ensures
        s@ == v@,
{
    let mut s = String::new();
    let mut i: usize = 0;
    while i < v.len()
        invariant
            i <= v.len(),
            s@ == v@.subrange(0, i as int),
        decreases v.len() - i,
    {
        push_char(&mut s, v[i]);
        i = i + 1;
    }
    s
}

/// Dropping `i` leading class characters is all that `trim_start` does.
pub proof fn lemma_trim_start_skip(s: Seq<char>, class: TrimClass, i: int)
    requires
        0 <= i <= s.len(),
        forall|k: int| 0 <= k < i ==> in_class(class, #[trigger] s[k]),
        i == s.len() || !in_class(class, s[i]),
    ensures
        trim_start(s, class) == s.subrange(i, s.len() as int),
    decreases i,
{
    if i == 0 {
        assert(s.subrange(0, s.len() as int) =~= s);
    } else {
        let t = s.drop_first();
        assert forall|k: int| 0 <= k < i - 1 implies in_class(class, #[trigger] t[k]) by {
            assert(t[k] == s[k + 1]);
        }
        lemma_trim_start_skip(t, class, i - 1);
        assert(t.subrange(i - 1, t.len() as int) =~= s.subrange(i, s.len() as int));
    }
}

/// Dropping the class characters at positions `j..` is all that `trim_end` does.
pub proof fn lemma_trim_end_take(s: Seq<char>, class: TrimClass, j: int)
    requires
        0 <= j <= s.len(),
        forall|k: int| j <= k < s.len() ==> in_class(class, #[trigger] s[k]),
        j == 0 || !in_class(class, s[j - 1]),
    ensures
        trim_end(s, class) == s.subrange(0, j),
    decreases s.len() - j,
{
    if j == s.len() {
        assert(s.subrange(0, j) =~= s);
    } else {
        let t = s.drop_last();
        assert forall|k: int| j <= k < t.len() implies in_class(class, #[trigger] t[k]) by {
            assert(t[k] == s[k]);
        }
        lemma_trim_end_take(t, class, j);
        assert(t.subrange(0, j) =~= s.subrange(0, j));
    }
}

/// The bounds `(start, end)` of `trim(v@, class)` within `v`.
pub fn trim_bounds(v: &Vec<char>, class: TrimClass) -> (r: (usize, usize))
    ensures
        r.0 <= r.1 <= v.len(),
        v@.subrange(r.0 as int, r.1 as int) == trim(v@, class),
{
    let n = v.len();
    let mut i: usize = 0;
    while i < n && in_class_exec(class, v[i])
        invariant
            i <= n == v.len(),
            forall|k: int| 0 <= k < i ==> in_class(class, #[trigger] v@[k]),
        decreases n - i,
    {
        i = i + 1;
    }
    let mut j: usize = n;
    while j > i && in_class_exec(class, v[j - 1])
        invariant
            i <= j <= n == v.len(),
            forall|k: int| j <= k < n ==> in_class(class, #[trigger] v@[k]),
        decreases j - i,
    {
        j = j - 1;
    }
    proof {
        lemma_trim_start_skip(v@, class, i as int);
        let t = v@.subrange(i as int, n as int);
        assert forall|k: int| j - i <= k < t.len() implies in_class(class, #[trigger] t[k]) by {
            assert(t[k] == v@[k + i]);
        }
        if j > i {
            assert(t[j - i - 1] == v@[j - 1]);
        }
        lemma_trim_end_take(t, class, j - i);
        assert(t.subrange(0, j - i) =~= v@.subrange(i as int, j as int));
    }
    (i, j)
}

/// The characters of `v@.subrange(start, end)`.
pub fn slice_chars(v: &Vec<char>, start: usize, end: usize) -> (r: Vec<char>)
    requires
        start <= end <= v.len(),
    ensures
        r@ == v@.subrange(start as int, end as int),
{
    let mut r: Vec<char> = Vec::new();
    let mut i: usize = start;
    while i < end
        invariant
            start <= i <= end <= v.len(),
            r@ == v@.subrange(start as int, i as int),
        decreases end - i,
    {
        r.push(v[i]);
        i = i + 1;
    }
    r
}

/// `trim` on a character vector.
pub fn trim_chars(v: &Vec<char>, class: TrimClass) -> (r: Vec<char>)
    ensures
        r@ == trim(v@, class),
{
    let (i, j) = trim_bounds(v, class);
    slice_chars(v, i, j)
}

/// `ascii_lower_seq` on a character vector.
pub fn ascii_lower_chars(v: &Vec<char>) -> (r: Vec<char>)
    ensures
        r@ == ascii_lower_seq(v@),
{
    let mut r: Vec<char> = Vec::new();
    let mut i: usize = 0;
    while i < v.len()
        invariant
            i <= v.len(),
            r@ == ascii_lower_seq(v@.subrange(0, i as int)),
        decreases v.len() - i,
    {
        let c = ascii_lower_exec(v[i]);
        r.push(c);
        i = i + 1;
        assert(ascii_lower_seq(v@.subrange(0, i as int)) =~= ascii_lower_seq(
            v@.subrange(0, i - 1),
        ).push(c));
    }
    assert(v@.subrange(0, v.len() as int) =~= v@);
    r
}

/// Whether `v@.subrange(at, at + w.len())` equals `w@`.
pub fn matches_at(v: &Vec<char>, w: &Vec<char>, at: usize) -> (r: bool)
    requires
        at + w.len() <= v.len(),
    ensures
        r == (v@.subrange(at as int, at + w.len()) == w@),
{
    let mut k: usize = 0;
    while k < w.len()
        invariant
            k <= w.len(),
            at + w.len() <= v.len(),
            forall|m: int| 0 <= m < k ==> v@[at + m] == w@[m],
        decreases w.len() - k,
    {
        if v[at + k] != w[k] {
            assert(v@.subrange(at as int, at + w.len())[k as int] != w@[k as int]);
            return false;
        }
        k = k + 1;
    }
    assert(v@.subrange(at as int, at + w.len()) =~= w@);
    true
}

/// `contains_seq` on character vectors.
pub fn contains_chars(hay: &Vec<char>, needle: &Vec<char>) -> (r: bool)
    ensures
        r == contains_seq(hay@, needle@),
{
    if needle.len() > hay.len() {
        return false;
    }
    let last = hay.len() - needle.len();
    let mut i: usize = 0;
    loop
        invariant
            i <= last,
            last + needle.len() == hay.len(),
            forall|k: int|
                0 <= k < i ==> #[trigger] hay@.subrange(k, k + needle.len()) != needle@,
        decreases last - i,
    {
        if matches_at(hay, needle, i) {
            return true;
        }
        if i == last {
            return false;
        }
        i = i + 1;
    }
}

/// `starts_with` on character vectors.
pub fn starts_with_chars(s: &Vec<char>, prefix: &Vec<char>) -> (r: bool)
    ensures
        r == starts_with(s@, prefix@),
{
    if prefix.len() > s.len() {
        return false;
    }
    matches_at(s, prefix, 0)
}

/// Equality of character vectors.
pub fn chars_eq(a: &Vec<char>, b: &Vec<char>) -> (r: bool)
    ensures
        r == (a@ == b@),
{
    if a.len() != b.len() {
        return false;
    }
    let r = matches_at(a, b, 0);
    assert(a@.subrange(0, b.len() as int) =~= a@);
    r
}

/// Appends `items` joined by `sep` to `out`.
pub fn append_joined(out: &mut String, items: &Vec<String>, sep: &str)
    ensures
        final(out)@ == old(out)@ + join(items@.map_values(|s: String| s@), sep@),
{
    let ghost start = out@;
    let ghost views = items@.map_values(|s: String| s@);
    let mut i: usize = 0;
    while i < items.len()
        invariant
            i <= items.len(),
            views == items@.map_values(|s: String| s@),
            out@ == start + join(views.subrange(0, i as int), sep@),
        decreases items.len() - i,
    {
        if i > 0 {
            out.append(sep);
        }
        out.append(items[i].as_str());
        i = i + 1;
        proof {
            let p = views.subrange(0, i as int);
            assert(p.drop_last() =~= views.subrange(0, i - 1));
            if i == 1 {
                assert(views.subrange(0, 0) =~= Seq::<Seq<char>>::empty());
            }
        }
    }
    assert(views.subrange(0, items.len() as int) =~= views);
}

} // verus!
