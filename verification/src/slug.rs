//! Bet name slugs: lower-case ASCII letters and digits, runs of anything
//! else collapsed into a single `-`, with no `-` at either end.
use vstd::prelude::*;

use crate::text::{
    ascii_lower, ascii_lower_exec, ascii_lower_seq, chars_of, is_ascii_alnum, is_ascii_alnum_exec, string_of,
    trim, trim_chars, trim_end, trim_start, TrimClass,
};

verus! {

/// The slug that a bet gets when nothing of its name survives.
pub open spec fn fallback_slug() -> Seq<char> {
    "new-bet"@
}

/// The characters that `slugify_bet_name` emits while it walks `s`, before
/// the dashes at both ends are trimmed: each ASCII letter or digit,
/// lower-cased, and one `-` for each run of other characters.
pub open spec fn slug_chars(s: Seq<char>) -> Seq<char>
    decreases s.len(),
{
    if s.len() == 0 {
        Seq::empty()
    } else {
        let r = slug_chars(s.drop_last());
        let c = s.last();
        if is_ascii_alnum(c) {
            r.push(ascii_lower(c))
        } else if r.len() > 0 && r.last() == '-' {
            r
        } else {
            r.push('-')
        }
    }
}

/// The slug of a bet name.
pub open spec fn slugify(name: Seq<char>) -> Seq<char> {
    let t = trim(slug_chars(name), TrimClass::Dash);
    if t.len() == 0 {
        fallback_slug()
    } else {
        t
    }
}

/// A character that may appear in a slug.
pub open spec fn is_slug_char(c: char) -> bool {
    ||| ('a' <= c && c <= 'z')
    ||| ('0' <= c && c <= '9')
    ||| c == '-'
}

/// No two consecutive dashes.
pub open spec fn no_double_dash(s: Seq<char>) -> bool {
    forall|i: int| 0 <= i < s.len() - 1 ==> !(#[trigger] s[i] == '-' && s[i + 1] == '-')
}

/// A well-formed slug: not empty, only slug characters, no `-` at either
/// end and never two in a row.
pub open spec fn is_slug(s: Seq<char>) -> bool {
    &&& s.len() > 0
    &&& forall|i: int| 0 <= i < s.len() ==> is_slug_char(#[trigger] s[i])
    &&& s[0] != '-'
    &&& s.last() != '-'
    &&& no_double_dash(s)
}

/// Turns a free-form bet name into a slug.
pub fn slugify_bet_name(name: &str) -> (slug: String)
    ensures
        slug@ == slugify(name@),
{
    let chars = chars_of(name);
    let mut raw: Vec<char> = Vec::new();
    let mut previous_was_dash = false;
    let mut i: usize = 0;
    while i < chars.len()
        invariant
            i <= chars.len(),
            raw@ == slug_chars(chars@.subrange(0, i as int)),
            previous_was_dash == (raw@.len() > 0 && raw@.last() == '-'),
        decreases chars.len() - i,
    {
        let ch = chars[i];
        proof {
            let p = chars@.subrange(0, i + 1);
            assert(p.drop_last() =~= chars@.subrange(0, i as int));
            assert(p.last() == ch);
        }
        if is_ascii_alnum_exec(ch) {
            let lower = ascii_lower_exec(ch);
            raw.push(lower);
            previous_was_dash = false;
        } else if !previous_was_dash {
            raw.push('-');
            previous_was_dash = true;
        }
        i = i + 1;
    }
    assert(chars@.subrange(0, chars.len() as int) =~= chars@);
    let trimmed = trim_chars(&raw, TrimClass::Dash);
    if trimmed.len() == 0 {
        "new-bet".to_string()
    } else {
        string_of(&trimmed)
    }
}

proof fn lemma_slug_chars_shape(s: Seq<char>)
    ensures
        forall|i: int|
            0 <= i < slug_chars(s).len() ==> is_slug_char(#[trigger] slug_chars(s)[i]),
        no_double_dash(slug_chars(s)),
    decreases s.len(),
{
    if s.len() > 0 {
        lemma_slug_chars_shape(s.drop_last());
    }
}

proof fn lemma_trim_start_shape(s: Seq<char>)
    ensures
        exists|i: int|
            0 <= i <= s.len() && #[trigger] trim_start(s, TrimClass::Dash) == s.subrange(
                i,
                s.len() as int,
            ),
        trim_start(s, TrimClass::Dash).len() > 0 ==> trim_start(s, TrimClass::Dash)[0] != '-',
    decreases s.len(),
{
    if s.len() > 0 && s[0] == '-' {
        let t = s.drop_first();
        lemma_trim_start_shape(t);
        let i = choose|i: int|
            0 <= i <= t.len() && #[trigger] trim_start(t, TrimClass::Dash) == t.subrange(
                i,
                t.len() as int,
            );
        assert(t.subrange(i, t.len() as int) =~= s.subrange(i + 1, s.len() as int));
    } else {
        assert(s.subrange(0, s.len() as int) =~= s);
    }
}

proof fn lemma_trim_end_shape(s: Seq<char>)
    ensures
        exists|j: int|
            0 <= j <= s.len() && #[trigger] trim_end(s, TrimClass::Dash) == s.subrange(0, j),
        trim_end(s, TrimClass::Dash).len() > 0 ==> trim_end(s, TrimClass::Dash).last() != '-',
    decreases s.len(),
{
    if s.len() > 0 && s.last() == '-' {
        let t = s.drop_last();
        lemma_trim_end_shape(t);
        let j = choose|j: int|
            0 <= j <= t.len() && #[trigger] trim_end(t, TrimClass::Dash) == t.subrange(0, j);
        assert(t.subrange(0, j) =~= s.subrange(0, j));
    } else {
        assert(s.subrange(0, s.len() as int) =~= s);
    }
}

proof fn lemma_subrange_keeps_shape(s: Seq<char>, i: int, j: int)
    requires
        0 <= i <= j <= s.len(),
        forall|k: int| 0 <= k < s.len() ==> is_slug_char(#[trigger] s[k]),
        no_double_dash(s),
    ensures
        forall|k: int|
            0 <= k < s.subrange(i, j).len() ==> is_slug_char(#[trigger] s.subrange(i, j)[k]),
        no_double_dash(s.subrange(i, j)),
{
    let t = s.subrange(i, j);
    assert forall|k: int| 0 <= k < t.len() implies is_slug_char(#[trigger] t[k]) by {
        assert(t[k] == s[k + i]);
    }
    assert forall|k: int| 0 <= k < t.len() - 1 implies !(#[trigger] t[k] == '-' && t[k + 1]
        == '-') by {
        assert(t[k] == s[k + i] && t[k + 1] == s[k + i + 1]);
    }
}

/// What a slug looks like: whatever the name, `slugify_bet_name` returns a
/// non-empty string of lower-case ASCII letters, digits and single dashes,
/// with no dash at either end.
pub proof fn law_slug_is_well_formed(name: Seq<char>)
    ensures
        is_slug(slugify(name)),
{
    let r = slug_chars(name);
    lemma_slug_chars_shape(name);
    lemma_trim_start_shape(r);
    let a = trim_start(r, TrimClass::Dash);
    let i = choose|i: int| 0 <= i <= r.len() && #[trigger] trim_start(r, TrimClass::Dash) == r.subrange(i, r.len() as int);
    lemma_subrange_keeps_shape(r, i, r.len() as int);
    lemma_trim_end_shape(a);
    let t = trim_end(a, TrimClass::Dash);
    let j = choose|j: int| 0 <= j <= a.len() && #[trigger] trim_end(a, TrimClass::Dash) == a.subrange(0, j);
    lemma_subrange_keeps_shape(a, 0, j);
    if t.len() > 0 {
        assert(t[0] == a[0]);
    } else {
        reveal_strlit("new-bet");
        let f = fallback_slug();
        assert(f.len() == 7);
        assert(no_double_dash(f)) by {
            assert forall|k: int| 0 <= k < f.len() - 1 implies !(#[trigger] f[k] == '-' && f[k
                + 1] == '-') by {
                assert(k == 3 ==> f[k + 1] == 'b');
                assert(k == 2 ==> f[k + 1] == '-' && f[k] == 'w');
            }
        }
    }
}

/// A well-formed slug is its own slug walk.
proof fn lemma_slug_chars_of_slug(s: Seq<char>, n: int)
    requires
        is_slug(s),
        0 <= n <= s.len(),
    ensures
        slug_chars(s.subrange(0, n)) == s.subrange(0, n),
    decreases n,
{
    if n > 0 {
        let p = s.subrange(0, n);
        assert(p.drop_last() =~= s.subrange(0, n - 1));
        lemma_slug_chars_of_slug(s, n - 1);
        let c = s[n - 1];
        assert(is_slug_char(c));
        if c == '-' {
            assert(n - 1 > 0);
            assert(s[n - 2] != '-');
        }
        assert(s.subrange(0, n - 1).push(c) =~= p);
    } else {
        assert(s.subrange(0, 0) =~= Seq::<char>::empty());
    }
}

/// Slugs are fixed points: the slug of a slug is the slug itself.
pub proof fn law_slugify_idempotent(name: Seq<char>)
    ensures
        slugify(slugify(name)) == slugify(name),
{
    let s = slugify(name);
    law_slug_is_well_formed(name);
    lemma_slug_chars_of_slug(s, s.len() as int);
    assert(s.subrange(0, s.len() as int) =~= s);
    assert(trim_start(s, TrimClass::Dash) == s);
    assert(trim_end(s, TrimClass::Dash) == s);
}

/// Every character is an ASCII letter or digit.
pub open spec fn all_alnum(s: Seq<char>) -> bool {
    forall|i: int| 0 <= i < s.len() ==> is_ascii_alnum(#[trigger] s[i])
}

/// No character is an ASCII letter or digit.
pub open spec fn none_alnum(s: Seq<char>) -> bool {
    forall|i: int| 0 <= i < s.len() ==> !is_ascii_alnum(#[trigger] s[i])
}

proof fn lemma_lower_alnum(c: char)
    requires
        is_ascii_alnum(c),
    ensures
        is_ascii_alnum(ascii_lower(c)),
        ascii_lower(c) != '-',
{
    if 'A' <= c && c <= 'Z' {
        let l = ascii_lower(c);
        assert((l as u32) == (c as u32) + 32);
        assert('a' <= l && l <= 'z');
    }
}

/// Letters and digits at the end of a name are lower-cased onto the slug.
proof fn lemma_slug_chars_alnum_tail(x: Seq<char>, y: Seq<char>)
    requires
        all_alnum(y),
    ensures
        slug_chars(x + y) == slug_chars(x) + ascii_lower_seq(y),
    decreases y.len(),
{
    if y.len() == 0 {
        assert(x + y =~= x);
        assert(slug_chars(x) + ascii_lower_seq(y) =~= slug_chars(x));
    } else {
        let yd = y.drop_last();
        lemma_slug_chars_alnum_tail(x, yd);
        assert((x + y).drop_last() =~= x + yd);
        assert((x + y).last() == y.last());
        assert(ascii_lower_seq(y) =~= ascii_lower_seq(yd).push(ascii_lower(y.last())));
    }
}

/// A run of other characters after a slug that does not end in a dash adds
/// exactly one dash.
proof fn lemma_slug_chars_separator_tail(x: Seq<char>, sep: Seq<char>)
    requires
        sep.len() > 0,
        none_alnum(sep),
        slug_chars(x).len() > 0,
        slug_chars(x).last() != '-',
    ensures
        slug_chars(x + sep) == slug_chars(x).push('-'),
    decreases sep.len(),
{
    let sd = sep.drop_last();
    assert((x + sep).drop_last() =~= x + sd);
    assert((x + sep).last() == sep.last());
    assert(!is_ascii_alnum(sep.last()));
    if sd.len() == 0 {
        assert(x + sd =~= x);
    } else {
        assert forall|i: int| 0 <= i < sd.len() implies !is_ascii_alnum(#[trigger] sd[i]) by {
            assert(sd[i] == sep[i]);
        }
        lemma_slug_chars_separator_tail(x, sd);
    }
}

/// Two runs of letters and digits separated by a run of any other
/// characters give the two runs lower-cased, joined by a single dash.
pub proof fn law_separator_becomes_single_dash(a: Seq<char>, sep: Seq<char>, b: Seq<char>)
    requires
        a.len() > 0,
        b.len() > 0,
        sep.len() > 0,
        all_alnum(a),
        all_alnum(b),
        none_alnum(sep),
    ensures
        slugify(a + sep + b) == ascii_lower_seq(a) + seq!['-'] + ascii_lower_seq(b),
{
    let la = ascii_lower_seq(a);
    let lb = ascii_lower_seq(b);
    lemma_slug_chars_alnum_tail(Seq::<char>::empty(), a);
    assert(Seq::<char>::empty() + a =~= a);
    assert(slug_chars(Seq::<char>::empty()) =~= Seq::<char>::empty());
    assert(slug_chars(a) =~= la);
    lemma_lower_alnum(a.last());
    assert(la.last() == ascii_lower(a.last()));
    lemma_slug_chars_separator_tail(a, sep);
    lemma_slug_chars_alnum_tail(a + sep, b);
    let t = la.push('-') + lb;
    assert(slug_chars(a + sep + b) =~= t);
    lemma_lower_alnum(a[0]);
    lemma_lower_alnum(b.last());
    assert(t[0] == la[0]);
    assert(t.last() == lb.last());
    assert(trim_start(t, TrimClass::Dash) == t);
    assert(trim_end(t, TrimClass::Dash) == t);
    assert(t =~= la + seq!['-'] + lb);
}

/// A name of ASCII letters and digits only slugs to itself, lower-cased.
pub proof fn law_alnum_name_is_lowercased(a: Seq<char>)
    requires
        a.len() > 0,
        all_alnum(a),
    ensures
        slugify(a) == ascii_lower_seq(a),
{
    let la = ascii_lower_seq(a);
    lemma_slug_chars_alnum_tail(Seq::<char>::empty(), a);
    assert(Seq::<char>::empty() + a =~= a);
    assert(slug_chars(Seq::<char>::empty()) =~= Seq::<char>::empty());
    assert(slug_chars(a) =~= la);
    lemma_lower_alnum(a[0]);
    lemma_lower_alnum(a.last());
    assert(la[0] == ascii_lower(a[0]));
    assert(la.last() == ascii_lower(a.last()));
    assert(trim_start(la, TrimClass::Dash) == la);
    assert(trim_end(la, TrimClass::Dash) == la);
}

proof fn lemma_slug_chars_no_alnum(s: Seq<char>)
    requires
        none_alnum(s),
    ensures
        forall|i: int| 0 <= i < slug_chars(s).len() ==> #[trigger] slug_chars(s)[i] == '-',
    decreases s.len(),
{
    if s.len() > 0 {
        let d = s.drop_last();
        assert forall|i: int| 0 <= i < d.len() implies !is_ascii_alnum(#[trigger] d[i]) by {
            assert(d[i] == s[i]);
        }
        lemma_slug_chars_no_alnum(d);
        assert(!is_ascii_alnum(s[s.len() - 1]));
        assert(s.last() == s[s.len() - 1]);
        let r = slug_chars(d);
        if !(r.len() > 0 && r.last() == '-') {
            assert forall|i: int| 0 <= i < r.push('-').len() implies #[trigger] r.push('-')[i] == '-' by {
                if i < r.len() {
                    assert(r.push('-')[i] == r[i]);
                }
            }
        }
    }
}

proof fn lemma_trim_all_dashes(t: Seq<char>)
    requires
        forall|i: int| 0 <= i < t.len() ==> #[trigger] t[i] == '-',
    ensures
        trim_start(t, TrimClass::Dash).len() == 0,
    decreases t.len(),
{
    if t.len() > 0 {
        let d = t.drop_first();
        assert forall|i: int| 0 <= i < d.len() implies #[trigger] d[i] == '-' by {
            assert(d[i] == t[i + 1]);
        }
        lemma_trim_all_dashes(d);
    }
}

/// A name without any ASCII letter or digit gets the fallback slug `new-bet`.
pub proof fn law_name_without_alnum_falls_back(name: Seq<char>)
    requires
        none_alnum(name),
    ensures
        slugify(name) == "new-bet"@,
{
    lemma_slug_chars_no_alnum(name);
    lemma_trim_all_dashes(slug_chars(name));
}

} // verus!
