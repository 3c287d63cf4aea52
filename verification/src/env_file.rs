//! Reading `KEY=VALUE` settings from a `.env` file's text.
use vstd::prelude::*;

use crate::text::{
    chars_of, copy_range, is_ws, split_chars, split_on, string_of, trim, trim_chars, trim_end,
    trim_start, views,
};

verus! {

/// The lines of `s` as `str::lines` splits them: at each `\n`, a final
/// empty line dropped. (`lines` also drops the `\r` of a `\r\n`; every line
/// is trimmed below, and `\r` is white space, so it makes no difference.)
pub open spec fn text_lines(s: Seq<char>) -> Seq<Seq<char>> {
    let p = split_on(s, '\n');
    if p.last().len() == 0 {
        p.drop_last()
    } else {
        p
    }
}

/// Whether `i` is the position of the first `=` of `t`.
pub open spec fn first_equals(t: Seq<char>, i: int) -> bool {
    0 <= i < t.len() && t[i] == '=' && forall|j: int| 0 <= j < i ==> t[j] != '='
}

/// The setting a line holds: none for a blank line, a `#` comment or a line
/// without `=`; else the trimmed text before the first `=` and the trimmed
/// text after it.
pub open spec fn line_entry(line: Seq<char>) -> Option<(Seq<char>, Seq<char>)> {
    let t = trim(line);
    if t.len() == 0 || t[0] == '#' || !t.contains('=') {
        None
    } else {
        let i = choose|i: int| first_equals(t, i);
        Some((trim(t.take(i)), trim(t.skip(i + 1))))
    }
}

/// The settings of the lines, in order.
pub open spec fn entries_of(lines: Seq<Seq<char>>) -> Seq<(Seq<char>, Seq<char>)>
    decreases lines.len(),
{
    if lines.len() == 0 {
        seq![]
    } else {
        let r = entries_of(lines.drop_last());
        match line_entry(lines.last()) {
            Some(e) => r.push(e),
            None => r,
        }
    }
}

/// The settings of a `.env` file's text, in order.
pub open spec fn env_entries(s: Seq<char>) -> Seq<(Seq<char>, Seq<char>)> {
    entries_of(text_lines(s))
}

/// The views of a list of settings.
pub open spec fn entries_view(v: Seq<(String, String)>) -> Seq<(Seq<char>, Seq<char>)> {
    v.map_values(|p: (String, String)| (p.0@, p.1@))
}

/// The setting of one line.
fn parse_line(line: &Vec<char>) -> (r: Option<(String, String)>)
    ensures
        match line_entry(line@) {
            Some((k, v)) => r matches Some(p) && p.0@ == k && p.1@ == v,
            None => r is None,
        },
{
    let t = trim_chars(line);
    if t.len() == 0 || t[0] == '#' {
        return None;
    }
    let mut i: usize = 0;
    while i < t.len() && t[i] != '='
        invariant
            i <= t.len(),
            forall|j: int| 0 <= j < i ==> t@[j] != '=',
        decreases t.len() - i,
    {
        i = i + 1;
    }
    if i == t.len() {
        assert(!t@.contains('='));
        return None;
    }
    assert(first_equals(t@, i as int));
    assert(t@.contains('='));
    proof {
        let k = choose|k: int| first_equals(t@, k);
        assert(k == i as int) by {
            if k < i {
                assert(t@[k] != '=');
            } else if k > i {
                assert(t@[i as int] != '=');
            }
        }
    }
    let key = trim_chars(&copy_range(&t, 0, i));
    let value = trim_chars(&copy_range(&t, i + 1, t.len()));
    assert(t@.take(i as int) == t@.subrange(0, i as int));
    assert(t@.skip(i + 1) == t@.subrange(i + 1, t@.len() as int));
    Some((string_of(&key), string_of(&value)))
}

/// The `KEY=VALUE` settings of a `.env` file's text, in order: each line is
/// trimmed; blank lines, `#` comments and lines without `=` are skipped; a
/// setting's key and value are trimmed and split at the first `=`.
pub fn parse_env_file(contents: &str) -> (r: Vec<(String, String)>)
    ensures
        entries_view(r@) == env_entries(contents@),
{
    let cs = chars_of(contents);
    let pieces = split_chars(&cs, '\n');
    proof {
        crate::text::lemma_split_nonempty(cs@, '\n');
    }
    let n = if pieces[pieces.len() - 1].len() == 0 {
        pieces.len() - 1
    } else {
        pieces.len()
    };
    let ghost lines = text_lines(contents@);
    assert(lines == views(pieces@).take(n as int));
    let mut r: Vec<(String, String)> = Vec::new();
    for i in 0..n
        invariant
            n <= pieces.len(),
            lines == views(pieces@).take(n as int),
            entries_view(r@) == entries_of(lines.take(i as int)),
    {
        assert(lines.take(i + 1).drop_last() == lines.take(i as int));
        assert(lines.take(i + 1).last() == pieces@[i as int]@);
        match parse_line(&pieces[i]) {
            Some(p) => {
                r.push(p);
                assert(entries_view(r@) =~= entries_of(lines.take(i + 1)));
            },
            None => {
                assert(entries_view(r@) =~= entries_of(lines.take(i + 1)));
            },
        }
    }
    assert(lines.take(n as int) == lines);
    r
}

/// Text with its leading white space removed starts with a character that
/// is not white space.
proof fn lemma_trim_start_head(s: Seq<char>)
    ensures
        trim_start(s).len() > 0 ==> !is_ws(trim_start(s)[0]),
    decreases s.len(),
{
    if s.len() > 0 && is_ws(s[0]) {
        lemma_trim_start_head(s.drop_first());
    }
}

/// Removing trailing white space leaves a prefix.
proof fn lemma_trim_end_prefix(s: Seq<char>)
    ensures
        trim_end(s).len() <= s.len(),
        forall|j: int| 0 <= j < trim_end(s).len() ==> #[trigger] trim_end(s)[j] == s[j],
    decreases s.len(),
{
    if s.len() > 0 && is_ws(s.last()) {
        lemma_trim_end_prefix(s.drop_last());
    }
}

/// A trimmed non-empty text starts with a character that is not white space.
proof fn lemma_trim_head(s: Seq<char>)
    ensures
        trim(s).len() > 0 ==> !is_ws(trim(s)[0]) && trim(s)[0] == trim_start(s)[0],
{
    lemma_trim_start_head(s);
    lemma_trim_end_prefix(trim_start(s));
    if trim(s).len() > 0 {
        assert(trim(s)[0] == trim_start(s)[0]);
    }
}

/// A line whose trimmed text starts with `#` is a comment and holds no
/// setting; a setting's key never starts with `#`.
pub proof fn law_comment_lines_hold_no_setting(line: Seq<char>)
    ensures
        trim(line).len() > 0 && trim(line)[0] == '#' ==> line_entry(line) is None,
        line_entry(line) matches Some(e) ==> e.0.len() == 0 || e.0[0] != '#',
{
    let t = trim(line);
    lemma_trim_head(line);
    if let Some(e) = line_entry(line) {
        assert(t.contains('='));
        let w = choose|w: int| 0 <= w < t.len() && t[w] == '=';
        lemma_first_equals_exists(t, w);
        let i = choose|i: int| first_equals(t, i);
        let p = t.take(i);
        assert(e.0 == trim(p));
        if i > 0 {
            assert(p[0] == t[0]);
            assert(!is_ws(p[0]));
            assert(trim_start(p) == p);
            lemma_trim_end_prefix(p);
            if trim(p).len() > 0 {
                assert(trim(p)[0] == p[0]);
            }
        } else {
            assert(p.len() == 0);
            assert(trim_start(p) == p);
            lemma_trim_end_prefix(p);
        }
    }
}

/// A text holding `=` at `w` has a first `=`.
proof fn lemma_first_equals_exists(t: Seq<char>, w: int)
    requires
        0 <= w < t.len(),
        t[w] == '=',
    ensures
        exists|i: int| first_equals(t, i),
    decreases w,
{
    if forall|j: int| 0 <= j < w ==> t[j] != '=' {
        assert(first_equals(t, w));
    } else {
        let j = choose|j: int| 0 <= j < w && t[j] == '=';
        lemma_first_equals_exists(t, j);
    }
}

/// Each setting comes from a line of the text.
proof fn lemma_entries_from_lines(lines: Seq<Seq<char>>)
    ensures
        forall|k: int|
            0 <= k < entries_of(lines).len() ==> exists|j: int|
                0 <= j < lines.len() && line_entry(lines[j]) == Some(
                    #[trigger] entries_of(lines)[k],
                ),
    decreases lines.len(),
{
    if lines.len() > 0 {
        let d = lines.drop_last();
        lemma_entries_from_lines(d);
        let r = entries_of(d);
        let a = entries_of(lines);
        assert forall|k: int| 0 <= k < a.len() implies exists|j: int|
            0 <= j < lines.len() && line_entry(lines[j]) == Some(#[trigger] a[k]) by {
            if k < r.len() {
                assert(a[k] == r[k]);
                let j = choose|j: int| 0 <= j < d.len() && line_entry(d[j]) == Some(r[k]);
                assert(lines[j] == d[j]);
            } else {
                assert(lines[lines.len() - 1] == lines.last());
            }
        }
    }
}

/// No setting of a `.env` text has a key starting with `#`: commented-out
/// lines are skipped.
pub proof fn law_no_setting_from_a_comment(s: Seq<char>)
    ensures
        forall|k: int|
            0 <= k < env_entries(s).len() ==> (#[trigger] env_entries(s)[k]).0.len() == 0
                || env_entries(s)[k].0[0] != '#',
{
    let lines = text_lines(s);
    lemma_entries_from_lines(lines);
    assert forall|k: int| 0 <= k < env_entries(s).len() implies (
    #[trigger] env_entries(s)[k]).0.len() == 0 || env_entries(s)[k].0[0] != '#' by {
        let j = choose|j: int|
            0 <= j < lines.len() && line_entry(lines[j]) == Some(entries_of(lines)[k]);
        law_comment_lines_hold_no_setting(lines[j]);
    }
}

} // verus!
