//! Splitting on separator characters, whitespace trimming, and the
//! line-level helpers built from them: pipeline splitting, interactive
//! input classification, and startup-script line selection.

use vstd::prelude::*;

use crate::text::str_eq;
use crate::text::string_from_chars;

verus! {

/// Splitting as a left-to-right scan: `cur` is the segment being built,
/// `acc` the segments already complete. The scan always closes with a
/// final `push`, so a trailing separator yields a trailing empty segment.
pub open spec fn split_from(t: Seq<char>, sep: char, cur: Seq<char>, acc: Seq<Seq<char>>) -> Seq<
    Seq<char>,
>
    decreases t.len(),
{
    if t.len() == 0 {
        acc.push(cur)
    } else if t[0] == sep {
        split_from(t.drop_first(), sep, Seq::empty(), acc.push(cur))
    } else {
        split_from(t.drop_first(), sep, cur.push(t[0]), acc)
    }
}

/// The segments of `s` between occurrences of `sep`.
pub open spec fn split_char(s: Seq<char>, sep: char) -> Seq<Seq<char>> {
    split_from(s, sep, Seq::empty(), Seq::empty())
}

/// Split `s` at every occurrence of `sep`.
pub fn split_on(s: &str, sep: char) -> (r: Vec<String>)
    ensures
        r.deep_view() == split_char(s@, sep),
{
    let n = s.unicode_len();
    let mut i: usize = 0;
    let mut cur: Vec<char> = Vec::new();
    let mut out: Vec<String> = Vec::new();
    proof {
        assert(s@.subrange(0, n as int) =~= s@);
        assert(out.deep_view() =~= Seq::<Seq<char>>::empty());
    }
    while i < n
        invariant
            n == s@.len(),
            i <= n,
            split_from(s@.subrange(i as int, n as int), sep, cur@, out.deep_view())
                == split_char(s@, sep),
        decreases n - i,
    {
        let ghost suffix = s@.subrange(i as int, n as int);
        proof {
            assert(suffix[0] == s@[i as int]);
            assert(suffix.drop_first() =~= s@.subrange(i as int + 1, n as int));
        }
        let ch = s.get_char(i);
        if ch == sep {
            let ghost prev_out = out.deep_view();
            let ghost prev_cur = cur@;
            let t = string_from_chars(&cur);
            out.push(t);
            cur.clear();
            proof {
                assert(out.deep_view() =~= prev_out.push(prev_cur));
            }
        } else {
            cur.push(ch);
        }
        i = i + 1;
    }
    proof {
        assert(s@.subrange(n as int, n as int).len() == 0);
    }
    let ghost prev_out = out.deep_view();
    let ghost prev_cur = cur@;
    let t = string_from_chars(&cur);
    out.push(t);
    proof {
        assert(out.deep_view() =~= prev_out.push(prev_cur));
    }
    out
}

/// A separator-free suffix only extends the pending segment.
pub proof fn lemma_split_from_no_sep(t: Seq<char>, sep: char, cur: Seq<char>, acc: Seq<Seq<char>>)
    requires
        forall|i: int| 0 <= i < t.len() ==> t[i] != sep,
    ensures
        split_from(t, sep, cur, acc) == acc.push(cur + t),
    decreases t.len(),
{
    if t.len() == 0 {
        assert(cur + t =~= cur);
    } else {
        assert(t[0] != sep);
        assert(forall|i: int| 0 <= i < t.drop_first().len() ==> t.drop_first()[i] != sep);
        lemma_split_from_no_sep(t.drop_first(), sep, cur.push(t[0]), acc);
        assert(cur.push(t[0]) + t.drop_first() =~= cur + t);
    }
}

/// Scanning across one separator closes the pending segment there.
pub proof fn lemma_split_from_append_sep(
    a: Seq<char>,
    b: Seq<char>,
    sep: char,
    cur: Seq<char>,
    acc: Seq<Seq<char>>,
)
    ensures
        split_from(a + seq![sep] + b, sep, cur, acc)
            == split_from(b, sep, Seq::empty(), split_from(a, sep, cur, acc)),
    decreases a.len(),
{
    let s = a + seq![sep] + b;
    if a.len() == 0 {
        assert(s[0] == sep);
        assert(s.drop_first() =~= b);
    } else {
        assert(s[0] == a[0]);
        assert(s.drop_first() =~= a.drop_first() + seq![sep] + b);
        if a[0] == sep {
            lemma_split_from_append_sep(a.drop_first(), b, sep, Seq::empty(), acc.push(cur));
        } else {
            lemma_split_from_append_sep(a.drop_first(), b, sep, cur.push(a[0]), acc);
        }
    }
}

/// The whitespace that trimming removes.
pub open spec fn is_blank(c: char) -> bool {
    c == ' ' || c == '\t' || c == '\r' || c == '\n'
}

/// `is_blank` as executable code.
pub fn is_blank_char(c: char) -> (r: bool)
    ensures
        r == is_blank(c),
{
    c == ' ' || c == '\t' || c == '\r' || c == '\n'
}

pub open spec fn trim_left(s: Seq<char>) -> Seq<char>
    decreases s.len(),
{
    if s.len() > 0 && is_blank(s[0]) {
        trim_left(s.drop_first())
    } else {
        s
    }
}

pub open spec fn trim_right(s: Seq<char>) -> Seq<char>
    decreases s.len(),
{
    if s.len() > 0 && is_blank(s[s.len() - 1]) {
        trim_right(s.drop_last())
    } else {
        s
    }
}

/// `s` without leading and trailing whitespace.
pub open spec fn trim_spec(s: Seq<char>) -> Seq<char> {
    trim_right(trim_left(s))
}

/// Remove leading and trailing whitespace.
pub fn trim(s: &str) -> (r: String)
    ensures
        r@ == trim_spec(s@),
{
    let n = s.unicode_len();
    let mut start: usize = 0;
    proof {
        assert(s@.subrange(0, n as int) =~= s@);
    }
    while start < n && is_blank_char(s.get_char(start))
        invariant
            n == s@.len(),
            start <= n,
            trim_left(s@) == trim_left(s@.subrange(start as int, n as int)),
        decreases n - start,
    {
        proof {
            let suffix = s@.subrange(start as int, n as int);
            assert(suffix[0] == s@[start as int]);
            assert(suffix.drop_first() =~= s@.subrange(start as int + 1, n as int));
        }
        start = start + 1;
    }
    proof {
        let suffix = s@.subrange(start as int, n as int);
        if start < n {
            assert(suffix[0] == s@[start as int]);
        }
        assert(trim_left(suffix) == suffix);
    }
    let mut end: usize = n;
    while end > start && is_blank_char(s.get_char(end - 1))
        invariant
            n == s@.len(),
            start <= end <= n,
            trim_spec(s@) == trim_right(s@.subrange(start as int, end as int)),
        decreases end,
    {
        proof {
            let part = s@.subrange(start as int, end as int);
            assert(part[part.len() - 1] == s@[end as int - 1]);
            assert(part.drop_last() =~= s@.subrange(start as int, end as int - 1));
        }
        end = end - 1;
    }
    proof {
        let part = s@.subrange(start as int, end as int);
        if end > start {
            assert(part[part.len() - 1] == s@[end as int - 1]);
        }
        assert(trim_right(part) == part);
    }
    let sub = s.substring_char(start, end);
    sub.to_owned()
}

/// The stages of a line: the text between pipe characters, each stage
/// trimmed of surrounding whitespace.
pub open spec fn pipe_split_spec(s: Seq<char>) -> Seq<Seq<char>> {
    split_char(s, '|').map_values(|t: Seq<char>| trim_spec(t))
}

/// Split a raw line on the pipe character into trimmed stage strings.
pub fn split_pipeline(line: &str) -> (r: Vec<String>)
    ensures
        r.deep_view() == pipe_split_spec(line@),
{
    let parts = split_on(line, '|');
    let mut out: Vec<String> = Vec::new();
    let mut idx: usize = 0;
    while idx < parts.len()
        invariant
            parts.deep_view() == split_char(line@, '|'),
            idx <= parts.len(),
            out.deep_view() =~= pipe_split_spec(line@).subrange(0, idx as int),
        decreases parts.len() - idx,
    {
        let t = trim(parts[idx].as_str());
        let ghost prev = out.deep_view();
        out.push(t);
        proof {
            assert(parts.deep_view()[idx as int] == parts@[idx as int]@);
            assert(out.deep_view() =~= prev.push(t@));
            assert(out.deep_view() =~= pipe_split_spec(line@).subrange(0, idx as int + 1));
        }
        idx = idx + 1;
    }
    proof {
        assert(out.deep_view() =~= pipe_split_spec(line@));
    }
    out
}

/// The interactive prompt: the working directory followed by `> `.
pub fn prompt_for(cwd: &str) -> (r: String)
    ensures
        r@ == cwd@ + "> "@,
{
    let mut s = cwd.to_owned();
    s.append("> ");
    s
}

/// What one submitted interactive line asks for.
#[derive(Debug, Clone, PartialEq, Eq)]
pub enum LineAction {
    /// Nothing but whitespace: ignore it.
    Empty,
    /// The literal line `exit`: leave the interactive loop.
    Exit,
    /// Any other line, trimmed: run it as a pipeline.
    Run(String),
}

/// Classify one submitted interactive line.
pub fn classify_input(line: &str) -> (r: LineAction)
    ensures
        ({
            let t = trim_spec(line@);
            if t.len() == 0 {
                r is Empty
            } else if t == "exit"@ {
                r is Exit
            } else {
                r matches LineAction::Run(cmd) && cmd@ == t
            }
        }),
{
    let t = trim(line);
    if t.as_str().unicode_len() == 0 {
        proof {
            assert(trim_spec(line@).len() == 0);
        }
        LineAction::Empty
    } else if str_eq(t.as_str(), "exit") {
        LineAction::Exit
    } else {
        LineAction::Run(t)
    }
}

/// The line of a startup script to run, if any: blank lines and comment
/// lines whose first non-whitespace character is `#` are skipped, any
/// other line is handed on trimmed.
pub fn rc_line_action(line: &str) -> (r: Option<String>)
    ensures
        ({
            let t = trim_spec(line@);
            if t.len() == 0 || t[0] == '#' {
                r is None
            } else {
                r matches Some(cmd) && cmd@ == t
            }
        }),
{
    let t = trim(line);
    if t.as_str().unicode_len() == 0 {
        None
    } else if t.as_str().get_char(0) == '#' {
        None
    } else {
        Some(t)
    }
}

} // verus!
