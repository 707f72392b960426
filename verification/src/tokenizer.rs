//! Quote-aware splitting of one input line into argument tokens.
//!
//! A single quote toggles single-quote mode unless double-quote mode is
//! active, and vice versa; quote characters are consumed, never copied; an
//! unquoted space ends the current token; runs of unquoted spaces collapse
//! and no empty token is ever produced. Unterminated quotes are tolerated:
//! the token closes with whatever was accumulated.

use vstd::prelude::*;

use crate::text::string_from_chars;

verus! {

/// Close the scan: a pending partial token joins the output only if it is
/// non-empty.
pub open spec fn tok_finish(cur: Seq<char>, acc: Seq<Seq<char>>) -> Seq<Seq<char>> {
    if cur.len() == 0 {
        acc
    } else {
        acc.push(cur)
    }
}

/// The tokenizer as a left-to-right state machine over the characters of
/// `s` from position `i`, carrying the two quote flags, the partial token
/// `cur` and the tokens `acc` already produced.
pub open spec fn tok_rec(
    s: Seq<char>,
    i: int,
    in_single: bool,
    in_double: bool,
    cur: Seq<char>,
    acc: Seq<Seq<char>>,
) -> Seq<Seq<char>>
    decreases s.len() - i,
{
    if i < 0 || i >= s.len() {
        tok_finish(cur, acc)
    } else {
        let ch = s[i];
        if ch == '\'' && !in_double {
            tok_rec(s, i + 1, !in_single, in_double, cur, acc)
        } else if ch == '"' && !in_single {
            tok_rec(s, i + 1, in_single, !in_double, cur, acc)
        } else if ch == ' ' && !in_single && !in_double {
            tok_rec(s, i + 1, in_single, in_double, Seq::empty(), tok_finish(cur, acc))
        } else {
            tok_rec(s, i + 1, in_single, in_double, cur.push(ch), acc)
        }
    }
}

/// The token sequence of one input line.
pub open spec fn tokenize_spec(s: Seq<char>) -> Seq<Seq<char>> {
    tok_rec(s, 0, false, false, Seq::empty(), Seq::empty())
}

/// The pair of quote flags after scanning `s` from position `i`.
pub open spec fn quote_scan(s: Seq<char>, i: int, in_single: bool, in_double: bool) -> (
    bool,
    bool,
)
    decreases s.len() - i,
{
    if i < 0 || i >= s.len() {
        (in_single, in_double)
    } else if s[i] == '\'' && !in_double {
        quote_scan(s, i + 1, !in_single, in_double)
    } else if s[i] == '"' && !in_single {
        quote_scan(s, i + 1, in_single, !in_double)
    } else {
        quote_scan(s, i + 1, in_single, in_double)
    }
}

/// Both quote modes are closed again at the end of the line.
pub open spec fn balanced_quotes(s: Seq<char>) -> bool {
    quote_scan(s, 0, false, false) == (false, false)
}

/// Split `input` into argument tokens, honoring single and double quotes.
pub fn split_args(input: &str) -> (tokens: Vec<String>)
    ensures
        tokens.deep_view() == tokenize_spec(input@),
{
    let n = input.unicode_len();
    let mut i: usize = 0;
    let mut in_single = false;
    let mut in_double = false;
    let mut cur: Vec<char> = Vec::new();
    let mut out: Vec<String> = Vec::new();
    proof {
        assert(cur@ =~= Seq::<char>::empty());
        assert(out.deep_view() =~= Seq::<Seq<char>>::empty());
    }
    while i < n
        invariant
            n == input@.len(),
            i <= n,
            tok_rec(input@, i as int, in_single, in_double, cur@, out.deep_view())
                == tokenize_spec(input@),
        decreases n - i,
    {
        let ch = input.get_char(i);
        if ch == '\'' && !in_double {
            in_single = !in_single;
        } else if ch == '"' && !in_single {
            in_double = !in_double;
        } else if ch == ' ' && !in_single && !in_double {
            if cur.len() > 0 {
                let ghost prev_out = out.deep_view();
                let ghost prev_cur = cur@;
                let t = string_from_chars(&cur);
                out.push(t);
                cur.clear();
                proof {
                    assert(out.deep_view() =~= prev_out.push(prev_cur));
                    assert(cur@ =~= Seq::<char>::empty());
                }
            } else {
                proof {
                    assert(cur@ =~= Seq::<char>::empty());
                }
            }
        } else {
            cur.push(ch);
        }
        i = i + 1;
    }
    if cur.len() > 0 {
        let ghost prev_out = out.deep_view();
        let ghost prev_cur = cur@;
        let t = string_from_chars(&cur);
        out.push(t);
        proof {
            assert(out.deep_view() =~= prev_out.push(prev_cur));
        }
    }
    out
}

/// A character that carries no meaning for the tokenizer.
pub open spec fn plain_char(c: char) -> bool {
    c != ' ' && c != '\'' && c != '"'
}

/// A token free of spaces and of both quote characters.
pub open spec fn plain_token(t: Seq<char>) -> bool {
    forall|j: int| 0 <= j < t.len() ==> plain_char(t[j])
}

/// The tokens rejoined with a single space between them.
pub open spec fn join_spaced(toks: Seq<Seq<char>>) -> Seq<char>
    decreases toks.len(),
{
    if toks.len() == 0 {
        Seq::empty()
    } else if toks.len() == 1 {
        toks[0]
    } else {
        toks[0] + seq![' '] + join_spaced(toks.drop_first())
    }
}

proof fn lemma_finish_nonempty(cur: Seq<char>, acc: Seq<Seq<char>>)
    requires
        forall|j: int| 0 <= j < acc.len() ==> acc[j].len() > 0,
    ensures
        forall|j: int| 0 <= j < tok_finish(cur, acc).len() ==> tok_finish(cur, acc)[j].len() > 0,
{
    if cur.len() == 0 {
    } else {
        assert forall|j: int|
            0 <= j < tok_finish(cur, acc).len() implies tok_finish(cur, acc)[j].len() > 0 by {
            assert(tok_finish(cur, acc) == acc.push(cur));
            if j < acc.len() {
                assert(acc.push(cur)[j] == acc[j]);
            } else {
                assert(acc.push(cur)[j] == cur);
            }
        }
    }
}

proof fn lemma_tok_rec_nonempty(
    s: Seq<char>,
    i: int,
    in_single: bool,
    in_double: bool,
    cur: Seq<char>,
    acc: Seq<Seq<char>>,
)
    requires
        forall|j: int| 0 <= j < acc.len() ==> acc[j].len() > 0,
    ensures
        forall|j: int|
            0 <= j < tok_rec(s, i, in_single, in_double, cur, acc).len()
                ==> tok_rec(s, i, in_single, in_double, cur, acc)[j].len() > 0,
    decreases s.len() - i,
{
    if i < 0 || i >= s.len() {
        lemma_finish_nonempty(cur, acc);
        assert(tok_rec(s, i, in_single, in_double, cur, acc) == tok_finish(cur, acc));
    } else {
        let ch = s[i];
        if ch == '\'' && !in_double {
            lemma_tok_rec_nonempty(s, i + 1, !in_single, in_double, cur, acc);
            assert(tok_rec(s, i, in_single, in_double, cur, acc)
                == tok_rec(s, i + 1, !in_single, in_double, cur, acc));
        } else if ch == '"' && !in_single {
            lemma_tok_rec_nonempty(s, i + 1, in_single, !in_double, cur, acc);
            assert(tok_rec(s, i, in_single, in_double, cur, acc)
                == tok_rec(s, i + 1, in_single, !in_double, cur, acc));
        } else if ch == ' ' && !in_single && !in_double {
            lemma_finish_nonempty(cur, acc);
            lemma_tok_rec_nonempty(s, i + 1, in_single, in_double, Seq::empty(), tok_finish(cur, acc));
            assert(tok_rec(s, i, in_single, in_double, cur, acc)
                == tok_rec(s, i + 1, in_single, in_double, Seq::empty(), tok_finish(cur, acc)));
        } else {
            lemma_tok_rec_nonempty(s, i + 1, in_single, in_double, cur.push(ch), acc);
            assert(tok_rec(s, i, in_single, in_double, cur, acc)
                == tok_rec(s, i + 1, in_single, in_double, cur.push(ch), acc));
        }
    }
}

/// No token of any input line is empty.
pub proof fn lemma_tokens_nonempty(s: Seq<char>)
    ensures
        forall|i: int| 0 <= i < tokenize_spec(s).len() ==> tokenize_spec(s)[i].len() > 0,
{
    lemma_tok_rec_nonempty(s, 0, false, false, Seq::empty(), Seq::empty());
}

proof fn lemma_tok_consume_plain(
    s: Seq<char>,
    i: int,
    k: int,
    cur: Seq<char>,
    acc: Seq<Seq<char>>,
)
    requires
        0 <= i,
        0 <= k,
        i + k <= s.len(),
        forall|j: int| i <= j < i + k ==> plain_char(s[j]),
    ensures
        tok_rec(s, i, false, false, cur, acc)
            == tok_rec(s, i + k, false, false, cur + s.subrange(i, i + k), acc),
    decreases k,
{
    if k == 0 {
        assert(cur + s.subrange(i, i) =~= cur);
    } else {
        assert(plain_char(s[i]));
        lemma_tok_consume_plain(s, i + 1, k - 1, cur.push(s[i]), acc);
        assert(cur.push(s[i]) + s.subrange(i + 1, i + k) =~= cur + s.subrange(i, i + k));
    }
}

proof fn lemma_tok_of_join(s: Seq<char>, i: int, toks: Seq<Seq<char>>, acc: Seq<Seq<char>>)
    requires
        0 <= i <= s.len(),
        s.subrange(i, s.len() as int) == join_spaced(toks),
        forall|j: int|
            0 <= j < toks.len() ==> (#[trigger] toks[j]).len() > 0 && plain_token(toks[j]),
    ensures
        tok_rec(s, i, false, false, Seq::empty(), acc) == acc + toks,
    decreases toks.len(),
{
    let suffix = s.subrange(i, s.len() as int);
    if toks.len() == 0 {
        assert(suffix.len() == 0);
        assert(i == s.len());
        assert(acc + toks =~= acc);
    } else {
        let w = toks[0];
        let k = w.len() as int;
        assert(plain_token(w));
        if toks.len() == 1 {
            assert(join_spaced(toks) == w);
            assert(suffix == w);
            assert(i + k == s.len());
            assert(s.subrange(i, i + k) == suffix);
            assert forall|j: int| i <= j < i + k implies plain_char(s[j]) by {
                assert(s[j] == suffix[j - i]);
                assert(plain_char(w[j - i]));
            }
            lemma_tok_consume_plain(s, i, k, Seq::empty(), acc);
            assert(Seq::<char>::empty() + s.subrange(i, i + k) =~= w);
            assert(tok_rec(s, i + k, false, false, w, acc) == tok_finish(w, acc));
            assert(acc.push(w) =~= acc + toks);
        } else {
            let rest = toks.drop_first();
            assert(join_spaced(toks) == w + seq![' '] + join_spaced(rest));
            assert forall|j: int| i <= j < i + k implies plain_char(s[j]) by {
                assert(s[j] == suffix[j - i]);
                assert(suffix[j - i] == w[j - i]);
                assert(plain_char(w[j - i]));
            }
            lemma_tok_consume_plain(s, i, k, Seq::empty(), acc);
            assert(s.subrange(i, i + k) =~= suffix.subrange(0, k));
            assert(suffix.subrange(0, k) =~= w);
            assert(Seq::<char>::empty() + s.subrange(i, i + k) =~= w);
            assert(s[i + k] == suffix[k]);
            assert(suffix[k] == ' ');
            assert(i + k < s.len());
            assert(tok_rec(s, i + k, false, false, w, acc)
                == tok_rec(s, i + k + 1, false, false, Seq::empty(), tok_finish(w, acc)));
            assert(tok_finish(w, acc) == acc.push(w));
            assert(s.subrange(i + k + 1, s.len() as int)
                =~= suffix.subrange(k + 1, suffix.len() as int));
            assert(suffix.subrange(k + 1, suffix.len() as int) =~= join_spaced(rest));
            lemma_tok_of_join(s, i + k + 1, rest, acc.push(w));
            assert(acc.push(w) + rest =~= acc + toks);
        }
    }
}

/// Rejoining the tokens of a line with single spaces and tokenizing again
/// gives the same tokens, provided the line's quotes are balanced and no
/// token carries a space or a quote character of its own.
///
/// The proviso is needed: a quoted region can place a space or the other
/// quote character inside a token, and such a token does not survive the
/// whitespace-only reconstruction.
pub proof fn lemma_tokenize_rejoin(s: Seq<char>)
    requires
        balanced_quotes(s),
        forall|i: int|
            0 <= i < tokenize_spec(s).len() ==> plain_token(#[trigger] tokenize_spec(s)[i]),
    ensures
        tokenize_spec(join_spaced(tokenize_spec(s))) == tokenize_spec(s),
{
    let toks = tokenize_spec(s);
    lemma_tokens_nonempty(s);
    let j = join_spaced(toks);
    if toks.len() == 0 {
        assert(j.len() == 0);
        assert(tokenize_spec(j) =~= toks);
    } else {
        assert(j.subrange(0, j.len() as int) =~= j);
        lemma_tok_of_join(j, 0, toks, Seq::empty());
        assert(Seq::<Seq<char>>::empty() + toks =~= toks);
    }
}

} // verus!
