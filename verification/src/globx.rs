//! Wildcard expansion of argument tokens against the filesystem.
//!
//! A token containing `*` or `?` is replaced by the paths the pattern
//! matches (none at all when nothing matches: the literal pattern is
//! dropped, not passed through); any other token passes through
//! unchanged. Which paths match depends on the filesystem, so the
//! contract pins the shape of the result — position and identity of the
//! pass-through tokens — and pins failure exactly to the first wildcard
//! token whose pattern does not compile.

use vstd::prelude::*;

use crate::errors::ShellError;

verus! {

/// Whether the tokenizer's output asks for filesystem matching.
pub open spec fn has_wildcard(t: Seq<char>) -> bool {
    exists|i: int| 0 <= i < t.len() && ((t[i] == '*') || (t[i] == '?'))
}

/// A wildcard token whose pattern does not compile.
pub open spec fn bad_pattern(t: Seq<char>) -> bool {
    has_wildcard(t) && !glob_pattern_ok(t)
}

/// The position of the first token that fails to compile, or -1.
pub open spec fn find_bad(toks: Seq<Seq<char>>) -> int
    decreases toks.len(),
{
    if toks.len() == 0 {
        -1
    } else if bad_pattern(toks[0]) {
        0
    } else {
        let r = find_bad(toks.drop_first());
        if r < 0 {
            -1
        } else {
            r + 1
        }
    }
}

pub proof fn lemma_find_bad(toks: Seq<Seq<char>>)
    ensures
        find_bad(toks) == -1 ==> forall|j: int| 0 <= j < toks.len() ==> !bad_pattern(#[trigger] toks[j]),
        find_bad(toks) >= 0 ==> 0 <= find_bad(toks) < toks.len() && bad_pattern(
            toks[find_bad(toks)],
        ),
        find_bad(toks) >= 0 ==> forall|j: int|
            0 <= j < find_bad(toks) ==> !bad_pattern(#[trigger] toks[j]),
    decreases toks.len(),
{
    if toks.len() == 0 {
    } else if bad_pattern(toks[0]) {
    } else {
        lemma_find_bad(toks.drop_first());
        let r = find_bad(toks.drop_first());
        if r < 0 {
            assert forall|j: int| 0 <= j < toks.len() implies !bad_pattern(#[trigger] toks[j]) by {
                if j > 0 {
                    assert(toks.drop_first()[j - 1] == toks[j]);
                    assert(!bad_pattern(toks.drop_first()[j - 1]));
                }
            }
        } else {
            assert(find_bad(toks) == r + 1);
            assert(toks[r + 1] == toks.drop_first()[r]);
            assert forall|j: int| 0 <= j < r + 1 implies !bad_pattern(#[trigger] toks[j]) by {
                if j > 0 {
                    assert(toks.drop_first()[j - 1] == toks[j]);
                    assert(!bad_pattern(toks.drop_first()[j - 1]));
                }
            }
        }
    }
}

/// Whether `t` holds a wildcard character.
pub fn token_has_wildcard(t: &str) -> (r: bool)
    ensures
        r == has_wildcard(t@),
{
    let n = t.unicode_len();
    let mut i: usize = 0;
    while i < n
        invariant
            n == t@.len(),
            i <= n,
            forall|j: int| 0 <= j < i ==> t@[j] != '*' && t@[j] != '?',
        decreases n - i,
    {
        let c = t.get_char(i);
        if c == '*' || c == '?' {
            proof {
                assert(has_wildcard(t@));
            }
            return true;
        }
        i = i + 1;
    }
    proof {
        if has_wildcard(t@) {
            let j = choose|j: int| 0 <= j < t@.len() && ((t@[j] == '*') || (t@[j] == '?'));
            assert(t@[j] != '*' && t@[j] != '?');
        }
    }
    false
}

/// Whether the pattern compiles; compiling is a function of the pattern
/// string alone.
pub uninterp spec fn glob_pattern_ok(p: Seq<char>) -> bool;

/// Relies on `glob::glob`: it returns an error exactly when compiling the
/// pattern fails, and compiling depends on the pattern string alone.
/// Which paths come back depends on the filesystem, so nothing is claimed
/// of them.
#[verifier::external_body]
fn glob_matches(pattern: &str) -> (r: Option<Vec<String>>)
    ensures
        (r is Some) <==> glob_pattern_ok(pattern@),
{
    match glob::glob(pattern) {
        Ok(paths) => Some(
            paths.filter_map(Result::ok).map(|p| p.to_string_lossy().to_string()).collect(),
        ),
        Err(_) => None,
    }
}

/// The concatenation of the per-token match lists.
pub open spec fn concat_all(parts: Seq<Seq<Seq<char>>>) -> Seq<Seq<char>>
    decreases parts.len(),
{
    if parts.len() == 0 {
        Seq::empty()
    } else {
        concat_all(parts.drop_last()) + parts.last()
    }
}

/// `out` arises from `toks` by replacing each wildcard token with some
/// list of paths and keeping every other token in place.
pub open spec fn expansion_parts(
    toks: Seq<Seq<char>>,
    parts: Seq<Seq<Seq<char>>>,
    out: Seq<Seq<char>>,
) -> bool {
    parts.len() == toks.len() && out == concat_all(parts) && (forall|i: int|
        0 <= i < toks.len() && !has_wildcard(#[trigger] toks[i]) ==> parts[i] == seq![toks[i]])
}

pub open spec fn expansion_of(toks: Seq<Seq<char>>, out: Seq<Seq<char>>) -> bool {
    exists|parts: Seq<Seq<Seq<char>>>| expansion_parts(toks, parts, out)
}

proof fn lemma_concat_all_push(parts: Seq<Seq<Seq<char>>>, p: Seq<Seq<char>>)
    ensures
        concat_all(parts.push(p)) == concat_all(parts) + p,
{
    assert(parts.push(p).drop_last() =~= parts);
    assert(parts.push(p).last() == p);
}

/// Expand every wildcard token of `args` against the filesystem; tokens
/// without wildcards pass through unchanged, in order. Fails exactly when
/// some wildcard token's pattern does not compile, naming the first such
/// pattern.
pub fn expand_globs(args: Vec<String>) -> (r: Result<Vec<String>, ShellError>)
    ensures
        (r is Err) <==> find_bad(args.deep_view()) >= 0,
        (match r {
            Ok(out) => expansion_of(args.deep_view(), out.deep_view()),
            Err(e) => ({
                let toks = args.deep_view();
                e matches ShellError::Glob { pattern } && pattern@ == toks[find_bad(toks)]
            }),
        }),
{
    let ghost toks = args.deep_view();
    let mut out: Vec<String> = Vec::new();
    let ghost mut parts: Seq<Seq<Seq<char>>> = Seq::empty();
    let mut i: usize = 0;
    proof {
        assert(out.deep_view() =~= concat_all(parts));
    }
    while i < args.len()
        invariant
            toks == args.deep_view(),
            i <= args@.len(),
            parts.len() == i,
            out.deep_view() == concat_all(parts),
            forall|j: int|
                0 <= j < i && !has_wildcard(#[trigger] toks[j]) ==> parts[j] == seq![toks[j]],
            forall|j: int| 0 <= j < i ==> !bad_pattern(#[trigger] toks[j]),
        decreases args@.len() - i,
    {
        proof {
            assert(toks[i as int] == args@[i as int]@);
        }
        if token_has_wildcard(args[i].as_str()) {
            match glob_matches(args[i].as_str()) {
                Some(mut v) => {
                    let ghost prev_out = out.deep_view();
                    let ghost part = v.deep_view();
                    out.append(&mut v);
                    proof {
                        let prev_parts = parts;
                        parts = prev_parts.push(part);
                        lemma_concat_all_push(prev_parts, part);
                        assert(out.deep_view() =~= prev_out + part);
                        assert(out.deep_view() == concat_all(parts));
                    }
                },
                None => {
                    let p = args[i].clone();
                    proof {
                        lemma_find_bad(toks);
                        assert(bad_pattern(toks[i as int]));
                        if find_bad(toks) < 0 {
                            assert(!bad_pattern(toks[i as int]));
                        }
                        if find_bad(toks) < i {
                            assert(!bad_pattern(toks[find_bad(toks)]));
                        }
                        if find_bad(toks) > i {
                            assert(!bad_pattern(toks[i as int]));
                        }
                        assert(find_bad(toks) == i);
                    }
                    return Err(ShellError::Glob { pattern: p });
                },
            }
        } else {
            let ghost prev_out = out.deep_view();
            out.push(args[i].clone());
            proof {
                let prev_parts = parts;
                parts = prev_parts.push(seq![toks[i as int]]);
                lemma_concat_all_push(prev_parts, seq![toks[i as int]]);
                assert(out.deep_view() =~= prev_out + seq![toks[i as int]]);
                assert(out.deep_view() == concat_all(parts));
            }
        }
        i = i + 1;
    }
    proof {
        lemma_find_bad(toks);
        if find_bad(toks) >= 0 {
            assert(!bad_pattern(toks[find_bad(toks)]));
        }
        assert(expansion_parts(toks, parts, out.deep_view()));
    }
    Ok(out)
}

} // verus!
