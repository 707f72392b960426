//! Turning one pipeline stage's text into a plan: recognize built-ins,
//! take the redirection operators out, and expand wildcard arguments.
//!
//! The scan order follows the command syntax: the output operator `>` is
//! taken out first, then the input operator `<`, each with the token
//! after it as its file; an operator without a following token is a
//! syntax error, as is a stage with no program token left. Built-ins are
//! recognized by their first token before any of that and ignore
//! redirection entirely.

use vstd::prelude::*;

use crate::errors::ShellError;
use crate::globx::expand_globs;
use crate::globx::expansion_of;
use crate::globx::find_bad;
use crate::store::contains_string;
use crate::text::str_eq;
use crate::tokenizer::split_args;
use crate::tokenizer::tokenize_spec;

verus! {

/// A built-in command with its arguments, run in-process.
#[derive(Debug, Clone, PartialEq, Eq)]
pub enum BuiltinCall {
    /// Change the working directory.
    Cd(String),
    /// Print the working directory.
    Pwd,
    /// Add an entry to the PATH store.
    AddToPath { path: String, temporary: bool },
    /// Open the interactive path management view.
    PathTool,
    /// Set variables, or print them all when no argument is given.
    Export(Vec<String>),
}

/// An external command, ready to spawn: program, expanded arguments, and
/// the redirection files taken out of the token list.
#[derive(Debug, Clone, PartialEq, Eq)]
pub struct ExecStage {
    pub program: String,
    pub args: Vec<String>,
    pub stdin_file: Option<String>,
    pub stdout_file: Option<String>,
}

/// What one non-empty pipeline stage asks for.
#[derive(Debug, Clone, PartialEq, Eq)]
pub enum StagePlan {
    Builtin(BuiltinCall),
    Exec(ExecStage),
}

/// The spec-level mirror of a built-in plan.
pub enum BuiltinSpec {
    Cd(Seq<char>),
    Pwd,
    AddToPath { path: Seq<char>, temporary: bool },
    PathTool,
    Export(Seq<Seq<char>>),
}

/// The spec-level mirror of a failure.
pub enum FailSpec {
    Parse,
    Usage(Seq<char>),
    Glob(Seq<char>),
}

/// The spec-level mirror of a stage plan.
pub enum PlanSpec {
    Empty,
    Builtin(BuiltinSpec),
    Exec {
        program: Seq<char>,
        raw_args: Seq<Seq<char>>,
        stdin_file: Option<Seq<char>>,
        stdout_file: Option<Seq<char>>,
    },
    Fail(FailSpec),
}

/// The position of the first token equal to `x`, or -1.
pub open spec fn find_tok(toks: Seq<Seq<char>>, x: Seq<char>) -> int
    decreases toks.len(),
{
    if toks.len() == 0 {
        -1
    } else if toks[0] == x {
        0
    } else {
        let r = find_tok(toks.drop_first(), x);
        if r < 0 {
            -1
        } else {
            r + 1
        }
    }
}

pub proof fn lemma_find_tok(toks: Seq<Seq<char>>, x: Seq<char>)
    ensures
        find_tok(toks, x) == -1 ==> forall|j: int| 0 <= j < toks.len() ==> #[trigger] toks[j] != x,
        find_tok(toks, x) >= 0 ==> 0 <= find_tok(toks, x) < toks.len() && toks[find_tok(toks, x)]
            == x,
        find_tok(toks, x) >= 0 ==> forall|j: int|
            0 <= j < find_tok(toks, x) ==> #[trigger] toks[j] != x,
    decreases toks.len(),
{
    if toks.len() == 0 {
    } else if toks[0] == x {
    } else {
        lemma_find_tok(toks.drop_first(), x);
        let r = find_tok(toks.drop_first(), x);
        if r < 0 {
            assert forall|j: int| 0 <= j < toks.len() implies #[trigger] toks[j] != x by {
                if j > 0 {
                    assert(toks.drop_first()[j - 1] == toks[j]);
                }
            }
        } else {
            assert(toks[r + 1] == toks.drop_first()[r]);
            assert forall|j: int| 0 <= j < r + 1 implies #[trigger] toks[j] != x by {
                if j > 0 {
                    assert(toks.drop_first()[j - 1] == toks[j]);
                }
            }
        }
    }
}

/// The operator stands in the token list without a filename after it.
pub open spec fn redirect_missing(toks: Seq<Seq<char>>, op: Seq<char>) -> bool {
    find_tok(toks, op) >= 0 && find_tok(toks, op) + 1 >= toks.len()
}

/// The tokens left once the operator and everything after it are taken
/// out (unchanged when the operator does not occur).
pub open spec fn redirect_rest(toks: Seq<Seq<char>>, op: Seq<char>) -> Seq<Seq<char>> {
    let p = find_tok(toks, op);
    if p >= 0 && p + 1 < toks.len() {
        toks.take(p)
    } else {
        toks
    }
}

/// The file named after the operator, if any.
pub open spec fn redirect_file(toks: Seq<Seq<char>>, op: Seq<char>) -> Option<Seq<char>> {
    let p = find_tok(toks, op);
    if p >= 0 && p + 1 < toks.len() {
        Some(toks[p + 1])
    } else {
        None
    }
}

/// What a stage with these tokens asks for.
pub open spec fn plan_spec(toks: Seq<Seq<char>>) -> PlanSpec {
    if toks.len() == 0 {
        PlanSpec::Empty
    } else if toks[0] == "cd"@ {
        if toks.len() > 1 {
            PlanSpec::Builtin(BuiltinSpec::Cd(toks[1]))
        } else {
            PlanSpec::Fail(FailSpec::Usage("cd"@))
        }
    } else if toks[0] == "pwd"@ {
        PlanSpec::Builtin(BuiltinSpec::Pwd)
    } else if toks[0] == "addToPath"@ {
        if toks.len() > 1 {
            PlanSpec::Builtin(
                BuiltinSpec::AddToPath { path: toks[1], temporary: toks.contains("--temp"@) },
            )
        } else {
            PlanSpec::Fail(FailSpec::Usage("addToPath"@))
        }
    } else if toks[0] == "pathTool"@ {
        PlanSpec::Builtin(BuiltinSpec::PathTool)
    } else if toks[0] == "export"@ {
        PlanSpec::Builtin(BuiltinSpec::Export(toks.skip(1)))
    } else {
        if redirect_missing(toks, ">"@) {
            PlanSpec::Fail(FailSpec::Parse)
        } else {
            let t1 = redirect_rest(toks, ">"@);
            if redirect_missing(t1, "<"@) {
                PlanSpec::Fail(FailSpec::Parse)
            } else {
                let t2 = redirect_rest(t1, "<"@);
                if t2.len() == 0 {
                    PlanSpec::Fail(FailSpec::Parse)
                } else {
                    let raw = t2.skip(1);
                    if find_bad(raw) >= 0 {
                        PlanSpec::Fail(FailSpec::Glob(raw[find_bad(raw)]))
                    } else {
                        PlanSpec::Exec {
                            program: t2[0],
                            raw_args: raw,
                            stdin_file: redirect_file(t1, "<"@),
                            stdout_file: redirect_file(toks, ">"@),
                        }
                    }
                }
            }
        }
    }
}

/// The executable built-in plan carries the values its spec mirror names.
pub open spec fn builtin_matches(bc: BuiltinCall, b: BuiltinSpec) -> bool {
    match (bc, b) {
        (BuiltinCall::Cd(p), BuiltinSpec::Cd(ps)) => p@ == ps,
        (BuiltinCall::Pwd, BuiltinSpec::Pwd) => true,
        (
            BuiltinCall::AddToPath { path, temporary },
            BuiltinSpec::AddToPath { path: ps, temporary: ts },
        ) => path@ == ps && temporary == ts,
        (BuiltinCall::PathTool, BuiltinSpec::PathTool) => true,
        (BuiltinCall::Export(args), BuiltinSpec::Export(aspec)) => args.deep_view() == aspec,
        _ => false,
    }
}

/// The returned error carries the values its spec mirror names.
pub open spec fn fail_matches(e: ShellError, f: FailSpec) -> bool {
    match (e, f) {
        (ShellError::Parse, FailSpec::Parse) => true,
        (ShellError::Usage { builtin }, FailSpec::Usage(b)) => builtin@ == b,
        (ShellError::Glob { pattern }, FailSpec::Glob(p)) => pattern@ == p,
        _ => false,
    }
}

/// The tokens after the first.
pub fn tail_strings(v: &Vec<String>) -> (r: Vec<String>)
    requires
        v@.len() >= 1,
    ensures
        r.deep_view() == v.deep_view().skip(1),
{
    let mut out: Vec<String> = Vec::new();
    let mut i: usize = 1;
    proof {
        assert(out.deep_view() =~= v.deep_view().subrange(1, 1));
    }
    while i < v.len()
        invariant
            1 <= i <= v@.len(),
            out.deep_view() =~= v.deep_view().subrange(1, i as int),
        decreases v@.len() - i,
    {
        let ghost prev = out.deep_view();
        out.push(v[i].clone());
        proof {
            assert(v.deep_view()[i as int] == v@[i as int]@);
            assert(out.deep_view() =~= prev.push(v.deep_view()[i as int]));
            assert(out.deep_view() =~= v.deep_view().subrange(1, i as int + 1));
        }
        i = i + 1;
    }
    proof {
        assert(v.deep_view().subrange(1, v@.len() as int) =~= v.deep_view().skip(1));
    }
    out
}

/// The position of the first token equal to `op`.
fn find_token(toks: &Vec<String>, op: &str) -> (r: Option<usize>)
    ensures
        match r {
            Some(i) => find_tok(toks.deep_view(), op@) == i,
            None => find_tok(toks.deep_view(), op@) == -1,
        },
{
    let ghost toks0 = toks.deep_view();
    let mut i: usize = 0;
    while i < toks.len()
        invariant
            toks0 == toks.deep_view(),
            i <= toks@.len(),
            forall|j: int| 0 <= j < i ==> #[trigger] toks0[j] != op@,
        decreases toks@.len() - i,
    {
        proof {
            assert(toks0[i as int] == toks@[i as int]@);
        }
        if str_eq(toks[i].as_str(), op) {
            proof {
                lemma_find_tok(toks0, op@);
                let p = find_tok(toks0, op@);
                if p < 0 {
                    assert(toks0[i as int] != op@);
                }
                if p < i {
                    assert(toks0[p] != op@);
                }
                if p > i {
                    assert(toks0[i as int] != op@);
                }
                assert(p == i);
            }
            return Some(i);
        }
        i = i + 1;
    }
    proof {
        lemma_find_tok(toks0, op@);
        let p = find_tok(toks0, op@);
        if p >= 0 {
            assert(toks0[p] != op@);
        }
    }
    None
}

/// Take one redirection operator and its file out of the token list.
fn take_redirect(toks: Vec<String>, op: &str) -> (r: Result<
    (Vec<String>, Option<String>),
    ShellError,
>)
    ensures
        (r is Err) == redirect_missing(toks.deep_view(), op@),
        r matches Err(e) ==> e matches ShellError::Parse,
        r matches Ok(p) ==> p.0.deep_view() == redirect_rest(toks.deep_view(), op@)
            && p.1.deep_view() == redirect_file(toks.deep_view(), op@),
{
    let ghost toks0 = toks.deep_view();
    match find_token(&toks, op) {
        Some(i) => {
            let n = toks.len();
            proof {
                lemma_find_tok(toks0, op@);
                assert(toks0.len() == toks@.len());
                assert(i < n);
            }
            if i + 1 < n {
                let f = toks[i + 1].clone();
                proof {
                    assert(toks0[i as int + 1] == toks@[i as int + 1]@);
                }
                let mut kept = toks;
                kept.truncate(i);
                proof {
                    assert(!redirect_missing(toks0, op@));
                    assert(redirect_rest(toks0, op@) == toks0.take(i as int));
                    assert(kept.deep_view() =~= toks0.take(i as int));
                    assert(redirect_file(toks0, op@) == Some(toks0[i as int + 1]));
                    assert(f@ == toks0[i as int + 1]);
                    assert(Option::Some(f).deep_view() == redirect_file(toks0, op@));
                }
                Ok((kept, Some(f)))
            } else {
                proof {
                    assert(redirect_missing(toks0, op@));
                }
                Err(ShellError::Parse)
            }
        },
        None => {
            proof {
                assert(!redirect_missing(toks0, op@));
                assert(redirect_rest(toks0, op@) == toks0);
                assert(redirect_file(toks0, op@) is None);
            }
            Ok((toks, None))
        },
    }
}

/// Plan one pipeline stage. `Ok(None)` is an empty stage (skipped);
/// otherwise the stage is a built-in call or an external command with
/// its redirections resolved and its wildcard arguments expanded.
pub fn plan_stage(segment: &str) -> (r: Result<Option<StagePlan>, ShellError>)
    ensures
        ({
            let p = plan_spec(tokenize_spec(segment@));
            match p {
                PlanSpec::Empty => r matches Ok(None),
                PlanSpec::Builtin(b) => r matches Ok(Some(sp)) && sp matches StagePlan::Builtin(bc)
                    && builtin_matches(bc, b),
                PlanSpec::Exec { program, raw_args, stdin_file, stdout_file } => r matches Ok(
                    Some(sp),
                ) && sp matches StagePlan::Exec(es) && es.program@ == program
                    && es.stdin_file.deep_view() == stdin_file && es.stdout_file.deep_view()
                    == stdout_file && expansion_of(raw_args, es.args.deep_view()),
                PlanSpec::Fail(f) => r matches Err(e) && fail_matches(e, f),
            }
        }),
{
    let toks = split_args(segment);
    let ghost toks0 = toks.deep_view();
    if toks.len() == 0 {
        return Ok(None);
    }
    proof {
        assert(toks0[0] == toks@[0]@);
    }
    if str_eq(toks[0].as_str(), "cd") {
        if toks.len() > 1 {
            proof {
                assert(toks0[1] == toks@[1]@);
            }
            return Ok(Some(StagePlan::Builtin(BuiltinCall::Cd(toks[1].clone()))));
        } else {
            return Err(ShellError::Usage { builtin: toks[0].clone() });
        }
    }
    if str_eq(toks[0].as_str(), "pwd") {
        return Ok(Some(StagePlan::Builtin(BuiltinCall::Pwd)));
    }
    if str_eq(toks[0].as_str(), "addToPath") {
        if toks.len() > 1 {
            let temporary = contains_string(&toks, "--temp");
            proof {
                assert(toks0[1] == toks@[1]@);
            }
            return Ok(
                Some(
                    StagePlan::Builtin(BuiltinCall::AddToPath { path: toks[1].clone(), temporary }),
                ),
            );
        } else {
            return Err(ShellError::Usage { builtin: toks[0].clone() });
        }
    }
    if str_eq(toks[0].as_str(), "pathTool") {
        return Ok(Some(StagePlan::Builtin(BuiltinCall::PathTool)));
    }
    if str_eq(toks[0].as_str(), "export") {
        let rest = tail_strings(&toks);
        return Ok(Some(StagePlan::Builtin(BuiltinCall::Export(rest))));
    }
    let (t1, stdout_file) = match take_redirect(toks, ">") {
        Ok(p) => p,
        Err(e) => {
            return Err(e);
        },
    };
    let (t2, stdin_file) = match take_redirect(t1, "<") {
        Ok(p) => p,
        Err(e) => {
            return Err(e);
        },
    };
    if t2.len() == 0 {
        return Err(ShellError::Parse);
    }
    proof {
        assert(t2.deep_view()[0] == t2@[0]@);
    }
    let program = t2[0].clone();
    let rest = tail_strings(&t2);
    match expand_globs(rest) {
        Ok(args) => Ok(
            Some(StagePlan::Exec(ExecStage { program, args, stdin_file, stdout_file })),
        ),
        Err(e) => Err(e),
    }
}

/// The position of the first `c` in `s`, or -1.
pub open spec fn find_ch(s: Seq<char>, c: char) -> int
    decreases s.len(),
{
    if s.len() == 0 {
        -1
    } else if s[0] == c {
        0
    } else {
        let r = find_ch(s.drop_first(), c);
        if r < 0 {
            -1
        } else {
            r + 1
        }
    }
}

pub proof fn lemma_find_ch(s: Seq<char>, c: char)
    ensures
        find_ch(s, c) == -1 ==> forall|j: int| 0 <= j < s.len() ==> s[j] != c,
        find_ch(s, c) >= 0 ==> 0 <= find_ch(s, c) < s.len() && s[find_ch(s, c)] == c,
        find_ch(s, c) >= 0 ==> forall|j: int| 0 <= j < find_ch(s, c) ==> s[j] != c,
    decreases s.len(),
{
    if s.len() == 0 {
    } else if s[0] == c {
    } else {
        lemma_find_ch(s.drop_first(), c);
        let r = find_ch(s.drop_first(), c);
        if r < 0 {
            assert forall|j: int| 0 <= j < s.len() implies s[j] != c by {
                if j > 0 {
                    assert(s.drop_first()[j - 1] == s[j]);
                }
            }
        } else {
            assert(s[r + 1] == s.drop_first()[r]);
            assert forall|j: int| 0 <= j < r + 1 implies s[j] != c by {
                if j > 0 {
                    assert(s.drop_first()[j - 1] == s[j]);
                }
            }
        }
    }
}

/// Split one `export` argument at its first `=` into name and value;
/// a token without `=` is malformed.
pub fn parse_assignment(token: &str) -> (r: Option<(String, String)>)
    ensures
        ({
            let s = token@;
            let p = find_ch(s, '=');
            if p < 0 {
                r is None
            } else {
                r matches Some(kv) && kv.0@ == s.take(p) && kv.1@ == s.skip(p + 1)
            }
        }),
{
    let n = token.unicode_len();
    let mut i: usize = 0;
    while i < n
        invariant
            n == token@.len(),
            i <= n,
            forall|j: int| 0 <= j < i ==> token@[j] != '=',
        decreases n - i,
    {
        if token.get_char(i) == '=' {
            proof {
                lemma_find_ch(token@, '=');
                let p = find_ch(token@, '=');
                if p < 0 {
                    assert(token@[i as int] != '=');
                }
                if p < i {
                    assert(token@[p] != '=');
                }
                if p > i {
                    assert(token@[i as int] != '=');
                }
                assert(p == i);
            }
            let k = token.substring_char(0, i).to_owned();
            let v = token.substring_char(i + 1, n).to_owned();
            proof {
                assert(token@.subrange(0, i as int) =~= token@.take(i as int));
                assert(token@.subrange(i as int + 1, n as int) =~= token@.skip(i as int + 1));
            }
            return Some((k, v));
        }
        i = i + 1;
    }
    proof {
        lemma_find_ch(token@, '=');
        let p = find_ch(token@, '=');
        if p >= 0 {
            assert(token@[p] != '=');
        }
    }
    None
}

} // verus!
