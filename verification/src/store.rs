//! The shell's explicit state: working directory, environment map and the
//! persisted PATH entry list, with the PATH store operations over it.
//!
//! A user-supplied entry is persisted literally; the entry actually added
//! to the executable-search variable is its resolved form: the parent
//! directory when the entry names a file, the entry itself when it names a
//! directory, and the literal value (with a warning) when it names nothing
//! on disk.

use vstd::prelude::*;

use crate::lines::lemma_split_from_append_sep;
use crate::lines::lemma_split_from_no_sep;
use crate::lines::split_char;
use crate::lines::split_from;
use crate::lines::split_on;
use crate::text::str_eq;

verus! {

/// What the filesystem shows for a user-supplied path string.
#[derive(Clone, Copy, PartialEq, Eq, Structural, Debug)]
pub enum EntryKind {
    File,
    Directory,
    Missing,
}

/// The process-wide mutable state of the shell, held as a plain value so
/// that every operation on it can be stated and checked in isolation.
pub struct ShellState {
    /// The working directory.
    pub cwd: String,
    /// The environment, as an association list; the search variable lives
    /// under the key `PATH`.
    pub env: Vec<(String, String)>,
    /// The persisted PATH entries, in insertion order.
    pub persisted: Vec<String>,
}

/// First-match lookup in the environment association list.
pub open spec fn env_lookup(env: Seq<(String, String)>, k: Seq<char>) -> Option<Seq<char>>
    decreases env.len(),
{
    if env.len() == 0 {
        None
    } else if env[0].0@ == k {
        Some(env[0].1@)
    } else {
        env_lookup(env.drop_first(), k)
    }
}

/// The value of the executable-search variable, or empty when it is not
/// set.
pub open spec fn path_var_of(env: Seq<(String, String)>) -> Seq<char> {
    match env_lookup(env, "PATH"@) {
        Some(v) => v,
        None => Seq::empty(),
    }
}

/// The colon-delimited segments of the executable-search variable.
pub open spec fn search_segments(env: Seq<(String, String)>) -> Seq<Seq<char>> {
    split_char(path_var_of(env), ':')
}

/// How one add operation changes the search variable: nothing when the
/// entry is already one of its segments, otherwise the entry is appended
/// behind a colon (without one onto an empty variable).
pub open spec fn append_path_spec(path: Seq<char>, entry: Seq<char>) -> Seq<char> {
    if split_char(path, ':').contains(entry) {
        path
    } else if path.len() == 0 {
        entry
    } else {
        path + seq![':'] + entry
    }
}

/// How one add operation changes the persisted list: the literal input is
/// appended unless it is already present or the add is temporary.
pub open spec fn add_persist_spec(
    persisted: Seq<Seq<char>>,
    input: Seq<char>,
    temporary: bool,
) -> Seq<Seq<char>> {
    if !temporary && !persisted.contains(input) {
        persisted.push(input)
    } else {
        persisted
    }
}

/// The directory a user-supplied entry stands for in the search variable.
pub open spec fn resolve_spec(input: Seq<char>, kind: EntryKind) -> Seq<char> {
    match kind {
        EntryKind::File => match parent_dir_of(input) {
            Some(d) => d,
            None => input,
        },
        EntryKind::Directory => input,
        EntryKind::Missing => input,
    }
}

/// The parent of a path string, as the platform's path rules have it.
pub uninterp spec fn parent_dir_of(p: Seq<char>) -> Option<Seq<char>>;

/// Relies on std's `Path::parent`: the parent is a function of the path
/// string alone, and the conversions to and from `Path` keep the
/// characters of a well-formed string unchanged.
#[verifier::external_body]
fn parent_of(p: &str) -> (r: Option<String>)
    ensures
        match r {
            Some(d) => parent_dir_of(p@) == Some(d@),
            None => parent_dir_of(p@) is None,
        },
{
    std::path::Path::new(p).parent().map(|d| d.to_string_lossy().into_owned())
}

/// Resolve a user-supplied entry against what the filesystem shows for it.
pub fn resolve_entry(input: &str, kind: EntryKind) -> (r: String)
    ensures
        r@ == resolve_spec(input@, kind),
{
    match kind {
        EntryKind::File => match parent_of(input) {
            Some(d) => d,
            None => input.to_owned(),
        },
        EntryKind::Directory => input.to_owned(),
        EntryKind::Missing => input.to_owned(),
    }
}

/// Whether some element of `v` reads as `x`.
pub fn contains_string(v: &Vec<String>, x: &str) -> (r: bool)
    ensures
        r == v.deep_view().contains(x@),
{
    let mut i: usize = 0;
    while i < v.len()
        invariant
            i <= v.len(),
            forall|j: int| 0 <= j < i ==> v.deep_view()[j] != x@,
        decreases v.len() - i,
    {
        if str_eq(v[i].as_str(), x) {
            proof {
                assert(v.deep_view()[i as int] == x@);
            }
            return true;
        }
        proof {
            assert(v.deep_view()[i as int] == v@[i as int]@);
        }
        i = i + 1;
    }
    proof {
        if v.deep_view().contains(x@) {
            let j = choose|j: int| 0 <= j < v.deep_view().len() && v.deep_view()[j] == x@;
            assert(v.deep_view()[j] != x@);
        }
    }
    false
}

proof fn lemma_env_lookup_skip(env: Seq<(String, String)>, k: Seq<char>, i: int)
    requires
        0 <= i <= env.len(),
        forall|j: int| 0 <= j < i ==> (#[trigger] env[j]).0@ != k,
    ensures
        env_lookup(env, k) == env_lookup(env.skip(i), k),
    decreases i,
{
    if i == 0 {
        assert(env.skip(0) =~= env);
    } else {
        assert(env[0].0@ != k);
        assert(env.len() > 0);
        lemma_env_lookup_skip(env.drop_first(), k, i - 1);
        assert(env.drop_first().skip(i - 1) =~= env.skip(i));
    }
}

proof fn lemma_env_lookup_update_same(
    env: Seq<(String, String)>,
    i: int,
    pair: (String, String),
    k: Seq<char>,
)
    requires
        0 <= i < env.len(),
        forall|j: int| 0 <= j < i ==> (#[trigger] env[j]).0@ != k,
        pair.0@ == k,
    ensures
        env_lookup(env.update(i, pair), k) == Some(pair.1@),
    decreases i,
{
    let upd = env.update(i, pair);
    if i == 0 {
        assert(upd[0] == pair);
    } else {
        assert(upd[0] == env[0]);
        assert(env[0].0@ != k);
        lemma_env_lookup_update_same(env.drop_first(), i - 1, pair, k);
        assert(env.update(i, pair).drop_first() =~= env.drop_first().update(i - 1, pair));
    }
}

proof fn lemma_env_lookup_update_other(
    env: Seq<(String, String)>,
    i: int,
    pair: (String, String),
    k2: Seq<char>,
)
    requires
        0 <= i < env.len(),
        env[i].0@ == pair.0@,
        k2 != pair.0@,
    ensures
        env_lookup(env.update(i, pair), k2) == env_lookup(env, k2),
    decreases i,
{
    let upd = env.update(i, pair);
    if i == 0 {
        assert(upd[0] == pair);
        assert(env[0].0@ != k2);
        assert(upd[0].0@ != k2);
        assert(upd.drop_first() =~= env.drop_first());
    } else {
        assert(upd[0] == env[0]);
        if env[0].0@ == k2 {
        } else {
            lemma_env_lookup_update_other(env.drop_first(), i - 1, pair, k2);
            assert(env.update(i, pair).drop_first() =~= env.drop_first().update(i - 1, pair));
        }
    }
}

proof fn lemma_env_lookup_push(env: Seq<(String, String)>, pair: (String, String), k2: Seq<char>)
    requires
        k2 != pair.0@,
    ensures
        env_lookup(env.push(pair), k2) == env_lookup(env, k2),
    decreases env.len(),
{
    let p = env.push(pair);
    if env.len() == 0 {
        assert(p[0] == pair);
        assert(p.drop_first() =~= env);
    } else {
        assert(p[0] == env[0]);
        if env[0].0@ == k2 {
        } else {
            lemma_env_lookup_push(env.drop_first(), pair, k2);
            assert(p.drop_first() =~= env.drop_first().push(pair));
        }
    }
}

proof fn lemma_env_lookup_push_same(env: Seq<(String, String)>, pair: (String, String))
    requires
        forall|j: int| 0 <= j < env.len() ==> (#[trigger] env[j]).0@ != pair.0@,
    ensures
        env_lookup(env.push(pair), pair.0@) == Some(pair.1@),
    decreases env.len(),
{
    let p = env.push(pair);
    if env.len() == 0 {
        assert(p[0] == pair);
    } else {
        assert(p[0] == env[0]);
        assert(env[0].0@ != pair.0@);
        lemma_env_lookup_push_same(env.drop_first(), pair);
        assert(p.drop_first() =~= env.drop_first().push(pair));
    }
}

impl ShellState {
    /// A fresh state: the given working directory, no environment
    /// variables, no persisted entries.
    pub fn new(cwd: String) -> (r: ShellState)
        ensures
            r.cwd == cwd,
            r.env@ =~= Seq::<(String, String)>::empty(),
            r.persisted@ =~= Seq::<String>::empty(),
    {
        ShellState { cwd, env: Vec::new(), persisted: Vec::new() }
    }

    /// The value of an environment variable.
    pub fn get_env(&self, key: &str) -> (r: Option<String>)
        ensures
            match r {
                Some(v) => env_lookup(self.env@, key@) == Some(v@),
                None => env_lookup(self.env@, key@) is None,
            },
    {
        let mut i: usize = 0;
        proof {
            assert(self.env@.skip(0) =~= self.env@);
        }
        while i < self.env.len()
            invariant
                i <= self.env@.len(),
                env_lookup(self.env@, key@) == env_lookup(self.env@.skip(i as int), key@),
            decreases self.env@.len() - i,
        {
            let ghost suffix = self.env@.skip(i as int);
            proof {
                assert(suffix[0] == self.env@[i as int]);
                assert(suffix.drop_first() =~= self.env@.skip(i as int + 1));
            }
            if str_eq(self.env[i].0.as_str(), key) {
                return Some(self.env[i].1.clone());
            }
            i = i + 1;
        }
        proof {
            assert(self.env@.skip(i as int).len() == 0);
        }
        None
    }

    /// Set an environment variable, replacing an existing binding of the
    /// same name.
    pub fn set_env(&mut self, key: &str, value: String)
        ensures
            env_lookup(final(self).env@, key@) == Some(value@),
            forall|k2: Seq<char>|
                k2 != key@ ==> env_lookup(final(self).env@, k2) == env_lookup(
                    old(self).env@,
                    k2,
                ),
            final(self).cwd == old(self).cwd,
            final(self).persisted == old(self).persisted,
    {
        let mut i: usize = 0;
        while i < self.env.len()
            invariant
                i <= self.env@.len(),
                self.env@ == old(self).env@,
                self.cwd == old(self).cwd,
                self.persisted == old(self).persisted,
                forall|j: int| 0 <= j < i ==> (#[trigger] self.env@[j]).0@ != key@,
            decreases self.env@.len() - i,
        {
            if str_eq(self.env[i].0.as_str(), key) {
                let pair = (key.to_owned(), value);
                let ghost prev = self.env@;
                self.env[i] = pair;
                proof {
                    lemma_env_lookup_update_same(prev, i as int, self.env@[i as int], key@);
                    assert forall|k2: Seq<char>| k2 != key@ implies env_lookup(self.env@, k2)
                        == env_lookup(prev, k2) by {
                        lemma_env_lookup_update_other(prev, i as int, self.env@[i as int], k2);
                    }
                }
                return ;
            }
            i = i + 1;
        }
        let pair = (key.to_owned(), value);
        let ghost prev = self.env@;
        self.env.push(pair);
        proof {
            assert(self.env@ == prev.push(self.env@[prev.len() as int]));
            lemma_env_lookup_push_same(prev, self.env@[prev.len() as int]);
            assert forall|k2: Seq<char>| k2 != key@ implies env_lookup(self.env@, k2)
                == env_lookup(prev, k2) by {
                lemma_env_lookup_push(prev, self.env@[prev.len() as int], k2);
            }
        }
    }

    /// Add a user-supplied entry: persist the literal input unless the add
    /// is temporary or the input is already persisted, and append the
    /// resolved directory to the search variable unless it is already one
    /// of its segments. Returns whether the caller should warn that the
    /// input names nothing on disk.
    pub fn add_to_path(&mut self, user_input: &str, kind: EntryKind, temporary: bool) -> (warned:
        bool)
        ensures
            final(self).persisted.deep_view() == add_persist_spec(
                old(self).persisted.deep_view(),
                user_input@,
                temporary,
            ),
            temporary ==> final(self).persisted == old(self).persisted,
            path_var_of(final(self).env@) == append_path_spec(
                path_var_of(old(self).env@),
                resolve_spec(user_input@, kind),
            ),
            forall|k2: Seq<char>|
                k2 != "PATH"@ ==> env_lookup(final(self).env@, k2) == env_lookup(
                    old(self).env@,
                    k2,
                ),
            final(self).cwd == old(self).cwd,
            warned == (kind is Missing),
            ({
                let resolved = resolve_spec(user_input@, kind);
                (distinct_entries(search_segments(old(self).env@)) && colon_free(resolved))
                    ==> appears_once(search_segments(final(self).env@), resolved)
            }),
    {
        let ghost old_path = path_var_of(self.env@);
        let ghost resolved_ghost = resolve_spec(user_input@, kind);
        let resolved = resolve_entry(user_input, kind);
        if !temporary {
            if !contains_string(&self.persisted, user_input) {
                let ghost prev = self.persisted.deep_view();
                self.persisted.push(user_input.to_owned());
                proof {
                    assert(self.persisted.deep_view() =~= prev.push(user_input@));
                }
            }
        }
        let path_env = match self.get_env("PATH") {
            Some(v) => v,
            None => String::new(),
        };
        proof {
            assert(path_env@ == path_var_of(self.env@));
        }
        let segs = split_on(path_env.as_str(), ':');
        if !contains_string(&segs, resolved.as_str()) {
            let mut newp: String;
            if path_env.as_str().unicode_len() == 0 {
                newp = resolved;
            } else {
                newp = path_env;
                newp.append(":");
                newp.append(resolved.as_str());
                proof {
                    reveal_strlit(":");
                    assert(":"@ =~= seq![':']);
                }
            }
            self.set_env("PATH", newp);
        }
        proof {
            if distinct_entries(split_char(old_path, ':')) && colon_free(resolved_ghost) {
                lemma_search_entry_once(old_path, resolved_ghost);
            }
        }
        match kind {
            EntryKind::Missing => true,
            EntryKind::File => false,
            EntryKind::Directory => false,
        }
    }

    /// Remove the persisted entry at `index`; the search variable is not
    /// retroactively edited.
    pub fn remove_path(&mut self, index: usize)
        requires
            index < old(self).persisted@.len(),
        ensures
            final(self).persisted@ == old(self).persisted@.remove(index as int),
            final(self).env == old(self).env,
            final(self).cwd == old(self).cwd,
    {
        self.persisted.remove(index);
    }

    /// Mirror every persisted entry into the search variable, without
    /// touching the persisted list itself. `kinds[i]` is what the
    /// filesystem shows for entry `i`.
    pub fn load_persistent_into_env(&mut self, kinds: &Vec<EntryKind>)
        requires
            kinds@.len() == old(self).persisted@.len(),
        ensures
            final(self).persisted == old(self).persisted,
            final(self).cwd == old(self).cwd,
            forall|k2: Seq<char>|
                k2 != "PATH"@ ==> env_lookup(final(self).env@, k2) == env_lookup(
                    old(self).env@,
                    k2,
                ),
            forall|i: int|
                0 <= i < kinds@.len() ==> entry_fits(
                    resolve_spec(old(self).persisted.deep_view()[i], kinds@[i]),
                ) ==> search_segments(final(self).env@).contains(
                    resolve_spec(old(self).persisted.deep_view()[i], kinds@[i]),
                ),
            (distinct_entries(search_segments(old(self).env@)) && (forall|i: int|
                0 <= i < kinds@.len() ==> colon_free(
                    resolve_spec(old(self).persisted.deep_view()[i], kinds@[i]),
                ))) ==> distinct_entries(search_segments(final(self).env@)),
    {
        let n = self.persisted.len();
        let mut i: usize = 0;
        while i < n
            invariant
                n == self.persisted@.len(),
                kinds@.len() == n,
                i <= n,
                self.persisted == old(self).persisted,
                self.cwd == old(self).cwd,
                forall|k2: Seq<char>|
                    k2 != "PATH"@ ==> env_lookup(self.env@, k2) == env_lookup(old(self).env@, k2),
                forall|j: int|
                    0 <= j < i ==> entry_fits(
                        resolve_spec(self.persisted.deep_view()[j], kinds@[j]),
                    ) ==> search_segments(self.env@).contains(
                        resolve_spec(self.persisted.deep_view()[j], kinds@[j]),
                    ),
                (distinct_entries(search_segments(old(self).env@)) && (forall|j: int|
                    0 <= j < i ==> colon_free(
                        resolve_spec(self.persisted.deep_view()[j], kinds@[j]),
                    ))) ==> distinct_entries(search_segments(self.env@)),
            decreases n - i,
        {
            let entry = self.persisted[i].clone();
            let kind = kinds[i];
            let ghost prev_env = self.env@;
            let ghost e = resolve_spec(entry@, kind);
            self.add_to_path(entry.as_str(), kind, true);
            proof {
                assert(entry@ == self.persisted.deep_view()[i as int]);
                lemma_append_keeps_segments(path_var_of(prev_env), e);
                if colon_free(e) {
                    lemma_append_adds_entry(path_var_of(prev_env), e);
                    if distinct_entries(split_char(path_var_of(prev_env), ':')) {
                        lemma_append_keeps_distinct(path_var_of(prev_env), e);
                    }
                }
            }
            i = i + 1;
        }
    }
}

/// No colon: the entry can stand as one segment of the search variable.
pub open spec fn colon_free(e: Seq<char>) -> bool {
    forall|i: int| 0 <= i < e.len() ==> e[i] != ':'
}

/// An entry that one segment of the search variable can carry and that a
/// later append cannot displace.
pub open spec fn entry_fits(e: Seq<char>) -> bool {
    colon_free(e) && e.len() > 0
}

/// No two segments are equal.
pub open spec fn distinct_entries(xs: Seq<Seq<char>>) -> bool {
    forall|i: int, j: int| 0 <= i < j < xs.len() ==> xs[i] != xs[j]
}

/// `e` stands in `xs` exactly once.
pub open spec fn appears_once(xs: Seq<Seq<char>>, e: Seq<char>) -> bool {
    exists|j: int|
        0 <= j < xs.len() && xs[j] == e && (forall|k: int|
            0 <= k < xs.len() && #[trigger] xs[k] == e ==> k == j)
}

/// A distinct list that contains `e` holds it exactly once.
pub proof fn lemma_distinct_contains_once(xs: Seq<Seq<char>>, e: Seq<char>)
    requires
        distinct_entries(xs),
        xs.contains(e),
    ensures
        appears_once(xs, e),
{
    let j = choose|j: int| 0 <= j < xs.len() && xs[j] == e;
    assert(0 <= j < xs.len() && xs[j] == e && (forall|k: int|
        0 <= k < xs.len() && #[trigger] xs[k] == e ==> k == j));
}

/// Every segment stays in place when the scan's accumulator is extended.
proof fn lemma_split_from_prefix(t: Seq<char>, sep: char, cur: Seq<char>, acc: Seq<Seq<char>>)
    ensures
        split_from(t, sep, cur, acc).len() > acc.len(),
        forall|j: int| 0 <= j < acc.len() ==> split_from(t, sep, cur, acc)[j] == acc[j],
    decreases t.len(),
{
    if t.len() == 0 {
    } else if t[0] == sep {
        lemma_split_from_prefix(t.drop_first(), sep, Seq::empty(), acc.push(cur));
        assert forall|j: int| 0 <= j < acc.len() implies split_from(t, sep, cur, acc)[j]
            == acc[j] by {
            assert(split_from(t, sep, cur, acc)[j] == acc.push(cur)[j]);
        }
    } else {
        lemma_split_from_prefix(t.drop_first(), sep, cur.push(t[0]), acc);
    }
}

/// Appending an entry to the search variable keeps every existing
/// non-empty segment.
pub proof fn lemma_append_keeps_segments(path: Seq<char>, e: Seq<char>)
    ensures
        forall|x: Seq<char>|
            split_char(path, ':').contains(x) && x.len() > 0
                ==> #[trigger] split_char(append_path_spec(path, e), ':').contains(x),
{
    let old_segs = split_char(path, ':');
    let new_segs = split_char(append_path_spec(path, e), ':');
    assert forall|x: Seq<char>|
        old_segs.contains(x) && x.len() > 0 implies new_segs.contains(x) by {
        if old_segs.contains(e) {
        } else if path.len() == 0 {
            // the only segment of an empty variable is the empty entry
            let j = choose|j: int| 0 <= j < old_segs.len() && old_segs[j] == x;
            assert(split_from(path, ':', Seq::<char>::empty(), Seq::<Seq<char>>::empty())
                == Seq::<Seq<char>>::empty().push(Seq::<char>::empty()));
            assert(old_segs[j] == Seq::<char>::empty());
        } else {
            lemma_split_from_append_sep(path, e, ':', Seq::empty(), Seq::empty());
            lemma_split_from_prefix(e, ':', Seq::empty(), old_segs);
            let j = choose|j: int| 0 <= j < old_segs.len() && old_segs[j] == x;
            assert(new_segs[j] == old_segs[j]);
        }
    }
}

/// After the append, a colon-free entry is one of the segments.
pub proof fn lemma_append_adds_entry(path: Seq<char>, e: Seq<char>)
    requires
        colon_free(e),
    ensures
        split_char(append_path_spec(path, e), ':').contains(e),
{
    let old_segs = split_char(path, ':');
    if old_segs.contains(e) {
    } else if path.len() == 0 {
        lemma_split_from_no_sep(e, ':', Seq::empty(), Seq::empty());
        let segs = split_char(e, ':');
        assert(segs == Seq::<Seq<char>>::empty().push(Seq::<char>::empty() + e));
        assert(Seq::<char>::empty() + e =~= e);
        assert(segs[0] == e);
    } else {
        lemma_split_from_append_sep(path, e, ':', Seq::empty(), Seq::empty());
        lemma_split_from_no_sep(e, ':', Seq::empty(), old_segs);
        let new_segs = split_char(append_path_spec(path, e), ':');
        assert(new_segs == old_segs.push(Seq::<char>::empty() + e));
        assert(Seq::<char>::empty() + e =~= e);
        assert(new_segs[old_segs.len() as int] == e);
    }
}

/// Appending a colon-free entry keeps the segments distinct.
pub proof fn lemma_append_keeps_distinct(path: Seq<char>, e: Seq<char>)
    requires
        colon_free(e),
        distinct_entries(split_char(path, ':')),
    ensures
        distinct_entries(split_char(append_path_spec(path, e), ':')),
{
    let old_segs = split_char(path, ':');
    if old_segs.contains(e) {
    } else if path.len() == 0 {
        lemma_split_from_no_sep(e, ':', Seq::empty(), Seq::empty());
        let segs = split_char(e, ':');
        assert(segs == Seq::<Seq<char>>::empty().push(Seq::<char>::empty() + e));
        assert(segs.len() == 1);
    } else {
        lemma_split_from_append_sep(path, e, ':', Seq::empty(), Seq::empty());
        lemma_split_from_no_sep(e, ':', Seq::empty(), old_segs);
        let new_segs = split_char(append_path_spec(path, e), ':');
        assert(new_segs == old_segs.push(Seq::<char>::empty() + e));
        assert(Seq::<char>::empty() + e =~= e);
        assert forall|i: int, j: int|
            0 <= i < j < new_segs.len() implies new_segs[i] != new_segs[j] by {
            if j < old_segs.len() {
                assert(new_segs[i] == old_segs[i] && new_segs[j] == old_segs[j]);
            } else {
                assert(new_segs[j] == e);
                assert(new_segs[i] == old_segs[i]);
                assert(!old_segs.contains(e));
                if old_segs[i] == e {
                    assert(old_segs.contains(e));
                }
            }
        }
    }
}

/// Persisting the same literal input twice keeps a single copy: the
/// second add finds the entry present and leaves the list as it was.
pub proof fn lemma_add_twice_persists_once(persisted: Seq<Seq<char>>, input: Seq<char>)
    ensures
        add_persist_spec(add_persist_spec(persisted, input, false), input, false)
            == add_persist_spec(persisted, input, false),
{
    let once = add_persist_spec(persisted, input, false);
    if !persisted.contains(input) {
        assert(once == persisted.push(input));
        assert(once[persisted.len() as int] == input);
        assert(once.contains(input));
    }
}

/// Adding an entry to a search variable with distinct segments leaves it
/// standing there exactly once.
pub proof fn lemma_search_entry_once(path: Seq<char>, e: Seq<char>)
    requires
        colon_free(e),
        distinct_entries(split_char(path, ':')),
    ensures
        appears_once(split_char(append_path_spec(path, e), ':'), e),
{
    lemma_append_adds_entry(path, e);
    lemma_append_keeps_distinct(path, e);
    lemma_distinct_contains_once(split_char(append_path_spec(path, e), ':'), e);
}

} // verus!
