//! Token expansion inside task fields. A token function such as
//! `@group(sources)` stands alone in an entry and expands to paths and
//! globs; a token variable such as `$project` is substituted inline.
//! The context — command, arguments, inputs or outputs — restricts which
//! functions are legal.
use vstd::prelude::*;

use crate::args::push_char;
use crate::collections::KeyMap;
use crate::ids::str_eq;

verus! {

/// Where a token occurs, which restricts what is legal there.
#[derive(Clone, Copy, PartialEq, Eq, Structural, Debug)]
pub enum TokenContext {
    Command,
    Args,
    Inputs,
    Outputs,
}

/// Raised when a token cannot be expanded.
#[derive(Debug)]
pub enum TokenError {
    /// The function name is not one the resolver knows.
    UnknownToken(String),
    /// The function is not legal in this context.
    InvalidTokenContext(String),
    /// An `@in` or `@out` argument is no index, or lies outside the task's
    /// lists.
    InvalidTokenIndex(String),
    /// A named file group does not exist.
    UnknownFileGroup(String),
}

/// A character that makes an entry a glob pattern.
pub open spec fn is_glob_char(c: char) -> bool {
    c == '*' || c == '?' || c == '{' || c == '['
}

/// An entry containing a glob character is a glob pattern.
pub open spec fn spec_is_glob(s: Seq<char>) -> bool {
    exists|i: int| 0 <= i < s.len() && is_glob_char(#[trigger] s[i])
}

/// Whether an entry is a glob pattern.
pub fn is_glob(s: &str) -> (r: bool)
    ensures
        r == spec_is_glob(s@),
{
    let n = s.unicode_len();
    let mut i: usize = 0;
    while i < n
        invariant
            n == s@.len(),
            0 <= i <= n,
            forall|j: int| 0 <= j < i ==> !is_glob_char(#[trigger] s@[j]),
        decreases n - i,
    {
        let c = s.get_char(i);
        if c == '*' || c == '?' || c == '{' || c == '[' {
            return true;
        }
        i += 1;
    }
    false
}

/// An entry made workspace-relative: a leading slash marks it as already
/// workspace-relative and drops away, anything else sits under the project
/// source.
pub open spec fn spec_ws_relative(s: Seq<char>, source: Seq<char>) -> Seq<char> {
    if s.len() > 0 && s[0] == '/' {
        s.skip(1)
    } else {
        source + seq!['/'] + s
    }
}

/// Make an entry workspace-relative.
pub fn ws_relative(s: &str, source: &str) -> (r: String)
    ensures
        r@ == spec_ws_relative(s@, source@),
{
    let n = s.unicode_len();
    if n > 0 && s.get_char(0) == '/' {
        let rest = s.substring_char(1, n);
        proof {
            assert(rest@ =~= s@.skip(1));
        }
        rest.to_owned()
    } else {
        let mut out = source.to_owned();
        push_char(&mut out, '/');
        out.append(s);
        proof {
            assert(out@ =~= source@ + seq!['/'] + s@);
        }
        out
    }
}

/// A parsed token function: its name and its argument.
pub struct TokenFunc {
    pub name: String,
    pub arg: String,
}

/// Index of the first opening parenthesis, or -1 where there is none.
pub open spec fn first_paren(s: Seq<char>) -> int
    decreases s.len(),
{
    if s.len() == 0 {
        -1
    } else if s[0] == '(' {
        0
    } else {
        let r = first_paren(s.drop_first());
        if r == -1 {
            -1
        } else {
            r + 1
        }
    }
}

/// What parsing an entry as a token function yields: the entry must be
/// exactly `@name(arg)` with a non-empty name and argument.
pub open spec fn spec_parse_func(s: Seq<char>) -> Option<(Seq<char>, Seq<char>)> {
    let p = first_paren(s);
    if s.len() >= 4 && s[0] == '@' && p >= 2 && s[s.len() - 1] == ')' && p < s.len() - 1 {
        Some((s.take(p).skip(1), s.skip(p + 1).take(s.len() - p - 2)))
    } else {
        None
    }
}

proof fn lemma_first_paren_at(s: Seq<char>, i: int)
    requires
        0 <= i < s.len(),
        s[i] == '(',
        forall|j: int| 0 <= j < i ==> s[j] != '(',
    ensures
        first_paren(s) == i,
    decreases i,
{
    if i == 0 {
    } else {
        let t = s.drop_first();
        assert(forall|j: int| 0 <= j < i - 1 ==> t[j] == s[j + 1] && t[j] != '(');
        lemma_first_paren_at(t, i - 1);
    }
}

proof fn lemma_no_paren(s: Seq<char>)
    requires
        forall|j: int| 0 <= j < s.len() ==> s[j] != '(',
    ensures
        first_paren(s) == -1,
    decreases s.len(),
{
    if s.len() > 0 {
        lemma_no_paren(s.drop_first());
    }
}

/// Parse an entry as a token function, where the entry is exactly of the
/// form `@name(arg)`.
pub fn parse_token_func(s: &str) -> (r: Option<TokenFunc>)
    ensures
        match r {
            Some(f) => spec_parse_func(s@) == Some((f.name@, f.arg@)),
            None => spec_parse_func(s@) is None,
        },
{
    let n = s.unicode_len();
    let mut pi: usize = 0;
    let mut found = false;
    while pi < n && !found
        invariant
            n == s@.len(),
            0 <= pi <= n,
            found ==> pi < n && s@[pi as int] == '(' && (forall|j: int|
                0 <= j < pi ==> s@[j] != '('),
            !found ==> forall|j: int| 0 <= j < pi ==> s@[j] != '(',
        decreases n - pi + (if found { 0int } else { 1int }),
    {
        if s.get_char(pi) == '(' {
            found = true;
        } else {
            pi += 1;
        }
    }
    if !found {
        proof {
            lemma_no_paren(s@);
        }
        return None;
    }
    proof {
        lemma_first_paren_at(s@, pi as int);
    }
    if n >= 4 && s.get_char(0) == '@' && pi >= 2 && s.get_char(n - 1) == ')' && pi < n - 1 {
        let name = s.substring_char(1, pi);
        let arg = s.substring_char(pi + 1, n - 1);
        proof {
            assert(name@ =~= s@.take(pi as int).skip(1));
            assert(arg@ =~= s@.skip(pi as int + 1).take(s@.len() - pi - 2));
        }
        Some(TokenFunc { name: name.to_owned(), arg: arg.to_owned() })
    } else {
        None
    }
}

/// Whether an entry is a token function.
pub fn has_token_func(s: &str) -> (r: bool)
    ensures
        r == (spec_parse_func(s@) is Some),
{
    parse_token_func(s).is_some()
}

/// Whether an entry mentions a token variable.
pub open spec fn spec_has_token_var(s: Seq<char>) -> bool {
    exists|i: int| 0 <= i < s.len() && #[trigger] s[i] == '$'
}

/// Whether an entry mentions a token variable.
pub fn has_token_var(s: &str) -> (r: bool)
    ensures
        r == spec_has_token_var(s@),
{
    let n = s.unicode_len();
    let mut i: usize = 0;
    while i < n
        invariant
            n == s@.len(),
            0 <= i <= n,
            forall|j: int| 0 <= j < i ==> s@[j] != '$',
        decreases n - i,
    {
        if s.get_char(i) == '$' {
            return true;
        }
        i += 1;
    }
    false
}

/// A variable-name character.
pub open spec fn is_var_char(c: char) -> bool {
    ('a' <= c && c <= 'z') || ('A' <= c && c <= 'Z') || ('0' <= c && c <= '9') || c == '_'
}

fn is_var_char_exec(c: char) -> (r: bool)
    ensures
        r == is_var_char(c),
{
    ('a' <= c && c <= 'z') || ('A' <= c && c <= 'Z') || ('0' <= c && c <= '9') || c == '_'
}

/// The length of the variable name starting at a position.
pub open spec fn var_name_len(s: Seq<char>, i: int) -> int
    decreases s.len() - i,
{
    if i < 0 || i >= s.len() || !is_var_char(s[i]) {
        0
    } else {
        1 + var_name_len(s, i + 1)
    }
}

/// The substitution of variables in a string, reading left to right: a `$`
/// followed by a known variable name becomes that variable's value; a `$`
/// followed by an unknown name, or by no name, stays as written.
pub open spec fn spec_substitute(s: Seq<char>, vars: &KeyMap<String>, i: int) -> Seq<char>
    decreases s.len() - i when 0 <= i <= s.len()
{
    if i >= s.len() {
        Seq::empty()
    } else if s[i] == '$' {
        let l = var_name_len(s, i + 1);
        if l > 0 && i + 1 + l <= s.len() {
            let name = s.skip(i + 1).take(l);
            if vars.spec_contains(name) {
                vars.spec_get(name)@ + spec_substitute(s, vars, i + 1 + l)
            } else {
                seq!['$'] + name + spec_substitute(s, vars, i + 1 + l)
            }
        } else {
            seq!['$'] + spec_substitute(s, vars, i + 1)
        }
    } else {
        seq![s[i]] + spec_substitute(s, vars, i + 1)
    }
}

/// Substitute every `$name` variable in an entry from the given values,
/// leaving unknown names as written.
pub fn resolve_vars(s: &str, vars: &KeyMap<String>) -> (r: String)
    requires
        vars.wf(),
    ensures
        r@ == spec_substitute(s@, vars, 0),
{
    let n = s.unicode_len();
    let mut out = String::new();
    let mut i: usize = 0;
    while i < n
        invariant
            vars.wf(),
            n == s@.len(),
            0 <= i <= n,
            out@ + spec_substitute(s@, vars, i as int) == spec_substitute(s@, vars, 0),
        decreases n - i,
    {
        let ghost i0 = i as int;
        let ghost out0 = out@;
        let ghost mut step: Seq<char> = Seq::empty();
        let c = s.get_char(i);
        if c == '$' {
            // measure the name after the dollar sign
            let mut l: usize = 0;
            while i + 1 + l < n && is_var_char_exec(s.get_char(i + 1 + l))
                invariant
                    n == s@.len(),
                    0 <= i < n,
                    0 <= l,
                    i + 1 + l <= n,
                    forall|j: int| i + 1 <= j < i + 1 + l ==> is_var_char(#[trigger] s@[j]),
                decreases n - i - 1 - l,
            {
                l += 1;
            }
            proof {
                lemma_var_name_len(s@, i0 + 1, l as int);
            }
            if l > 0 {
                let name = s.substring_char(i + 1, i + 1 + l);
                proof {
                    assert(name@ =~= s@.skip(i0 + 1).take(l as int));
                }
                match vars.get(name) {
                    Some(value) => {
                        out.append(value.as_str());
                        proof {
                            step = value@;
                        }
                    },
                    None => {
                        push_char(&mut out, '$');
                        out.append(name);
                        proof {
                            step = seq!['$'] + name@;
                            assert(out@ =~= out0 + step);
                        }
                    },
                }
                i = i + 1 + l;
            } else {
                push_char(&mut out, '$');
                proof {
                    step = seq!['$'];
                }
                i += 1;
            }
        } else {
            push_char(&mut out, c);
            proof {
                step = seq![c];
            }
            i += 1;
        }
        proof {
            assert(out@ =~= out0 + step);
            assert(spec_substitute(s@, vars, i0) == step + spec_substitute(s@, vars, i as int));
            assert(out@ + spec_substitute(s@, vars, i as int) =~= out0 + spec_substitute(
                s@,
                vars,
                i0,
            ));
        }
    }
    proof {
        assert(spec_substitute(s@, vars, n as int) =~= Seq::<char>::empty());
        assert(out@ =~= out@ + spec_substitute(s@, vars, n as int));
    }
    out
}

/// The substitution of environment references in a value, reading left to
/// right: a `$` followed by a name becomes that process variable's value,
/// or nothing where the variable is unset.
pub open spec fn spec_substitute_env(s: Seq<char>, vars: &KeyMap<String>, i: int) -> Seq<char>
    decreases s.len() - i when 0 <= i <= s.len()
{
    if i >= s.len() {
        Seq::empty()
    } else if s[i] == '$' {
        let l = var_name_len(s, i + 1);
        if l > 0 && i + 1 + l <= s.len() {
            let name = s.skip(i + 1).take(l);
            if vars.spec_contains(name) {
                vars.spec_get(name)@ + spec_substitute_env(s, vars, i + 1 + l)
            } else {
                spec_substitute_env(s, vars, i + 1 + l)
            }
        } else {
            seq!['$'] + spec_substitute_env(s, vars, i + 1)
        }
    } else {
        seq![s[i]] + spec_substitute_env(s, vars, i + 1)
    }
}

/// Substitute every `$name` reference in a value from the process
/// environment, replacing an unset variable with nothing.
pub fn resolve_env_vars(s: &str, vars: &KeyMap<String>) -> (r: String)
    requires
        vars.wf(),
    ensures
        r@ == spec_substitute_env(s@, vars, 0),
{
    let n = s.unicode_len();
    let mut out = String::new();
    let mut i: usize = 0;
    while i < n
        invariant
            vars.wf(),
            n == s@.len(),
            0 <= i <= n,
            out@ + spec_substitute_env(s@, vars, i as int) == spec_substitute_env(s@, vars, 0),
        decreases n - i,
    {
        let ghost i0 = i as int;
        let ghost out0 = out@;
        let ghost mut step: Seq<char> = Seq::empty();
        let c = s.get_char(i);
        if c == '$' {
            let mut l: usize = 0;
            while i + 1 + l < n && is_var_char_exec(s.get_char(i + 1 + l))
                invariant
                    n == s@.len(),
                    0 <= i < n,
                    0 <= l,
                    i + 1 + l <= n,
                    forall|j: int| i + 1 <= j < i + 1 + l ==> is_var_char(#[trigger] s@[j]),
                decreases n - i - 1 - l,
            {
                l += 1;
            }
            proof {
                lemma_var_name_len(s@, i0 + 1, l as int);
            }
            if l > 0 {
                let name = s.substring_char(i + 1, i + 1 + l);
                proof {
                    assert(name@ =~= s@.skip(i0 + 1).take(l as int));
                }
                match vars.get(name) {
                    Some(value) => {
                        out.append(value.as_str());
                        proof {
                            step = value@;
                        }
                    },
                    None => {
                        proof {
                            step = Seq::empty();
                        }
                    },
                }
                i = i + 1 + l;
            } else {
                push_char(&mut out, '$');
                proof {
                    step = seq!['$'];
                }
                i += 1;
            }
        } else {
            push_char(&mut out, c);
            proof {
                step = seq![c];
            }
            i += 1;
        }
        proof {
            assert(out@ =~= out0 + step);
            assert(spec_substitute_env(s@, vars, i0) == step + spec_substitute_env(
                s@,
                vars,
                i as int,
            ));
            assert(out@ + spec_substitute_env(s@, vars, i as int) =~= out0 + spec_substitute_env(
                s@,
                vars,
                i0,
            ));
        }
    }
    proof {
        assert(spec_substitute_env(s@, vars, n as int) =~= Seq::<char>::empty());
        assert(out@ =~= out@ + spec_substitute_env(s@, vars, n as int));
    }
    out
}

/// What a token resolution yields: an error, or paths and globs.
pub enum ResolveOutcome {
    Unknown(Seq<char>),
    BadContext(Seq<char>),
    BadIndex(Seq<char>),
    NoGroup(Seq<char>),
    Pair(Seq<Seq<char>>, Seq<Seq<char>>),
}

/// The outcome a raised error denotes.
pub open spec fn token_error_outcome(e: &TokenError) -> ResolveOutcome {
    match e {
        TokenError::UnknownToken(s) => ResolveOutcome::Unknown(s@),
        TokenError::InvalidTokenContext(s) => ResolveOutcome::BadContext(s@),
        TokenError::InvalidTokenIndex(s) => ResolveOutcome::BadIndex(s@),
        TokenError::UnknownFileGroup(s) => ResolveOutcome::NoGroup(s@),
    }
}

/// Expanding the entries of a file group: a glob entry stays a glob, and a
/// plain entry becomes a path — or, under the inputs context, the glob
/// `entry/**/*` covering the whole directory. Everything is made
/// workspace-relative.
pub open spec fn spec_group_fold(entries: Seq<Seq<char>>, source: Seq<char>, dir_glob: bool) -> (
    Seq<Seq<char>>,
    Seq<Seq<char>>,
)
    decreases entries.len(),
{
    if entries.len() == 0 {
        (Seq::empty(), Seq::empty())
    } else {
        let (p, g) = spec_group_fold(entries.drop_last(), source, dir_glob);
        let e = entries.last();
        let ws = spec_ws_relative(e, source);
        if spec_is_glob(e) {
            (p, g.push(ws))
        } else if dir_glob {
            (p, g.push(ws + "/**/*"@))
        } else {
            (p.push(ws), g)
        }
    }
}

/// The glob entries of a file group, made workspace-relative.
pub open spec fn spec_globs_fold(entries: Seq<Seq<char>>, source: Seq<char>) -> Seq<Seq<char>>
    decreases entries.len(),
{
    if entries.len() == 0 {
        Seq::empty()
    } else {
        let g = spec_globs_fold(entries.drop_last(), source);
        let e = entries.last();
        if spec_is_glob(e) {
            g.push(spec_ws_relative(e, source))
        } else {
            g
        }
    }
}

/// The index a decimal argument denotes, where it has one to nine digits.
pub open spec fn spec_parse_index(s: Seq<char>) -> Option<int> {
    if 1 <= s.len() <= 6 && (forall|i: int| 0 <= i < s.len() ==> '0' <= #[trigger] s[i] && s[i]
        <= '9') {
        Some(spec_digits_value(s))
    } else {
        None
    }
}

/// The value of a digit string.
pub open spec fn spec_digits_value(s: Seq<char>) -> int
    decreases s.len(),
{
    if s.len() == 0 {
        0
    } else {
        spec_digits_value(s.drop_last()) * 10 + (s.last() as int - '0' as int)
    }
}

/// What one entry resolves to: a token function by its kind, and anything
/// else as a path or glob after variable substitution.
pub open spec fn spec_func_outcome(
    context: TokenContext,
    groups: &KeyMap<Vec<String>>,
    source: Seq<char>,
    inputs: Seq<Seq<char>>,
    outputs: Seq<Seq<char>>,
    name: Seq<char>,
    arg: Seq<char>,
) -> ResolveOutcome {
    if context == TokenContext::Command {
        ResolveOutcome::BadContext(name)
    } else if name == "group"@ || name == "dirs"@ || name == "files"@ || name == "root"@ {
        if !groups.spec_contains(arg) {
            ResolveOutcome::NoGroup(arg)
        } else {
            let entries = groups.spec_get(arg).deep_view();
            let dir_glob = name == "group"@ && context == TokenContext::Inputs;
            let (p, g) = spec_group_fold(entries, source, dir_glob);
            ResolveOutcome::Pair(p, g)
        }
    } else if name == "globs"@ {
        if !groups.spec_contains(arg) {
            ResolveOutcome::NoGroup(arg)
        } else {
            let entries = groups.spec_get(arg).deep_view();
            ResolveOutcome::Pair(Seq::empty(), spec_globs_fold(entries, source))
        }
    } else if name == "in"@ || name == "out"@ {
        if context != TokenContext::Args {
            ResolveOutcome::BadContext(name)
        } else {
            let list = if name == "in"@ {
                inputs
            } else {
                outputs
            };
            match spec_parse_index(arg) {
                Some(i) => if i < list.len() {
                    let e = list[i];
                    let ws = spec_ws_relative(e, source);
                    if spec_is_glob(e) {
                        ResolveOutcome::Pair(Seq::empty(), seq![ws])
                    } else {
                        ResolveOutcome::Pair(seq![ws], Seq::empty())
                    }
                } else {
                    ResolveOutcome::BadIndex(arg)
                },
                None => ResolveOutcome::BadIndex(arg),
            }
        }
    } else {
        ResolveOutcome::Unknown(name)
    }
}

/// Expand the entries of a file group.
fn expand_group(entries: &Vec<String>, source: &str, dir_glob: bool) -> (r: (Vec<String>, Vec<
    String,
>))
    ensures
        (r.0.deep_view(), r.1.deep_view()) == spec_group_fold(
            entries.deep_view(),
            source@,
            dir_glob,
        ),
{
    let n = entries.len();
    let mut paths: Vec<String> = Vec::new();
    let mut globs: Vec<String> = Vec::new();
    let mut i: usize = 0;
    while i < n
        invariant
            n == entries@.len(),
            0 <= i <= n,
            (paths.deep_view(), globs.deep_view()) == spec_group_fold(
                entries.deep_view().take(i as int),
                source@,
                dir_glob,
            ),
        decreases n - i,
    {
        let e = &entries[i];
        let ws = ws_relative(e.as_str(), source);
        if is_glob(e.as_str()) {
            globs.push(ws);
        } else if dir_glob {
            let mut w = ws;
            w.append("/**/*");
            globs.push(w);
        } else {
            paths.push(ws);
        }
        i += 1;
        proof {
            let dv = entries.deep_view();
            assert(dv.take(i as int).drop_last() =~= dv.take(i - 1));
            assert(dv.take(i as int).last() == dv[i - 1]);
            assert(paths.deep_view() =~= spec_group_fold(dv.take(i as int), source@, dir_glob).0);
            assert(globs.deep_view() =~= spec_group_fold(dv.take(i as int), source@, dir_glob).1);
        }
    }
    proof {
        assert(entries.deep_view().take(n as int) =~= entries.deep_view());
    }
    (paths, globs)
}

/// The glob entries of a file group.
fn expand_globs(entries: &Vec<String>, source: &str) -> (r: Vec<String>)
    ensures
        r.deep_view() == spec_globs_fold(entries.deep_view(), source@),
{
    let n = entries.len();
    let mut globs: Vec<String> = Vec::new();
    let mut i: usize = 0;
    while i < n
        invariant
            n == entries@.len(),
            0 <= i <= n,
            globs.deep_view() == spec_globs_fold(entries.deep_view().take(i as int), source@),
        decreases n - i,
    {
        let e = &entries[i];
        if is_glob(e.as_str()) {
            globs.push(ws_relative(e.as_str(), source));
        }
        i += 1;
        proof {
            let dv = entries.deep_view();
            assert(dv.take(i as int).drop_last() =~= dv.take(i - 1));
            assert(dv.take(i as int).last() == dv[i - 1]);
            assert(globs.deep_view() =~= spec_globs_fold(dv.take(i as int), source@));
        }
    }
    proof {
        assert(entries.deep_view().take(n as int) =~= entries.deep_view());
    }
    globs
}

/// Ten to a small power.
pub open spec fn pow10(n: int) -> int
    decreases n,
{
    if n <= 0 {
        1
    } else {
        10 * pow10(n - 1)
    }
}

/// A digit string's value stays under ten to its length.
proof fn lemma_digits_bound(s: Seq<char>)
    requires
        forall|i: int| 0 <= i < s.len() ==> '0' <= #[trigger] s[i] && s[i] <= '9',
    ensures
        0 <= spec_digits_value(s) < pow10(s.len() as int),
    decreases s.len(),
{
    if s.len() > 0 {
        lemma_digits_bound(s.drop_last());
        assert('0' <= s.last() && s.last() <= '9');
        assert(0 <= s.last() as int - '0' as int <= 9);
    }
}

/// Ten to a power is positive.
proof fn lemma_pow10_pos(n: int)
    ensures
        pow10(n) >= 1,
    decreases n,
{
    if n > 0 {
        lemma_pow10_pos(n - 1);
    }
}

/// Ten to a power grows with the power.
proof fn lemma_pow10_mono(a: int, b: int)
    requires
        0 <= a <= b,
    ensures
        pow10(a) <= pow10(b),
    decreases b,
{
    if a < b {
        lemma_pow10_mono(a, b - 1);
        lemma_pow10_pos(b - 1);
    }
}

/// Parse a decimal index of at most six digits.
fn parse_index(s: &str) -> (r: Option<usize>)
    ensures
        match r {
            Some(v) => spec_parse_index(s@) == Some(v as int),
            None => spec_parse_index(s@) is None,
        },
{
    let n = s.unicode_len();
    if n == 0 || n > 6 {
        return None;
    }
    let mut acc: usize = 0;
    let mut i: usize = 0;
    while i < n
        invariant
            n == s@.len(),
            1 <= n <= 6,
            0 <= i <= n,
            forall|j: int| 0 <= j < i ==> '0' <= #[trigger] s@[j] && s@[j] <= '9',
            acc == spec_digits_value(s@.take(i as int)),
        decreases n - i,
    {
        let c = s.get_char(i);
        if c < '0' || c > '9' {
            return None;
        }
        proof {
            assert(s@.take(i + 1).drop_last() =~= s@.take(i as int));
            assert(s@.take(i + 1).last() == s@[i as int]);
            assert(forall|j: int|
                0 <= j < i + 1 ==> '0' <= #[trigger] s@.take(i + 1)[j] && s@.take(i + 1)[j]
                    <= '9');
            lemma_digits_bound(s@.take(i as int));
            lemma_pow10_mono(i as int, 5);
            assert(acc < pow10(5));
            assert(pow10(5) == 100000) by {
                reveal_with_fuel(pow10, 7);
            };
        }
        acc = acc * 10 + (c as usize - '0' as usize);
        i += 1;
    }
    proof {
        assert(s@.take(n as int) =~= s@);
    }
    Some(acc)
}

/// Resolve one parsed token function against the file groups and the
/// task's raw inputs and outputs.
pub fn resolve_func(
    context: TokenContext,
    groups: &KeyMap<Vec<String>>,
    source: &str,
    inputs: &Vec<String>,
    outputs: &Vec<String>,
    func: &TokenFunc,
) -> (r: Result<(Vec<String>, Vec<String>), TokenError>)
    requires
        groups.wf(),
    ensures
        match r {
            Ok(pair) => spec_func_outcome(
                context,
                groups,
                source@,
                inputs.deep_view(),
                outputs.deep_view(),
                func.name@,
                func.arg@,
            ) == ResolveOutcome::Pair(pair.0.deep_view(), pair.1.deep_view()),
            Err(e) => spec_func_outcome(
                context,
                groups,
                source@,
                inputs.deep_view(),
                outputs.deep_view(),
                func.name@,
                func.arg@,
            ) == token_error_outcome(&e),
        },
{
    let name = &func.name;
    let arg = &func.arg;
    if matches!(context, TokenContext::Command) {
        return Err(TokenError::InvalidTokenContext(name.clone()));
    }
    let is_group = str_eq(name.as_str(), "group");
    if is_group || str_eq(name.as_str(), "dirs") || str_eq(name.as_str(), "files") || str_eq(
        name.as_str(),
        "root",
    ) {
        match groups.get(arg.as_str()) {
            Some(entries) => {
                let dir_glob = is_group && matches!(context, TokenContext::Inputs);
                Ok(expand_group(entries, source, dir_glob))
            },
            None => Err(TokenError::UnknownFileGroup(arg.clone())),
        }
    } else if str_eq(name.as_str(), "globs") {
        match groups.get(arg.as_str()) {
            Some(entries) => {
                let p: Vec<String> = Vec::new();
                proof {
                    assert(p.deep_view() =~= Seq::<Seq<char>>::empty());
                }
                Ok((p, expand_globs(entries, source)))
            },
            None => Err(TokenError::UnknownFileGroup(arg.clone())),
        }
    } else if str_eq(name.as_str(), "in") || str_eq(name.as_str(), "out") {
        if !matches!(context, TokenContext::Args) {
            return Err(TokenError::InvalidTokenContext(name.clone()));
        }
        let list = if str_eq(name.as_str(), "in") {
            inputs
        } else {
            outputs
        };
        match parse_index(arg.as_str()) {
            Some(idx) => {
                if idx < list.len() {
                    let e = &list[idx];
                    let ws = ws_relative(e.as_str(), source);
                    if is_glob(e.as_str()) {
                        let r = (Vec::new(), vec![ws]);
                        proof {
                            assert(r.1.deep_view() =~= seq![
                                spec_ws_relative(
                                    list.deep_view()[idx as int],
                                    source@,
                                ),
                            ]);
                            assert(r.0.deep_view() =~= Seq::<Seq<char>>::empty());
                        }
                        Ok(r)
                    } else {
                        let r = (vec![ws], Vec::new());
                        proof {
                            assert(r.0.deep_view() =~= seq![
                                spec_ws_relative(
                                    list.deep_view()[idx as int],
                                    source@,
                                ),
                            ]);
                            assert(r.1.deep_view() =~= Seq::<Seq<char>>::empty());
                        }
                        Ok(r)
                    }
                } else {
                    Err(TokenError::InvalidTokenIndex(arg.clone()))
                }
            },
            None => Err(TokenError::InvalidTokenIndex(arg.clone())),
        }
    } else {
        Err(TokenError::UnknownToken(name.clone()))
    }
}

/// What one list entry resolves to: a token function expands by its kind;
/// anything else has its variables substituted and lands among the paths or
/// the globs by its shape.
pub open spec fn spec_entry_outcome(
    context: TokenContext,
    groups: &KeyMap<Vec<String>>,
    source: Seq<char>,
    vars: &KeyMap<String>,
    inputs: Seq<Seq<char>>,
    outputs: Seq<Seq<char>>,
    e: Seq<char>,
) -> ResolveOutcome {
    match spec_parse_func(e) {
        Some((name, arg)) => spec_func_outcome(context, groups, source, inputs, outputs, name, arg),
        None => {
            let e2 = if spec_has_token_var(e) {
                spec_substitute(e, vars, 0)
            } else {
                e
            };
            let ws = spec_ws_relative(e2, source);
            if spec_is_glob(e2) {
                ResolveOutcome::Pair(Seq::empty(), seq![ws])
            } else {
                ResolveOutcome::Pair(seq![ws], Seq::empty())
            }
        },
    }
}

/// What a whole list resolves to: the first error, or every entry's paths
/// and globs in order.
pub open spec fn spec_resolve_list(
    context: TokenContext,
    groups: &KeyMap<Vec<String>>,
    source: Seq<char>,
    vars: &KeyMap<String>,
    inputs: Seq<Seq<char>>,
    outputs: Seq<Seq<char>>,
    entries: Seq<Seq<char>>,
) -> ResolveOutcome
    decreases entries.len(),
{
    if entries.len() == 0 {
        ResolveOutcome::Pair(Seq::empty(), Seq::empty())
    } else {
        match spec_resolve_list(
            context,
            groups,
            source,
            vars,
            inputs,
            outputs,
            entries.drop_last(),
        ) {
            ResolveOutcome::Pair(p, g) => match spec_entry_outcome(
                context,
                groups,
                source,
                vars,
                inputs,
                outputs,
                entries.last(),
            ) {
                ResolveOutcome::Pair(pe, ge) => ResolveOutcome::Pair(p + pe, g + ge),
                err => err,
            },
            err => err,
        }
    }
}

/// Resolve a list of entries into workspace-relative paths and globs.
pub fn resolve_list(
    context: TokenContext,
    groups: &KeyMap<Vec<String>>,
    source: &str,
    vars: &KeyMap<String>,
    inputs: &Vec<String>,
    outputs: &Vec<String>,
    entries: &Vec<String>,
) -> (r: Result<(Vec<String>, Vec<String>), TokenError>)
    requires
        groups.wf(),
        vars.wf(),
    ensures
        match r {
            Ok(pair) => spec_resolve_list(
                context,
                groups,
                source@,
                vars,
                inputs.deep_view(),
                outputs.deep_view(),
                entries.deep_view(),
            ) == ResolveOutcome::Pair(pair.0.deep_view(), pair.1.deep_view()),
            Err(e) => spec_resolve_list(
                context,
                groups,
                source@,
                vars,
                inputs.deep_view(),
                outputs.deep_view(),
                entries.deep_view(),
            ) == token_error_outcome(&e),
        },
{
    let n = entries.len();
    let mut paths: Vec<String> = Vec::new();
    let mut globs: Vec<String> = Vec::new();
    proof {
        assert(paths.deep_view() =~= Seq::<Seq<char>>::empty());
        assert(globs.deep_view() =~= Seq::<Seq<char>>::empty());
        assert(entries.deep_view().take(0) =~= Seq::<Seq<char>>::empty());
    }
    let mut i: usize = 0;
    while i < n
        invariant
            groups.wf(),
            vars.wf(),
            n == entries@.len(),
            0 <= i <= n,
            spec_resolve_list(
                context,
                groups,
                source@,
                vars,
                inputs.deep_view(),
                outputs.deep_view(),
                entries.deep_view().take(i as int),
            ) == ResolveOutcome::Pair(paths.deep_view(), globs.deep_view()),
        decreases n - i,
    {
        let ghost p0 = paths.deep_view();
        let ghost g0 = globs.deep_view();
        let e = &entries[i];
        match parse_token_func(e.as_str()) {
            Some(func) => {
                match resolve_func(context, groups, source, inputs, outputs, &func) {
                    Ok(pair) => {
                        let (mut fp, mut fg) = pair;
                        let ghost fpv = fp.deep_view();
                        let ghost fgv = fg.deep_view();
                        paths.append(&mut fp);
                        globs.append(&mut fg);
                        proof {
                            assert(paths.deep_view() =~= p0 + fpv);
                            assert(globs.deep_view() =~= g0 + fgv);
                        }
                    },
                    Err(err) => {
                        proof {
                            let dv = entries.deep_view();
                            assert(dv.take(n as int) =~= dv);
                            lemma_resolve_list_error(
                                context,
                                groups,
                                source@,
                                vars,
                                inputs.deep_view(),
                                outputs.deep_view(),
                                dv,
                                i as int,
                                token_error_outcome(&err),
                            );
                        }
                        return Err(err);
                    },
                }
            },
            None => {
                let e2 = if has_token_var(e.as_str()) {
                    resolve_vars(e.as_str(), vars)
                } else {
                    e.clone()
                };
                let ws = ws_relative(e2.as_str(), source);
                if is_glob(e2.as_str()) {
                    globs.push(ws);
                    proof {
                        assert(paths.deep_view() =~= p0 + Seq::<Seq<char>>::empty());
                        assert(globs.deep_view() =~= g0 + seq![
                            spec_ws_relative(
                                if spec_has_token_var(entries.deep_view()[i as int]) {
                                    spec_substitute(entries.deep_view()[i as int], vars, 0)
                                } else {
                                    entries.deep_view()[i as int]
                                },
                                source@,
                            ),
                        ]);
                    }
                } else {
                    paths.push(ws);
                    proof {
                        assert(globs.deep_view() =~= g0 + Seq::<Seq<char>>::empty());
                        assert(paths.deep_view() =~= p0 + seq![
                            spec_ws_relative(
                                if spec_has_token_var(entries.deep_view()[i as int]) {
                                    spec_substitute(entries.deep_view()[i as int], vars, 0)
                                } else {
                                    entries.deep_view()[i as int]
                                },
                                source@,
                            ),
                        ]);
                    }
                }
            },
        }
        i += 1;
        proof {
            let dv = entries.deep_view();
            assert(dv.take(i as int).drop_last() =~= dv.take(i - 1));
            assert(dv.take(i as int).last() == dv[i - 1]);
        }
    }
    proof {
        assert(entries.deep_view().take(n as int) =~= entries.deep_view());
    }
    Ok((paths, globs))
}

/// Where a prefix of the list resolves cleanly and the next entry fails,
/// the whole list fails the same way.
proof fn lemma_resolve_list_error(
    context: TokenContext,
    groups: &KeyMap<Vec<String>>,
    source: Seq<char>,
    vars: &KeyMap<String>,
    inputs: Seq<Seq<char>>,
    outputs: Seq<Seq<char>>,
    entries: Seq<Seq<char>>,
    i: int,
    err: ResolveOutcome,
)
    requires
        0 <= i < entries.len(),
        !(err matches ResolveOutcome::Pair(_, _)),
        spec_resolve_list(context, groups, source, vars, inputs, outputs, entries.take(i))
            matches ResolveOutcome::Pair(_, _),
        spec_entry_outcome(context, groups, source, vars, inputs, outputs, entries[i]) == err,
    ensures
        spec_resolve_list(context, groups, source, vars, inputs, outputs, entries) == err,
    decreases entries.len(),
{
    if entries.len() == i + 1 {
        assert(entries.drop_last() =~= entries.take(i));
        assert(entries.last() == entries[i]);
    } else {
        assert(entries.drop_last().take(i) =~= entries.take(i));
        assert(entries.drop_last()[i] == entries[i]);
        lemma_resolve_list_error(
            context,
            groups,
            source,
            vars,
            inputs,
            outputs,
            entries.drop_last(),
            i,
            err,
        );
    }
}

/// A maximal run of variable-name characters has the measured length.
proof fn lemma_var_name_len(s: Seq<char>, i: int, l: int)
    requires
        0 <= i <= s.len(),
        0 <= l,
        i + l <= s.len(),
        forall|j: int| i <= j < i + l ==> is_var_char(#[trigger] s[j]),
        i + l < s.len() ==> !is_var_char(s[i + l]),
    ensures
        var_name_len(s, i) == l,
    decreases l,
{
    if l == 0 {
    } else {
        assert(is_var_char(s[i]));
        lemma_var_name_len(s, i + 1, l - 1);
    }
}

} // verus!
