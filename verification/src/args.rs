//! Splitting a command line string into arguments: words are separated by
//! spaces or tabs, and single or double quotes group characters, including
//! separators, into one word.
use vstd::prelude::*;

verus! {

/// The splitter's state after reading a prefix of the input.
pub struct SplitState {
    /// Inside a single-quoted span.
    pub in_single: bool,
    /// Inside a double-quoted span.
    pub in_double: bool,
    /// The word being accumulated.
    pub cur: Seq<char>,
    /// A word has begun, even if no character has been kept yet.
    pub started: bool,
    /// The words already completed.
    pub out: Seq<Seq<char>>,
}

/// The splitter's starting state.
pub open spec fn split_init() -> SplitState {
    SplitState { in_single: false, in_double: false, cur: Seq::empty(), started: false, out: Seq::empty() }
}

/// Read one character.
pub open spec fn split_step(st: SplitState, c: char) -> SplitState {
    if st.in_single {
        if c == '\'' {
            SplitState { in_single: false, ..st }
        } else {
            SplitState { cur: st.cur.push(c), ..st }
        }
    } else if st.in_double {
        if c == '"' {
            SplitState { in_double: false, ..st }
        } else {
            SplitState { cur: st.cur.push(c), ..st }
        }
    } else if c == '\'' {
        SplitState { in_single: true, started: true, ..st }
    } else if c == '"' {
        SplitState { in_double: true, started: true, ..st }
    } else if c == ' ' || c == '\t' {
        if st.started {
            SplitState { cur: Seq::empty(), started: false, out: st.out.push(st.cur), ..st }
        } else {
            st
        }
    } else {
        SplitState { cur: st.cur.push(c), started: true, ..st }
    }
}

/// The state after reading the first `i` characters of `s`.
pub open spec fn split_fold(s: Seq<char>, i: int) -> SplitState
    decreases i,
{
    if i <= 0 {
        split_init()
    } else {
        split_step(split_fold(s, i - 1), s[i - 1])
    }
}

/// The words a string splits into.
pub open spec fn spec_split_args(s: Seq<char>) -> Seq<Seq<char>> {
    let st = split_fold(s, s.len() as int);
    if st.started {
        st.out.push(st.cur)
    } else {
        st.out
    }
}

/// Split a command line string into arguments.
pub fn split_args(s: &str) -> (r: Vec<String>)
    ensures
        r.deep_view() == spec_split_args(s@),
{
    let n = s.unicode_len();
    let mut in_single = false;
    let mut in_double = false;
    let mut cur = String::new();
    let mut started = false;
    let mut out: Vec<String> = Vec::new();
    let mut i: usize = 0;
    while i < n
        invariant
            n == s@.len(),
            0 <= i <= n,
            in_single == split_fold(s@, i as int).in_single,
            in_double == split_fold(s@, i as int).in_double,
            cur@ == split_fold(s@, i as int).cur,
            started == split_fold(s@, i as int).started,
            out.deep_view() == split_fold(s@, i as int).out,
        decreases n - i,
    {
        let ghost pre = split_fold(s@, i as int);
        let c = s.get_char(i);
        if in_single {
            if c == '\'' {
                in_single = false;
            } else {
                push_char(&mut cur, c);
            }
        } else if in_double {
            if c == '"' {
                in_double = false;
            } else {
                push_char(&mut cur, c);
            }
        } else if c == '\'' {
            in_single = true;
            started = true;
        } else if c == '"' {
            in_double = true;
            started = true;
        } else if c == ' ' || c == '\t' {
            if started {
                out.push(cur);
                cur = String::new();
                started = false;
            }
        } else {
            push_char(&mut cur, c);
            started = true;
        }
        i += 1;
        proof {
            assert(split_fold(s@, i as int) == split_step(pre, s@[i - 1]));
            assert(out.deep_view() =~= split_fold(s@, i as int).out);
        }
    }
    if started {
        out.push(cur);
    }
    proof {
        assert(out.deep_view() =~= spec_split_args(s@));
    }
    out
}

/// Relies on String::push: appends the given character to the end of the
/// string.
#[verifier::external_body]
pub fn push_char(s: &mut String, c: char)
    ensures
        final(s)@ == old(s)@.push(c),
{
    s.push(c)
}

} // verus!
