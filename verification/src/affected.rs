//! Whether a task is affected by a set of touched files, and which touched
//! files fall to it.
use vstd::prelude::*;

use starbase_utils::glob::GlobSet;

use crate::collections::{KeyMap, StrSet};
use crate::glob::{glob_match, globset_expressions, globset_matches, globset_negations,
    globset_new_split};
use crate::ids::str_eq;
use crate::task::{has_no_inputs_flag, Task, TaskError};

verus! {

/// One of the task's input variables is set to a non-empty value.
pub open spec fn spec_env_var_hit(t: &Task, env: &KeyMap<String>) -> bool {
    exists|v: Seq<char>|
        #[trigger] t.input_vars.spec_contains(v) && env.spec_contains(v) && env.spec_get(v)@.len()
            > 0
}

/// A touched file lies among the task's input paths or matches its input
/// globs, with the output globs negated.
pub open spec fn spec_file_hit(t: &Task, touched: Seq<Seq<char>>) -> bool {
    exists|i: int|
        0 <= i < touched.len() && (t.input_paths.spec_contains(#[trigger] touched[i])
            || glob_match(t.input_globs.seq(), t.output_globs.seq(), touched[i]))
}

/// A task is affected when it carries the no-inputs marker, when one of its
/// input variables is set non-empty, or when a touched file hits its inputs.
pub open spec fn spec_is_affected(t: &Task, touched: Seq<Seq<char>>, env: &KeyMap<String>) -> bool {
    ||| has_no_inputs_flag(t)
    ||| spec_env_var_hit(t, env)
    ||| spec_file_hit(t, touched)
}

impl Task {
    /// A glob set over the input globs, with the output globs negated.
    pub fn create_globset(&self) -> (r: Result<GlobSet<'static>, TaskError>)
        ensures
            r matches Ok(g) ==> globset_expressions(&g) == self.input_globs.seq()
                && globset_negations(&g) == self.output_globs.seq(),
    {
        let expressions = self.input_globs.to_vec();
        let negations = self.output_globs.to_vec();
        match globset_new_split(&expressions, &negations) {
            Ok(g) => Ok(g),
            Err(e) => Err(TaskError::InvalidGlob(e)),
        }
    }

    /// Whether the task is affected by the touched files, under the given
    /// environment. A task with the no-inputs marker is always affected.
    pub fn is_affected(&self, touched_files: &StrSet, env: &KeyMap<String>) -> (r: Result<
        bool,
        TaskError,
    >)
        requires
            env.wf(),
        ensures
            r matches Ok(b) ==> b == spec_is_affected(self, touched_files.seq(), env),
            has_no_inputs_flag(self) ==> (r matches Ok(b) && b),
            r is Err ==> !has_no_inputs_flag(self) && !spec_env_var_hit(self, env),
    {
        if self.has_flag_no_inputs() {
            return Ok(true);
        }
        let nv = self.input_vars.len();
        let mut i: usize = 0;
        while i < nv
            invariant
                env.wf(),
                nv == self.input_vars.seq().len(),
                0 <= i <= nv,
                forall|j: int|
                    0 <= j < i ==> !(env.spec_contains(#[trigger] self.input_vars.seq()[j])
                        && env.spec_get(self.input_vars.seq()[j])@.len() > 0),
            decreases nv - i,
        {
            let var_name = self.input_vars.at(i);
            match env.get(var_name.as_str()) {
                Some(value) => {
                    if value.unicode_len() > 0 {
                        proof {
                            assert(self.input_vars.spec_contains(self.input_vars.seq()[i as int]));
                        }
                        return Ok(true);
                    }
                },
                None => {},
            }
            i += 1;
        }
        proof {
            assert forall|v: Seq<char>| #[trigger]
                self.input_vars.spec_contains(v) implies !(env.spec_contains(v) && env.spec_get(
                v,
            )@.len() > 0) by {
                let j = choose|j: int|
                    0 <= j < self.input_vars.seq().len() && self.input_vars.seq()[j] == v;
            };
        }
        let globset = match self.create_globset() {
            Ok(g) => g,
            Err(e) => {
                return Err(e);
            },
        };
        let nf = touched_files.len();
        let mut k: usize = 0;
        while k < nf
            invariant
                nf == touched_files.seq().len(),
                0 <= k <= nf,
                globset_expressions(&globset) == self.input_globs.seq(),
                globset_negations(&globset) == self.output_globs.seq(),
                forall|j: int|
                    0 <= j < k ==> !(self.input_paths.spec_contains(#[trigger] touched_files.seq()[j])
                        || glob_match(
                        self.input_globs.seq(),
                        self.output_globs.seq(),
                        touched_files.seq()[j],
                    )),
            decreases nf - k,
        {
            let file = touched_files.at(k);
            if self.input_paths.contains(file.as_str()) {
                return Ok(true);
            }
            if globset_matches(&globset, file.as_str()) {
                return Ok(true);
            }
            k += 1;
        }
        Ok(false)
    }

    /// Whether the task carries the no-inputs marker.
    pub fn has_flag_no_inputs(&self) -> (r: bool)
        ensures
            r == has_no_inputs_flag(self),
    {
        let n = self.flags.len();
        let mut i: usize = 0;
        while i < n
            invariant
                n == self.flags@.len(),
                0 <= i <= n,
                forall|j: int| 0 <= j < i ==> self.flags@[j] != crate::task::TaskFlag::NoInputs,
            decreases n - i,
        {
            if self.flags[i] == crate::task::TaskFlag::NoInputs {
                return true;
            }
            i += 1;
        }
        proof {
            if self.flags@.contains(crate::task::TaskFlag::NoInputs) {
                let j = choose|j: int|
                    0 <= j < self.flags@.len() && self.flags@[j] == crate::task::TaskFlag::NoInputs;
            }
        }
        false
    }

    /// The touched files inside the project that hit the task's inputs, each
    /// relativized to the project as `./path`.
    pub fn get_affected_files(&self, touched_files: &StrSet, project_source: &str) -> (r: Result<
        Vec<String>,
        TaskError,
    >)
        ensures
            r matches Ok(files) ==> files.deep_view() == spec_affected_files(
                self,
                touched_files.seq(),
                project_source@,
            ),
    {
        let globset = match self.create_globset() {
            Ok(g) => g,
            Err(e) => {
                return Err(e);
            },
        };
        let nf = touched_files.len();
        let mut out: Vec<String> = Vec::new();
        let mut k: usize = 0;
        while k < nf
            invariant
                nf == touched_files.seq().len(),
                0 <= k <= nf,
                globset_expressions(&globset) == self.input_globs.seq(),
                globset_negations(&globset) == self.output_globs.seq(),
                out.deep_view() == spec_affected_files(
                    self,
                    touched_files.seq().take(k as int),
                    project_source@,
                ),
            decreases nf - k,
        {
            let ghost pre = out.deep_view();
            let file = touched_files.at(k);
            if str_starts_with(file.as_str(), project_source) {
                if self.input_paths.contains(file.as_str()) || globset_matches(
                    &globset,
                    file.as_str(),
                ) {
                    out.push(relativize(file.as_str(), project_source));
                }
            }
            k += 1;
            proof {
                let cur = touched_files.seq().take(k as int);
                assert(cur.drop_last() =~= touched_files.seq().take(k - 1));
                assert(cur.last() == touched_files.seq()[k - 1]);
                assert(out.deep_view() =~= spec_affected_files(self, cur, project_source@));
            }
        }
        proof {
            assert(touched_files.seq().take(nf as int) =~= touched_files.seq());
        }
        Ok(out)
    }
}

/// A touched file belongs to the task: it lies under the project source and
/// hits an input path or the input globs.
pub open spec fn spec_file_belongs(t: &Task, file: Seq<char>, src: Seq<char>) -> bool {
    &&& src.len() <= file.len() && file.take(src.len() as int) == src
    &&& (t.input_paths.spec_contains(file) || glob_match(
        t.input_globs.seq(),
        t.output_globs.seq(),
        file,
    ))
}

/// A file made relative to the project: the source prefix and one path
/// separator drop away, and `./` takes their place.
pub open spec fn spec_relativize(file: Seq<char>, src: Seq<char>) -> Seq<char> {
    let rest = if file.len() > src.len() && file[src.len() as int] == '/' {
        file.skip(src.len() as int + 1)
    } else {
        file.skip(src.len() as int)
    };
    "./"@ + rest
}

/// The touched files belonging to the task, in order, relativized.
pub open spec fn spec_affected_files(t: &Task, files: Seq<Seq<char>>, src: Seq<char>) -> Seq<
    Seq<char>,
>
    decreases files.len(),
{
    if files.len() == 0 {
        Seq::empty()
    } else {
        let rest = spec_affected_files(t, files.drop_last(), src);
        if spec_file_belongs(t, files.last(), src) {
            rest.push(spec_relativize(files.last(), src))
        } else {
            rest
        }
    }
}

/// Whether one string starts with another.
pub fn str_starts_with(s: &str, prefix: &str) -> (r: bool)
    ensures
        r == (prefix@.len() <= s@.len() && s@.take(prefix@.len() as int) == prefix@),
{
    let np = prefix.unicode_len();
    let ns = s.unicode_len();
    if np > ns {
        return false;
    }
    let head = s.substring_char(0, np);
    proof {
        assert(head@ =~= s@.take(np as int));
    }
    str_eq(head, prefix)
}

/// Drop a project source prefix, and one path separator after it, replacing
/// them with `./`.
fn relativize(file: &str, src: &str) -> (r: String)
    requires
        src@.len() <= file@.len(),
    ensures
        r@ == spec_relativize(file@, src@),
{
    let nf = file.unicode_len();
    let ns = src.unicode_len();
    let rest = if ns < nf && file.get_char(ns) == '/' {
        file.substring_char(ns + 1, nf)
    } else {
        file.substring_char(ns, nf)
    };
    let mut out = "./".to_owned();
    out.append(rest);
    proof {
        assert(rest@ =~= (if file@.len() > src@.len() && file@[src@.len() as int] == '/' {
            file@.skip(src@.len() as int + 1)
        } else {
            file@.skip(src@.len() as int)
        }));
    }
    out
}

} // verus!
