//! Loading a task's `.env` file: the read is carried by an outside parser
//! and depends on the disk, so the library states only what holds of every
//! outcome and handles each one in verified code.
use vstd::prelude::*;

use crate::collections::KeyMap;
use crate::task::TaskError;

verus! {

/// What reading an environment file yielded.
#[derive(Debug)]
pub enum EnvFileRead {
    /// The file does not exist; this is allowed and skipped.
    Missing,
    /// The file parsed into key and value pairs, in file order.
    Loaded(Vec<(String, String)>),
    /// The file exists but cannot be read or parsed; holds the cause.
    Invalid(String),
}

/// Relies on dotenvy::from_path_iter: iterates `KEY=VALUE` entries of the
/// file at the path; a not-found error marks the file missing, any other
/// failure of the open or of an entry marks it invalid. What comes back
/// depends on the disk, so nothing more is promised.
#[verifier::external_body]
pub fn read_env_file(path: &String) -> (r: EnvFileRead)
{
    match dotenvy::from_path_iter(path.as_str()) {
        Ok(iter) => {
            let mut pairs: Vec<(String, String)> = Vec::new();
            for item in iter {
                match item {
                    Ok(pair) => pairs.push(pair),
                    Err(e) => return EnvFileRead::Invalid(format!("{e}")),
                }
            }
            EnvFileRead::Loaded(pairs)
        },
        Err(e) if e.not_found() => EnvFileRead::Missing,
        Err(e) => EnvFileRead::Invalid(format!("{e}")),
    }
}

/// Fold an environment file's outcome into a task's environment: a missing
/// file is skipped and never fails; a malformed file fails with the
/// resolved path and the cause; a loaded file contributes each pair unless
/// the task already sets the key — explicit task environment wins.
pub fn apply_env_file(env: &mut KeyMap<String>, path: &String, read: EnvFileRead) -> (r: Result<
    (),
    TaskError,
>)
    requires
        old(env).wf(),
    ensures
        final(env).wf(),
        r is Ok <==> !(read is Invalid),
        read is Missing ==> *final(env) == *old(env),
        (match read {
            EnvFileRead::Invalid(cause) => r matches Err(TaskError::InvalidEnvFile(p, c)) && p@
                == path@ && c@ == cause@,
            _ => true,
        }),
        read is Invalid ==> *final(env) == *old(env),
        (match read {
            EnvFileRead::Loaded(pairs) => {
                &&& (forall|k: Seq<char>|
                    #[trigger] final(env).spec_contains(k) <==> (old(env).spec_contains(k) || (
                    exists|i: int| 0 <= i < pairs@.len() && pairs@[i].0@ == k)))
                &&& (forall|k: Seq<char>|
                    old(env).spec_contains(k) ==> #[trigger] final(env).spec_get(k) == old(
                        env,
                    ).spec_get(k))
            },
            _ => true,
        }),
    {
    match read {
        EnvFileRead::Missing => Ok(()),
        EnvFileRead::Invalid(cause) => Err(TaskError::InvalidEnvFile(path.clone(), cause)),
        EnvFileRead::Loaded(pairs) => {
            let n = pairs.len();
            let ghost env0 = *env;
            let mut i: usize = 0;
            while i < n
                invariant
                    env.wf(),
                    n == pairs@.len(),
                    0 <= i <= n,
                    forall|k: Seq<char>|
                        #[trigger] env.spec_contains(k) <==> (env0.spec_contains(k) || (
                        exists|l: int| 0 <= l < i && pairs@[l].0@ == k)),
                    forall|k: Seq<char>|
                        env0.spec_contains(k) ==> #[trigger] env.spec_get(k) == env0.spec_get(k),
                decreases n - i,
            {
                let key = &pairs[i].0;
                let value = pairs[i].1.clone();
                env.insert_absent(key.as_str(), value);
                i += 1;
                proof {
                    assert forall|k: Seq<char>| #[trigger]
                        env.spec_contains(k) <==> (env0.spec_contains(k) || (exists|l: int|
                            0 <= l < i && pairs@[l].0@ == k)) by {
                        if k == pairs@[i - 1].0@ {
                            assert(pairs@[i - 1].0@ == k);
                        } else {
                            if exists|l: int| 0 <= l < i && pairs@[l].0@ == k {
                                let l = choose|l: int| 0 <= l < i && pairs@[l].0@ == k;
                                assert(l < i - 1);
                            }
                            if exists|l: int| 0 <= l < i - 1 && pairs@[l].0@ == k {
                                let l = choose|l: int| 0 <= l < i - 1 && pairs@[l].0@ == k;
                                assert(0 <= l < i && pairs@[l].0@ == k);
                            }
                        }
                    };
                }
            }
            Ok(())
        },
    }
}

} // verus!
