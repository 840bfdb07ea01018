//! Building the project graph: creating projects lazily, expanding their
//! tasks in a fixed order, skipping cycle back-edges, and enforcing
//! cross-project constraints on the finished graph.
use vstd::prelude::*;

use crate::args::push_char;
use crate::collections::{clone_string_vec, KeyMap, StrSet};
use crate::envfile::{apply_env_file, read_env_file, EnvFileRead};
use crate::ids::{str_eq, Id};
use crate::platform::PlatformType;
use crate::project::{DepConfig, Project};
use crate::target::{spec_format, target_in, targets_contain, Target, TargetScope, TargetView};
use crate::task::{env_view, Task, TaskError};
use crate::token::{
    has_token_var, parse_token_func, resolve_func, resolve_list, resolve_vars,
    spec_has_token_var, spec_parse_func, spec_resolve_list, spec_substitute, spec_ws_relative,
    token_error_outcome, ws_relative, ResolveOutcome, TokenContext, TokenError,
};

verus! {

/// Raised when the graph cannot be built.
#[derive(Debug)]
pub enum GraphError {
    /// An identifier has no configured source.
    UnconfiguredId(String),
    /// A task depends on a target scope that is not supported there.
    UnsupportedTargetScope(String),
    /// A token in a task field cannot be expanded.
    Token(TokenError),
    /// A task field cannot be expanded.
    Task(TaskError),
    /// A non-persistent task depends on a persistent one; holds both
    /// targets in canonical form.
    PersistentDepRequirement(String, String),
    /// An edge breaks the project type relationship rules; holds both
    /// project identifiers.
    TypeRelationshipViolation(String, String),
    /// An edge breaks a tag relationship rule; holds both project
    /// identifiers.
    TagRelationshipViolation(String, String),
}

/// The token variables a task sees: the project's naming and placing, and
/// the task's own target, identifier, platform and type.
#[verifier::rlimit(100)]
pub fn build_token_vars(project: &Project, workspace_root: &String, task: &Task) -> (r: KeyMap<
    String,
>)
    ensures
        r.wf(),
        r.spec_contains("project"@) && r.spec_get("project"@)@ == project.id@,
        r.spec_contains("projectSource"@) && r.spec_get("projectSource"@)@ == project.source@,
        r.spec_contains("target"@) && r.spec_get("target"@)@ == spec_format(task.target@),
        r.spec_contains("task"@) && r.spec_get("task"@)@ == task.id@,
        r.spec_contains("workspaceRoot"@) && r.spec_get("workspaceRoot"@)@ == workspace_root@,
{
    proof {
        reveal_strlit("project");
        reveal_strlit("workspaceRoot");
        reveal_strlit("projectSource");
        assert("projectSource"@[0] == 'p' && "workspaceRoot"@[0] == 'w');
        assert("projectSource"@ != "workspaceRoot"@);
        reveal_strlit("projectRoot");
        reveal_strlit("projectSource");
        reveal_strlit("projectType");
        reveal_strlit("language");
        reveal_strlit("target");
        reveal_strlit("task");
        reveal_strlit("taskPlatform");
        reveal_strlit("taskType");
        reveal_strlit("workspaceRoot");
    }
    let mut vars: KeyMap<String> = KeyMap::new();
    let mut root = workspace_root.clone();
    push_char(&mut root, '/');
    root.append(project.source.as_str());
    vars.insert("projectRoot", root);
    vars.insert("projectType", project.type_of.key());
    vars.insert("language", project.language.key());
    vars.insert("taskPlatform", task.platform.key());
    vars.insert(
        "taskType",
        match task.type_of {
            crate::platform::TaskType::Build => "build".to_owned(),
            crate::platform::TaskType::Run => "run".to_owned(),
            crate::platform::TaskType::Test => "test".to_owned(),
        },
    );
    vars.insert("project", project.id.as_str().to_owned());
    proof {
        assert(vars.spec_contains("project"@) && vars.spec_get("project"@)@ == project.id@);
    }
    vars.insert("projectSource", project.source.as_str().to_owned());
    proof {
        assert("project"@.len() == 7 && "projectSource"@.len() == 13);
        assert("project"@ != "projectSource"@);
        assert(vars.spec_contains("project"@) && vars.spec_get("project"@)@ == project.id@);
    }
    vars.insert("target", task.target.format());
    proof {
        assert("target"@.len() == 6);
        assert("project"@ != "target"@ && "projectSource"@ != "target"@);
        assert(vars.spec_contains("project"@) && vars.spec_get("project"@)@ == project.id@);
        assert(vars.spec_contains("projectSource"@) && vars.spec_get("projectSource"@)@
            == project.source@);
    }
    vars.insert("task", task.id.as_str().to_owned());
    proof {
        assert("task"@.len() == 4);
        assert("project"@ != "task"@ && "projectSource"@ != "task"@ && "target"@ != "task"@);
        assert(vars.spec_contains("project"@) && vars.spec_get("project"@)@ == project.id@);
        assert(vars.spec_contains("projectSource"@) && vars.spec_get("projectSource"@)@
            == project.source@);
        assert(vars.spec_contains("target"@) && vars.spec_get("target"@)@ == spec_format(
            task.target@,
        ));
    }
    vars.insert("workspaceRoot", workspace_root.clone());
    proof {
        assert("workspaceRoot"@.len() == 13);
        assert("project"@ != "workspaceRoot"@ && "target"@ != "workspaceRoot"@ && "task"@
            != "workspaceRoot"@);
        assert(vars.spec_contains("project"@) && vars.spec_get("project"@)@ == project.id@);
        assert(vars.spec_contains("projectSource"@) && vars.spec_get("projectSource"@)@
            == project.source@);
        assert(vars.spec_contains("target"@) && vars.spec_get("target"@)@ == spec_format(
            task.target@,
        ));
        assert(vars.spec_contains("task"@) && vars.spec_get("task"@)@ == task.id@);
    }
    vars
}

/// Resolve the command under the command context: a token function is not
/// legal there, and variables substitute inline.
pub fn expand_task_command(task: &mut Task, vars: &KeyMap<String>) -> (r: Result<(), GraphError>)
    requires
        vars.wf(),
    ensures
        match r {
            Ok(_) => {
                &&& spec_parse_func(old(task).command@) is None
                &&& final(task).command@ == (if spec_has_token_var(old(task).command@) {
                    spec_substitute(old(task).command@, vars, 0)
                } else {
                    old(task).command@
                })
                &&& *final(task) == (Task { command: final(task).command, ..*old(task) })
            },
            Err(_) => spec_parse_func(old(task).command@) is Some && *final(task) == *old(task),
        },
{
    match parse_token_func(task.command.as_str()) {
        Some(f) => Err(
            GraphError::Token(TokenError::InvalidTokenContext(f.name)),
        ),
        None => {
            if has_token_var(task.command.as_str()) {
                let cur = task.command.clone();
                task.command = resolve_vars(cur.as_str(), vars);
            }
            Ok(())
        },
    }
}

/// What one argument expands to, in order: a token function's paths, each
/// relativized, then its globs, normalized; an argument with a variable,
/// substituted; any other argument unchanged.
pub open spec fn spec_expand_one_arg(
    arg: Seq<char>,
    groups: &KeyMap<Vec<String>>,
    source: Seq<char>,
    vars: &KeyMap<String>,
    inputs: Seq<Seq<char>>,
    outputs: Seq<Seq<char>>,
    run_from_workspace_root: bool,
) -> Result<Seq<Seq<char>>, ResolveOutcome> {
    match spec_parse_func(arg) {
        Some((name, fnarg)) => {
            match crate::token::spec_func_outcome(
                TokenContext::Args,
                groups,
                source,
                inputs,
                outputs,
                name,
                fnarg,
            ) {
                ResolveOutcome::Pair(paths, globs) => Ok(
                    arg_path_map(paths, source, run_from_workspace_root) + arg_path_map(
                        globs,
                        source,
                        run_from_workspace_root,
                    ),
                ),
                err => Err(err),
            }
        },
        None => {
            if spec_has_token_var(arg) {
                Ok(seq![spec_substitute(arg, vars, 0)])
            } else {
                Ok(seq![arg])
            }
        },
    }
}

/// Each path of a list written as a command argument.
pub open spec fn arg_path_map(paths: Seq<Seq<char>>, source: Seq<char>, rfwr: bool) -> Seq<
    Seq<char>,
> {
    paths.map_values(|p: Seq<char>| spec_arg_path(p, source, rfwr))
}

/// A workspace-relative path written as a command argument: relative to
/// the project unless the task runs from the workspace root, and prefixed
/// with `./` when it does not climb out.
pub open spec fn spec_arg_path(
    path: Seq<char>,
    source: Seq<char>,
    run_from_workspace_root: bool,
) -> Seq<char> {
    let rel = if run_from_workspace_root {
        path
    } else {
        spec_relative_from(path, source)
    };
    if rel.len() >= 2 && rel[0] == '.' && rel[1] == '.' {
        rel
    } else {
        "./"@ + rel
    }
}

/// A workspace-relative path rewritten relative to a base directory: under
/// the base the prefix drops away; at the base it is `.`; anywhere else
/// one `..` per base segment leads back to the workspace root.
pub open spec fn spec_relative_from(path: Seq<char>, base: Seq<char>) -> Seq<char> {
    if base == "."@ || base.len() == 0 {
        path
    } else if path.len() > base.len() && path.take(base.len() as int) == base && path[base.len() as int]
        == '/' {
        path.skip(base.len() as int + 1)
    } else if path == base {
        "."@
    } else {
        spec_updirs(base) + path
    }
}

/// One `../` per segment of a base directory.
pub open spec fn spec_updirs(base: Seq<char>) -> Seq<char>
    decreases base.len(),
{
    if base.len() == 0 {
        Seq::empty()
    } else {
        let r = spec_updirs(base.drop_last());
        if base.last() == '/' {
            r + "../"@
        } else if base.len() == 1 {
            "../"@
        } else {
            r
        }
    }
}

/// Write one `../` for each segment of a base directory.
fn updirs(base: &str) -> (r: String)
    ensures
        r@ == spec_updirs(base@),
    decreases base@.len(),
{
    let n = base.unicode_len();
    if n == 0 {
        let r = String::new();
        proof {
            assert(r@ =~= spec_updirs(base@));
        }
        return r;
    }
    let head = base.substring_char(0, n - 1);
    proof {
        assert(head@ =~= base@.drop_last());
    }
    let last = base.get_char(n - 1);
    if last == '/' {
        let mut r = updirs(head);
        r.append("../");
        r
    } else if n == 1 {
        "../".to_owned()
    } else {
        updirs(head)
    }
}

/// Rewrite a workspace-relative path relative to a base directory.
pub fn relative_from(path: &str, base: &str) -> (r: String)
    ensures
        r@ == spec_relative_from(path@, base@),
{
    proof {
        reveal_strlit(".");
    }
    let nb = base.unicode_len();
    let np = path.unicode_len();
    if str_eq(base, ".") || nb == 0 {
        return path.to_owned();
    }
    if np > nb {
        let head = path.substring_char(0, nb);
        proof {
            assert(head@ =~= path@.take(nb as int));
        }
        if str_eq(head, base) && path.get_char(nb) == '/' {
            let rest = path.substring_char(nb + 1, np);
            proof {
                assert(rest@ =~= path@.skip(nb as int + 1));
            }
            return rest.to_owned();
        }
    }
    if str_eq(path, base) {
        return ".".to_owned();
    }
    let mut out = updirs(base);
    out.append(path);
    proof {
        assert(out@ =~= spec_updirs(base@) + path@);
    }
    out
}

/// Write one expanded path as a command argument.
pub fn arg_path(path: &str, source: &str, run_from_workspace_root: bool) -> (r: String)
    ensures
        r@ == spec_arg_path(path@, source@, run_from_workspace_root),
{
    let rel = if run_from_workspace_root {
        path.to_owned()
    } else {
        relative_from(path, source)
    };
    let n = rel.unicode_len();
    if n >= 2 && rel.as_str().get_char(0) == '.' && rel.as_str().get_char(1) == '.' {
        rel
    } else {
        let mut out = "./".to_owned();
        out.append(rel.as_str());
        out
    }
}

/// What a whole argument list expands to: the first error, or each
/// argument's expansion in order.
pub open spec fn spec_expand_args(
    entries: Seq<Seq<char>>,
    groups: &KeyMap<Vec<String>>,
    source: Seq<char>,
    vars: &KeyMap<String>,
    inputs: Seq<Seq<char>>,
    outputs: Seq<Seq<char>>,
    run_from_workspace_root: bool,
) -> Result<Seq<Seq<char>>, ResolveOutcome>
    decreases entries.len(),
{
    if entries.len() == 0 {
        Ok(Seq::empty())
    } else {
        match spec_expand_args(
            entries.drop_last(),
            groups,
            source,
            vars,
            inputs,
            outputs,
            run_from_workspace_root,
        ) {
            Ok(acc) => {
                match spec_expand_one_arg(
                    entries.last(),
                    groups,
                    source,
                    vars,
                    inputs,
                    outputs,
                    run_from_workspace_root,
                ) {
                    Ok(items) => Ok(acc + items),
                    Err(e) => Err(e),
                }
            },
            Err(e) => Err(e),
        }
    }
}

/// Expand the argument list: token functions become relativized paths and
/// normalized globs, variables substitute inline, and a plain argument
/// passes through unchanged.
pub fn expand_task_args(
    task: &mut Task,
    groups: &KeyMap<Vec<String>>,
    source: &String,
    vars: &KeyMap<String>,
) -> (r: Result<(), GraphError>)
    requires
        groups.wf(),
        vars.wf(),
    ensures
        match r {
            Ok(_) => {
                &&& Ok::<Seq<Seq<char>>, ResolveOutcome>(final(task).args.deep_view())
                    == spec_expand_args(
                    old(task).args.deep_view(),
                    groups,
                    source@,
                    vars,
                    old(task).inputs.deep_view(),
                    old(task).outputs.deep_view(),
                    old(task).options.run_from_workspace_root,
                )
                &&& *final(task) == (Task { args: final(task).args, ..*old(task) })
            },
            Err(_) => {
                &&& *final(task) == *old(task)
                &&& (spec_expand_args(
                    old(task).args.deep_view(),
                    groups,
                    source@,
                    vars,
                    old(task).inputs.deep_view(),
                    old(task).outputs.deep_view(),
                    old(task).options.run_from_workspace_root,
                ) is Err)
            },
        },
{
    if task.args.len() == 0 {
        proof {
            assert(task.args.deep_view() =~= Seq::<Seq<char>>::empty());
        }
        return Ok(());
    }
    let ghost t0 = *task;
    let rfwr = task.options.run_from_workspace_root;
    let n = task.args.len();
    let ghost av = task.args.deep_view();
    let ghost iv = task.inputs.deep_view();
    let ghost ov = task.outputs.deep_view();
    let mut out: Vec<String> = Vec::new();
    proof {
        assert(out.deep_view() =~= Seq::<Seq<char>>::empty());
        assert(av.take(0) =~= Seq::<Seq<char>>::empty());
    }
    let mut i: usize = 0;
    while i < n
        invariant
            groups.wf(),
            vars.wf(),
            n == task.args@.len(),
            av == task.args.deep_view(),
            iv == task.inputs.deep_view(),
            ov == task.outputs.deep_view(),
            *task == t0,
            t0 == *old(task),
            rfwr == task.options.run_from_workspace_root,
            0 <= i <= n,
            Ok::<Seq<Seq<char>>, ResolveOutcome>(out.deep_view()) == spec_expand_args(
                av.take(i as int),
                groups,
                source@,
                vars,
                iv,
                ov,
                rfwr,
            ),
        decreases n - i,
    {
        let ghost acc0 = out.deep_view();
        let arg = &task.args[i];
        match parse_token_func(arg.as_str()) {
            Some(func) => {
                match resolve_func(
                    TokenContext::Args,
                    groups,
                    source.as_str(),
                    &task.inputs,
                    &task.outputs,
                    &func,
                ) {
                    Ok(pair) => {
                        let (paths, globs) = pair;
                        let np = paths.len();
                        proof {
                            assert(arg_path_map(paths.deep_view().take(0), source@, rfwr)
                                =~= Seq::<Seq<char>>::empty());
                            assert(out.deep_view() =~= acc0 + arg_path_map(
                                paths.deep_view().take(0),
                                source@,
                                rfwr,
                            ));
                        }
                        let mut k: usize = 0;
                        while k < np
                            invariant
                                0 <= k <= np,
                                np == paths@.len(),
                                out.deep_view() =~= acc0 + arg_path_map(
                                    paths.deep_view().take(k as int),
                                    source@,
                                    rfwr,
                                ),
                                rfwr == task.options.run_from_workspace_root,
                                *task == t0,
                                t0 == *old(task),
                            decreases np - k,
                        {
                            let a = arg_path(paths[k].as_str(), source.as_str(), rfwr);
                            let ghost apv = a@;
                            let ghost pre = out.deep_view();
                            out.push(a);
                            k += 1;
                            proof {
                                let pv = paths.deep_view();
                                assert(out.deep_view() =~= pre.push(apv));
                                assert(pv.take(k as int).drop_last() =~= pv.take(k - 1));
                                assert(pv.take(k as int).last() == pv[k - 1]);
                                assert(arg_path_map(pv.take(k as int), source@, rfwr)
                                    =~= arg_path_map(pv.take(k - 1), source@, rfwr).push(
                                    spec_arg_path(pv[k - 1], source@, rfwr),
                                ));
                                assert(out.deep_view() =~= acc0 + arg_path_map(
                                    pv.take(k as int),
                                    source@,
                                    rfwr,
                                ));
                            }
                        }
                        let ng = globs.len();
                        let ghost acc1 = out.deep_view();
                        proof {
                            assert(arg_path_map(globs.deep_view().take(0), source@, rfwr)
                                =~= Seq::<Seq<char>>::empty());
                            assert(out.deep_view() =~= acc1 + arg_path_map(
                                globs.deep_view().take(0),
                                source@,
                                rfwr,
                            ));
                        }
                        let mut k2: usize = 0;
                        while k2 < ng
                            invariant
                                0 <= k2 <= ng,
                                ng == globs@.len(),
                                out.deep_view() =~= acc1 + arg_path_map(
                                    globs.deep_view().take(k2 as int),
                                    source@,
                                    rfwr,
                                ),
                                rfwr == task.options.run_from_workspace_root,
                                *task == t0,
                                t0 == *old(task),
                            decreases ng - k2,
                        {
                            let a = arg_path(globs[k2].as_str(), source.as_str(), rfwr);
                            let ghost apv = a@;
                            let ghost pre = out.deep_view();
                            out.push(a);
                            k2 += 1;
                            proof {
                                let gv = globs.deep_view();
                                assert(out.deep_view() =~= pre.push(apv));
                                assert(gv.take(k2 as int).drop_last() =~= gv.take(k2 - 1));
                                assert(gv.take(k2 as int).last() == gv[k2 - 1]);
                                assert(arg_path_map(gv.take(k2 as int), source@, rfwr)
                                    =~= arg_path_map(gv.take(k2 - 1), source@, rfwr).push(
                                    spec_arg_path(gv[k2 - 1], source@, rfwr),
                                ));
                                assert(out.deep_view() =~= acc1 + arg_path_map(
                                    gv.take(k2 as int),
                                    source@,
                                    rfwr,
                                ));
                            }
                        }
                        proof {
                            assert(paths.deep_view().take(np as int) =~= paths.deep_view());
                            assert(globs.deep_view().take(ng as int) =~= globs.deep_view());
                            assert(out.deep_view() =~= acc0 + (arg_path_map(
                                paths.deep_view(),
                                source@,
                                rfwr,
                            ) + arg_path_map(globs.deep_view(), source@, rfwr)));
                        }
                    },
                    Err(e) => {
                        proof {
                            lemma_expand_args_error(
                                av,
                                groups,
                                source@,
                                vars,
                                iv,
                                ov,
                                rfwr,
                                i as int,
                                token_error_outcome(&e),
                            );
                        }
                        return Err(GraphError::Token(e));
                    },
                }
            },
            None => {
                if has_token_var(arg.as_str()) {
                    out.push(resolve_vars(arg.as_str(), vars));
                    proof {
                        assert(out.deep_view() =~= acc0 + seq![
                            spec_substitute(av[i as int], vars, 0),
                        ]);
                    }
                } else {
                    out.push(arg.clone());
                    proof {
                        assert(out.deep_view() =~= acc0 + seq![av[i as int]]);
                    }
                }
            },
        }
        i += 1;
        proof {
            assert(av.take(i as int).drop_last() =~= av.take(i - 1));
            assert(av.take(i as int).last() == av[i - 1]);
        }
    }
    proof {
        assert(av.take(n as int) =~= av);
    }
    task.args = out;
    Ok(())
}

/// Where a prefix of the arguments expands cleanly and the next one fails,
/// the whole list fails the same way.
proof fn lemma_expand_args_error(
    entries: Seq<Seq<char>>,
    groups: &KeyMap<Vec<String>>,
    source: Seq<char>,
    vars: &KeyMap<String>,
    inputs: Seq<Seq<char>>,
    outputs: Seq<Seq<char>>,
    rfwr: bool,
    i: int,
    err: ResolveOutcome,
)
    requires
        0 <= i < entries.len(),
        !(err matches ResolveOutcome::Pair(_, _)),
        spec_expand_args(entries.take(i), groups, source, vars, inputs, outputs, rfwr) is Ok,
        spec_expand_one_arg(entries[i], groups, source, vars, inputs, outputs, rfwr) == Err::<
            Seq<Seq<char>>,
            ResolveOutcome,
        >(err),
    ensures
        spec_expand_args(entries, groups, source, vars, inputs, outputs, rfwr) == Err::<
            Seq<Seq<char>>,
            ResolveOutcome,
        >(err),
    decreases entries.len(),
{
    if entries.len() == i + 1 {
        assert(entries.drop_last() =~= entries.take(i));
        assert(entries.last() == entries[i]);
    } else {
        assert(entries.drop_last().take(i) =~= entries.take(i));
        assert(entries.drop_last()[i] == entries[i]);
        lemma_expand_args_error(
            entries.drop_last(),
            groups,
            source,
            vars,
            inputs,
            outputs,
            rfwr,
            i,
            err,
        );
    }
}

/// Every argument that holds no token passes through unchanged: a list of
/// plain arguments expands to itself.
pub proof fn lemma_plain_args_unchanged(
    entries: Seq<Seq<char>>,
    groups: &KeyMap<Vec<String>>,
    source: Seq<char>,
    vars: &KeyMap<String>,
    inputs: Seq<Seq<char>>,
    outputs: Seq<Seq<char>>,
    rfwr: bool,
)
    requires
        forall|i: int|
            0 <= i < entries.len() ==> spec_parse_func(#[trigger] entries[i]) is None
                && !spec_has_token_var(entries[i]),
    ensures
        spec_expand_args(entries, groups, source, vars, inputs, outputs, rfwr) == Ok::<
            Seq<Seq<char>>,
            ResolveOutcome,
        >(entries),
    decreases entries.len(),
{
    if entries.len() > 0 {
        lemma_plain_args_unchanged(
            entries.drop_last(),
            groups,
            source,
            vars,
            inputs,
            outputs,
            rfwr,
        );
        assert(entries.drop_last() + seq![entries.last()] =~= entries);
    } else {
        assert(entries =~= Seq::<Seq<char>>::empty());
    }
}


/// An entry that names an input environment variable: `$NAME` in capitals.
pub open spec fn spec_is_env_var_entry(e: Seq<char>) -> bool {
    &&& e.len() >= 2
    &&& e[0] == '$'
    &&& (('A' <= e[1] && e[1] <= 'Z') || e[1] == '_')
    &&& forall|j: int|
        1 <= j < e.len() ==> (('A' <= #[trigger] e[j] && e[j] <= 'Z') || ('0' <= e[j] && e[j]
            <= '9') || e[j] == '_')
}

/// Whether an entry names an input environment variable.
pub fn is_env_var_entry(e: &str) -> (r: bool)
    ensures
        r == spec_is_env_var_entry(e@),
{
    let n = e.unicode_len();
    if n < 2 {
        return false;
    }
    if e.get_char(0) != '$' {
        return false;
    }
    let c1 = e.get_char(1);
    if !(('A' <= c1 && c1 <= 'Z') || c1 == '_') {
        return false;
    }
    let mut j: usize = 1;
    while j < n
        invariant
            n == e@.len(),
            1 <= j <= n,
            forall|l: int|
                1 <= l < j ==> (('A' <= #[trigger] e@[l] && e@[l] <= 'Z') || ('0' <= e@[l]
                    && e@[l] <= '9') || e@[l] == '_'),
        decreases n - j,
    {
        let c = e.get_char(j);
        if !(('A' <= c && c <= 'Z') || ('0' <= c && c <= '9') || c == '_') {
            return false;
        }
        j += 1;
    }
    true
}

/// The input entries that stay after the environment variable names move
/// aside.
pub open spec fn spec_kept_inputs(entries: Seq<Seq<char>>) -> Seq<Seq<char>>
    decreases entries.len(),
{
    if entries.len() == 0 {
        Seq::empty()
    } else {
        let rest = spec_kept_inputs(entries.drop_last());
        if spec_is_env_var_entry(entries.last()) {
            rest
        } else {
            rest.push(entries.last())
        }
    }
}

/// The names moved aside by the partitioning: each environment variable
/// entry contributes its name, without the leading dollar sign.
pub open spec fn spec_env_var_names(entries: Seq<Seq<char>>) -> Set<Seq<char>>
    decreases entries.len(),
{
    if entries.len() == 0 {
        Set::empty()
    } else {
        let rest = spec_env_var_names(entries.drop_last());
        if spec_is_env_var_entry(entries.last()) {
            rest.insert(entries.last().skip(1))
        } else {
            rest
        }
    }
}

/// The inputs a task resolves after partitioning: the kept entries, or the
/// whole project where nothing is written and the no-inputs marker is not
/// set.
pub open spec fn spec_inputs_after(entries: Seq<Seq<char>>, no_inputs: bool) -> Seq<Seq<char>> {
    let kept = spec_kept_inputs(entries);
    if kept.len() == 0 && !no_inputs {
        kept.push("**/*"@)
    } else {
        kept
    }
}

/// A task configured with no input list at all, no implicit inputs and no
/// marker resolves to the whole project.
pub proof fn lemma_default_inputs_whole_project()
    ensures
        spec_inputs_after(Seq::empty(), false) =~= seq!["**/*"@],
{
    assert(spec_kept_inputs(Seq::empty()) =~= Seq::<Seq<char>>::empty());
}

/// A dependency scope no task may depend on.
pub open spec fn spec_unsupported_dep(t: TargetView) -> bool {
    t.scope is All || t.scope is Tag
}

/// The fully-qualified targets the deps scope fans out to: one per
/// dependency project, in declaration order, where that project holds the
/// task.
pub open spec fn spec_deps_fanout(
    task_id: Seq<char>,
    dependencies: &KeyMap<DepConfig>,
    nodes: &Vec<Project>,
    indices: &KeyMap<usize>,
    d: int,
) -> Seq<TargetView>
    decreases d,
{
    if d <= 0 {
        Seq::empty()
    } else {
        let rest = spec_deps_fanout(task_id, dependencies, nodes, indices, d - 1);
        let k = dependencies.keys()[d - 1];
        if indices.spec_contains(k) && nodes@[indices.spec_get(k) as int].tasks.spec_contains(
            task_id,
        ) {
            rest.push(
                TargetView { scope: crate::target::ScopeView::Project(k), task_id },
            )
        } else {
            rest
        }
    }
}

/// What one declared dependency expands to: the deps scope fans out, the
/// self scope names the owning project, a named project stands as written,
/// and a self-reference contributes nothing.
pub open spec fn spec_expand_one_dep(
    dep: TargetView,
    project_id: Seq<char>,
    task_id: Seq<char>,
    dependencies: &KeyMap<DepConfig>,
    nodes: &Vec<Project>,
    indices: &KeyMap<usize>,
) -> Seq<TargetView> {
    match dep.scope {
        crate::target::ScopeView::Deps => spec_deps_fanout(
            dep.task_id,
            dependencies,
            nodes,
            indices,
            dependencies.keys().len() as int,
        ),
        crate::target::ScopeView::OwnSelf => if dep.task_id == task_id {
            Seq::empty()
        } else {
            seq![
                TargetView {
                    scope: crate::target::ScopeView::Project(project_id),
                    task_id: dep.task_id,
                },
            ]
        },
        crate::target::ScopeView::Project(pid) => if pid == project_id && dep.task_id == task_id {
            Seq::empty()
        } else {
            seq![dep]
        },
        _ => Seq::empty(),
    }
}

/// The expansion of the first `n` declared dependencies, in order.
pub open spec fn spec_expand_deps(
    entries: Seq<TargetView>,
    project_id: Seq<char>,
    task_id: Seq<char>,
    dependencies: &KeyMap<DepConfig>,
    nodes: &Vec<Project>,
    indices: &KeyMap<usize>,
    n: int,
) -> Seq<TargetView>
    decreases n,
{
    if n <= 0 {
        Seq::empty()
    } else {
        spec_expand_deps(entries, project_id, task_id, dependencies, nodes, indices, n - 1)
            + spec_expand_one_dep(
            entries[n - 1],
            project_id,
            task_id,
            dependencies,
            nodes,
            indices,
        )
    }
}

/// Keep a target only where it is not already held.
pub open spec fn spec_dedup_push(acc: Seq<TargetView>, x: TargetView) -> Seq<TargetView> {
    if acc.contains(x) {
        acc
    } else {
        acc.push(x)
    }
}

/// Fold a list onto an accumulator, keeping each target's first
/// occurrence.
pub open spec fn spec_dedup_extend(acc: Seq<TargetView>, s: Seq<TargetView>) -> Seq<TargetView>
    decreases s.len(),
{
    if s.len() == 0 {
        acc
    } else {
        spec_dedup_push(spec_dedup_extend(acc, s.drop_last()), s.last())
    }
}

/// Folding one more target folds it over the rest.
proof fn lemma_dedup_extend_snoc(acc: Seq<TargetView>, s: Seq<TargetView>, x: TargetView)
    ensures
        spec_dedup_extend(acc, s.push(x)) == spec_dedup_push(spec_dedup_extend(acc, s), x),
{
    assert(s.push(x).drop_last() =~= s);
    assert(s.push(x).last() == x);
}

/// A target list holds a view exactly where its view list does.
proof fn lemma_targets_contain_view(s: Seq<Target>, tv: TargetView)
    ensures
        crate::target::targets_contain(s, tv) == crate::target::targets_view(s).contains(tv),
{
    if crate::target::targets_contain(s, tv) {
        let i = choose|i: int| 0 <= i < s.len() && s[i]@ == tv;
        assert(crate::target::targets_view(s)[i] == tv);
    }
    if crate::target::targets_view(s).contains(tv) {
        let i = choose|i: int|
            0 <= i < crate::target::targets_view(s).len() && crate::target::targets_view(s)[i]
                == tv;
        assert(s[i]@ == tv);
    }
}

/// Expand the deps list: implicit dependencies come first; the deps scope
/// fans out to each dependency project that has the task; the self scope
/// names the owning project; a self-reference drops away; duplicates keep
/// their first position; the all-projects and tag scopes are not
/// supported.
pub fn expand_task_deps(
    task: &mut Task,
    project_id: &Id,
    dependencies: &KeyMap<DepConfig>,
    nodes: &Vec<Project>,
    indices: &KeyMap<usize>,
    implicit_deps: &Vec<Target>,
) -> (r: Result<(), GraphError>)
    requires
        dependencies.wf(),
        indices.wf(),
        forall|k: Seq<char>|
            #[trigger] indices.spec_contains(k) ==> indices.spec_get(k) < nodes@.len()
                && nodes@[indices.spec_get(k) as int].tasks.wf(),
    ensures
        match r {
            Ok(_) => {
                &&& crate::target::targets_view(final(task).deps@) == spec_dedup_extend(
                    Seq::empty(),
                    spec_expand_deps(
                        crate::target::targets_view(implicit_deps@) + crate::target::targets_view(
                            old(task).deps@,
                        ),
                        project_id@,
                        old(task).id@,
                        dependencies,
                        nodes,
                        indices,
                        implicit_deps@.len() as int + old(task).deps@.len() as int,
                    ),
                )
                &&& (forall|i: int, j: int|
                    0 <= i < j < final(task).deps@.len() ==> #[trigger] final(task).deps@[i]@
                        != #[trigger] final(task).deps@[j]@)
                &&& (forall|i: int|
                    0 <= i < final(task).deps@.len() ==> (#[trigger] final(task).deps@[i]@.scope) is Project)
                &&& (!dependencies.spec_contains(project_id@) ==> forall|i: int|
                    0 <= i < final(task).deps@.len() ==> #[trigger] final(task).deps@[i]@
                        != (TargetView {
                        scope: crate::target::ScopeView::Project(project_id@),
                        task_id: old(task).id@,
                    }))
                &&& *final(task) == (Task { deps: final(task).deps, ..*old(task) })
            },
            Err(_) => *final(task) == *old(task),
        },
        ({
            let cv = crate::target::targets_view(implicit_deps@) + crate::target::targets_view(
                old(task).deps@,
            );
            &&& (r is Ok <==> (forall|j: int|
                0 <= j < cv.len() ==> !spec_unsupported_dep(#[trigger] cv[j])))
            &&& (r matches Err(GraphError::UnsupportedTargetScope(e)) ==> exists|j: int|
                0 <= j < cv.len() && spec_unsupported_dep(#[trigger] cv[j]) && e@ == spec_format(
                    cv[j],
                ))
            &&& (r is Err ==> r matches Err(GraphError::UnsupportedTargetScope(_)))
        }),
{
    let ghost t0 = *task;
    let ghost self_tv = (TargetView {
        scope: crate::target::ScopeView::Project(project_id@),
        task_id: t0.id@,
    });
    let mut combined = crate::target::clone_target_vec(implicit_deps);
    let mut rest = crate::target::clone_target_vec(&task.deps);
    combined.append(&mut rest);
    let ghost cv = crate::target::targets_view(combined@);
    proof {
        assert(cv =~= crate::target::targets_view(implicit_deps@)
            + crate::target::targets_view(t0.deps@));
    }
    let n = combined.len();
    let mut out: Vec<Target> = Vec::new();
    proof {
        assert(crate::target::targets_view(out@) =~= spec_dedup_extend(
            Seq::empty(),
            spec_expand_deps(cv, project_id@, t0.id@, dependencies, nodes, indices, 0),
        ));
    }
    let mut i: usize = 0;
    while i < n
        invariant
            dependencies.wf(),
            indices.wf(),
            forall|k: Seq<char>|
                #[trigger] indices.spec_contains(k) ==> indices.spec_get(k) < nodes@.len()
                    && nodes@[indices.spec_get(k) as int].tasks.wf(),
            *task == t0,
            self_tv == (TargetView {
                scope: crate::target::ScopeView::Project(project_id@),
                task_id: t0.id@,
            }),
            cv == crate::target::targets_view(combined@),
            cv == crate::target::targets_view(implicit_deps@) + crate::target::targets_view(
                old(task).deps@,
            ),
            n == combined@.len(),
            0 <= i <= n,
            crate::target::targets_view(out@) == spec_dedup_extend(
                Seq::empty(),
                spec_expand_deps(cv, project_id@, t0.id@, dependencies, nodes, indices, i as int),
            ),
            forall|j: int| 0 <= j < i ==> !spec_unsupported_dep(#[trigger] cv[j]),
            forall|a: int, b: int|
                0 <= a < b < out@.len() ==> #[trigger] out@[a]@ != #[trigger] out@[b]@,
            forall|a: int| 0 <= a < out@.len() ==> (#[trigger] out@[a]@.scope) is Project,
            !dependencies.spec_contains(project_id@) ==> forall|a: int|
                0 <= a < out@.len() ==> #[trigger] out@[a]@ != self_tv,
        decreases n - i,
    {
        let dep = &combined[i];
        let ghost dv = cv[i as int];
        proof {
            assert(dv == combined@[i as int]@);
        }
        match &dep.scope {
            TargetScope::Deps => {
                proof {
                    assert(dv.scope is Deps);
                }
                let nd = dependencies.len();
                let mut d: usize = 0;
                while d < nd
                    invariant
                        dependencies.wf(),
                        indices.wf(),
                        forall|k: Seq<char>|
                            #[trigger] indices.spec_contains(k) ==> indices.spec_get(k)
                                < nodes@.len() && nodes@[indices.spec_get(k) as int].tasks.wf(),
                        *task == t0,
                        self_tv == (TargetView {
                            scope: crate::target::ScopeView::Project(project_id@),
                            task_id: t0.id@,
                        }),
                        cv == crate::target::targets_view(combined@),
                        n == combined@.len(),
                        i < n,
                        dv == cv[i as int],
                        dv == combined@[i as int]@,
                        *dep == combined@[i as int],
                        dv.scope is Deps,
                        nd == dependencies.keys().len(),
                        0 <= d <= nd,
                        crate::target::targets_view(out@) == spec_dedup_extend(
                            Seq::empty(),
                            spec_expand_deps(
                                cv,
                                project_id@,
                                t0.id@,
                                dependencies,
                                nodes,
                                indices,
                                i as int,
                            ) + spec_deps_fanout(
                                dv.task_id,
                                dependencies,
                                nodes,
                                indices,
                                d as int,
                            ),
                        ),
                        forall|a: int, b: int|
                            0 <= a < b < out@.len() ==> #[trigger] out@[a]@ != #[trigger] out@[b]@,
                        forall|a: int|
                            0 <= a < out@.len() ==> (#[trigger] out@[a]@.scope) is Project,
                        !dependencies.spec_contains(project_id@) ==> forall|a: int|
                            0 <= a < out@.len() ==> #[trigger] out@[a]@ != self_tv,
                    decreases nd - d,
                {
                    let ghost prefix = spec_expand_deps(
                        cv,
                        project_id@,
                        t0.id@,
                        dependencies,
                        nodes,
                        indices,
                        i as int,
                    ) + spec_deps_fanout(dv.task_id, dependencies, nodes, indices, d as int);
                    let dep_id = dependencies.key_at(d);
                    match indices.get(dep_id.as_str()) {
                        Some(ix) => {
                            let dep_project = &nodes[*ix];
                            match dep_project.tasks.get(dep.task_id.as_str()) {
                                Some(dep_task) => {
                                    let candidate = Target::new(
                                        &Id::raw(dep_id.as_str()),
                                        &dep.task_id,
                                    );
                                    proof {
                                        if !dependencies.spec_contains(project_id@) {
                                            assert(dependencies.keys()[d as int]
                                                != project_id@) by {
                                                if dependencies.keys()[d as int] == project_id@ {
                                                    assert(dependencies.spec_contains(
                                                        project_id@,
                                                    ));
                                                }
                                            };
                                            assert(candidate@.scope != self_tv.scope);
                                            assert(candidate@ != self_tv);
                                        }
                                    }
                                    let ghost pre_out = out@;
                                    let keep = !target_in(&out, &candidate);
                                    proof {
                                        lemma_targets_contain_view(pre_out, candidate@);
                                    }
                                    if keep {
                                        out.push(candidate);
                                    }
                                    proof {
                                        assert(crate::target::targets_view(out@)
                                            =~= spec_dedup_push(
                                            crate::target::targets_view(pre_out),
                                            candidate@,
                                        ));
                                        assert(dv == combined@[i as int]@);
                                        assert(dv.task_id == combined@[i as int].task_id@);
                                        assert(candidate@.task_id == dv.task_id);
                                        assert(candidate@.scope
                                            == crate::target::ScopeView::Project(
                                            dependencies.keys()[d as int],
                                        ));
                                        assert(candidate@ == (TargetView {
                                            scope: crate::target::ScopeView::Project(
                                                dependencies.keys()[d as int],
                                            ),
                                            task_id: dv.task_id,
                                        }));
                                        assert(spec_deps_fanout(
                                            dv.task_id,
                                            dependencies,
                                            nodes,
                                            indices,
                                            d + 1,
                                        ) =~= spec_deps_fanout(
                                            dv.task_id,
                                            dependencies,
                                            nodes,
                                            indices,
                                            d as int,
                                        ).push(candidate@));
                                        lemma_dedup_extend_snoc(
                                            Seq::empty(),
                                            prefix,
                                            candidate@,
                                        );
                                        assert(prefix.push(candidate@) =~= spec_expand_deps(
                                            cv,
                                            project_id@,
                                            t0.id@,
                                            dependencies,
                                            nodes,
                                            indices,
                                            i as int,
                                        ) + spec_deps_fanout(
                                            dv.task_id,
                                            dependencies,
                                            nodes,
                                            indices,
                                            d + 1,
                                        ));
                                    }
                                },
                                None => {
                                    proof {
                                        assert(spec_deps_fanout(
                                            dv.task_id,
                                            dependencies,
                                            nodes,
                                            indices,
                                            d + 1,
                                        ) =~= spec_deps_fanout(
                                            dv.task_id,
                                            dependencies,
                                            nodes,
                                            indices,
                                            d as int,
                                        ));
                                    }
                                },
                            }
                        },
                        None => {
                            proof {
                                assert(spec_deps_fanout(
                                    dv.task_id,
                                    dependencies,
                                    nodes,
                                    indices,
                                    d + 1,
                                ) =~= spec_deps_fanout(
                                    dv.task_id,
                                    dependencies,
                                    nodes,
                                    indices,
                                    d as int,
                                ));
                            }
                        },
                    }
                    d += 1;
                }
                proof {
                    assert(spec_expand_one_dep(
                        dv,
                        project_id@,
                        t0.id@,
                        dependencies,
                        nodes,
                        indices,
                    ) == spec_deps_fanout(
                        dv.task_id,
                        dependencies,
                        nodes,
                        indices,
                        dependencies.keys().len() as int,
                    ));
                }
            },
            TargetScope::OwnSelf => {
                if !dep.task_id.is(&task.id) {
                    let candidate = Target::new(project_id, &dep.task_id);
                    proof {
                        assert(candidate@.task_id != self_tv.task_id);
                        assert(candidate@ != self_tv);
                    }
                    let ghost pre_out = out@;
                    let keep = !target_in(&out, &candidate);
                    proof {
                        lemma_targets_contain_view(pre_out, candidate@);
                    }
                    if keep {
                        out.push(candidate);
                    }
                    proof {
                        assert(crate::target::targets_view(out@) =~= spec_dedup_push(
                            crate::target::targets_view(pre_out),
                            candidate@,
                        ));
                        let base = spec_expand_deps(
                            cv,
                            project_id@,
                            t0.id@,
                            dependencies,
                            nodes,
                            indices,
                            i as int,
                        );
                        lemma_dedup_extend_snoc(Seq::empty(), base, candidate@);
                        assert(base.push(candidate@) =~= base + spec_expand_one_dep(
                            dv,
                            project_id@,
                            t0.id@,
                            dependencies,
                            nodes,
                            indices,
                        ));
                    }
                } else {
                    proof {
                        assert(spec_expand_one_dep(
                            dv,
                            project_id@,
                            t0.id@,
                            dependencies,
                            nodes,
                            indices,
                        ) =~= Seq::<TargetView>::empty());
                    }
                }
            },
            TargetScope::Project(pid) => {
                if pid.is(project_id) && dep.task_id.is(&task.id) {
                    // a task must not depend on itself
                    proof {
                        assert(spec_expand_one_dep(
                            dv,
                            project_id@,
                            t0.id@,
                            dependencies,
                            nodes,
                            indices,
                        ) =~= Seq::<TargetView>::empty());
                    }
                } else {
                    let candidate = dep.clone();
                    proof {
                        if pid@ == project_id@ {
                            assert(candidate@.task_id != self_tv.task_id);
                        } else {
                            assert(candidate@.scope != self_tv.scope);
                        }
                        assert(candidate@ != self_tv);
                    }
                    let ghost pre_out = out@;
                    let keep = !target_in(&out, &candidate);
                    proof {
                        lemma_targets_contain_view(pre_out, candidate@);
                    }
                    if keep {
                        out.push(candidate);
                    }
                    proof {
                        assert(crate::target::targets_view(out@) =~= spec_dedup_push(
                            crate::target::targets_view(pre_out),
                            candidate@,
                        ));
                        let base = spec_expand_deps(
                            cv,
                            project_id@,
                            t0.id@,
                            dependencies,
                            nodes,
                            indices,
                            i as int,
                        );
                        lemma_dedup_extend_snoc(Seq::empty(), base, candidate@);
                        assert(candidate@ == dv);
                        assert(base.push(candidate@) =~= base + spec_expand_one_dep(
                            dv,
                            project_id@,
                            t0.id@,
                            dependencies,
                            nodes,
                            indices,
                        ));
                    }
                }
            },
            _ => {
                let formatted = dep.format();
                proof {
                    assert(dv == combined@[i as int]@);
                    assert(spec_unsupported_dep(cv[i as int]));
                    assert(formatted@ == spec_format(cv[i as int]));
                    assert(exists|j: int|
                        0 <= j < cv.len() && spec_unsupported_dep(#[trigger] cv[j]) && formatted@
                            == spec_format(cv[j]));
                }
                return Err(GraphError::UnsupportedTargetScope(formatted));
            },
        }
        i += 1;
        proof {
            assert(spec_expand_deps(
                cv,
                project_id@,
                t0.id@,
                dependencies,
                nodes,
                indices,
                i as int,
            ) == spec_expand_deps(
                cv,
                project_id@,
                t0.id@,
                dependencies,
                nodes,
                indices,
                i - 1,
            ) + spec_expand_one_dep(dv, project_id@, t0.id@, dependencies, nodes, indices));
        }
    }
    proof {
        assert(cv.len() == n);
        assert(n == implicit_deps@.len() + t0.deps@.len());
    }
    task.deps = out;
    Ok(())
}

/// A value after one pass of process-environment substitution; a value
/// without a reference stands as written.
pub open spec fn spec_subst_value(v: Seq<char>, process_env: &KeyMap<String>) -> Seq<char> {
    if spec_has_token_var(v) {
        crate::token::spec_substitute_env(v, process_env, 0)
    } else {
        v
    }
}

/// The task's own entries survive expansion: every key of the first map is
/// held by the second, its value carried over up to substitution.
pub open spec fn env_entries_preserved(
    pre: &KeyMap<String>,
    post: &KeyMap<String>,
    process_env: &KeyMap<String>,
) -> bool {
    forall|k: Seq<char>|
        #[trigger] pre.spec_contains(k) ==> post.spec_contains(k) && post.spec_get(k)@
            == spec_subst_value(pre.spec_get(k)@, process_env)
}

/// Every key of the first map is held by the second.
pub open spec fn env_keys_covered(pre: &KeyMap<String>, post: &KeyMap<String>) -> bool {
    forall|k: Seq<char>| #[trigger] pre.spec_contains(k) ==> post.spec_contains(k)
}

/// Expand a task's environment: fold in the configured environment file,
/// inherit the project environment under task precedence, then substitute
/// process environment references in every value. The task's own entries
/// always win: an entry of the file or of the project joins only where the
/// key is absent, and every surviving value of the task keeps its meaning
/// up to substitution.
#[verifier::rlimit(100)]
pub fn expand_task_env(
    task: &mut Task,
    project_env: &KeyMap<String>,
    workspace_root: &String,
    source: &String,
    process_env: &KeyMap<String>,
) -> (r: Result<(), GraphError>)
    requires
        old(task).env.wf(),
        project_env.wf(),
        process_env.wf(),
    ensures
        final(task).env.wf(),
        final(task).input_paths == old(task).input_paths,
        final(task).output_paths == old(task).output_paths,
        final(task).input_globs == old(task).input_globs,
        final(task).output_globs == old(task).output_globs,
        final(task).deps == old(task).deps,
        final(task).args == old(task).args,
        final(task).command == old(task).command,
        final(task).id == old(task).id,
        final(task).target == old(task).target,
        final(task).flags == old(task).flags,
        final(task).options == old(task).options,
        final(task).outputs == old(task).outputs,
        final(task).global_inputs == old(task).global_inputs,
        final(task).input_vars == old(task).input_vars,
        final(task).log_target == old(task).log_target,
        final(task).platform == old(task).platform,
        match old(task).options.env_file {
            Some(ef) => r is Ok ==> final(task).inputs.deep_view() == old(task).inputs.deep_view().push(ef@),
            None => final(task).inputs == old(task).inputs && r is Ok,
        },
        r is Err ==> (old(task).options.env_file is Some && (r matches Err(GraphError::Task(e))
            && e is InvalidEnvFile)),
        r matches Err(GraphError::Task(TaskError::InvalidEnvFile(p, _))) ==> (old(
            task,
        ).options.env_file matches Some(ef) && p@ == workspace_root@ + seq!['/']
            + spec_ws_relative(ef@, source@)),
        r is Ok ==> env_entries_preserved(&old(task).env, &final(task).env, process_env),
        r is Ok ==> env_keys_covered(project_env, &final(task).env),
{
    let ghost t0 = *task;
    match clone_opt_env_file(&task.options.env_file) {
        Some(ef) => {
            let mut path = workspace_root.clone();
            push_char(&mut path, '/');
            path.append(ws_relative(ef.as_str(), source.as_str()).as_str());
            proof {
                assert(path@ =~= workspace_root@ + seq!['/'] + spec_ws_relative(
                    ef@,
                    source@,
                ));
            }
            task.inputs.push(ef);
            let read = read_env_file(&path);
            match apply_env_file(&mut task.env, &path, read) {
                Ok(_) => {},
                Err(e) => {
                    return Err(GraphError::Task(e));
                },
            }
        },
        None => {},
    }
    let ghost t1 = *task;
    proof {
        assert(forall|k: Seq<char>|
            t0.env.spec_contains(k) ==> t1.env.spec_contains(k) && #[trigger] t1.env.spec_get(k)
                == t0.env.spec_get(k));
        crate::collections::lemma_kv_len(&t1.env);
        assert(t1.env.keys().take(t1.env.keys().len() as int) =~= t1.env.keys());
        assert(t1.env.vals().take(t1.env.keys().len() as int) =~= t1.env.vals());
    }
    let np = project_env.len();
    let mut i: usize = 0;
    while i < np
        invariant
            task.env.wf(),
            project_env.wf(),
            np == project_env.keys().len(),
            0 <= i <= np,
            task.args == t1.args,
            task.command == t1.command,
            task.deps == t1.deps,
            task.flags == t1.flags,
            task.global_inputs == t1.global_inputs,
            task.id == t1.id,
            task.inputs == t1.inputs,
            task.input_globs == t1.input_globs,
            task.input_paths == t1.input_paths,
            task.input_vars == t1.input_vars,
            task.log_target == t1.log_target,
            task.options == t1.options,
            task.outputs == t1.outputs,
            task.output_globs == t1.output_globs,
            task.output_paths == t1.output_paths,
            task.platform == t1.platform,
            task.target == t1.target,
            task.env.keys().len() >= t1.env.keys().len(),
            task.env.vals().len() == task.env.keys().len(),
            t1.env.vals().len() == t1.env.keys().len(),
            task.env.keys().take(t1.env.keys().len() as int) == t1.env.keys(),
            task.env.vals().take(t1.env.keys().len() as int) == t1.env.vals(),
            forall|l: int|
                0 <= l < i ==> task.env.spec_contains(#[trigger] project_env.keys()[l]),
        decreases np - i,
    {
        let ghost kv = project_env.keys()[i as int];
        let ghost pre_env = task.env;
        task.env.insert_absent(
            project_env.key_at(i).as_str().to_owned().as_str(),
            project_env.val_at(i).clone(),
        );
        i += 1;
        proof {
            crate::collections::lemma_kv_len(&task.env);
            crate::collections::lemma_kv_len(&pre_env);
            if pre_env.spec_contains(kv) {
                assert(task.env == pre_env);
            } else {
                assert(task.env.keys() =~= pre_env.keys().push(kv));
                assert(task.env.keys().take(t1.env.keys().len() as int) =~= t1.env.keys());
                assert(task.env.vals().take(t1.env.keys().len() as int) =~= t1.env.vals());
            }
            assert forall|l: int| 0 <= l < i implies task.env.spec_contains(
                #[trigger] project_env.keys()[l],
            ) by {
                if l == i - 1 {
                    assert(task.env.spec_contains(kv));
                } else {
                    if project_env.keys()[l] == kv {
                        assert(task.env.spec_contains(kv));
                    } else {
                        assert(pre_env.spec_contains(project_env.keys()[l]));
                    }
                }
            };
        }
    }
    let ghost env2 = task.env;
    proof {
        crate::collections::lemma_kv_len(&env2);
    }
    let ne = task.env.len();
    let mut j: usize = 0;
    while j < ne
        invariant
            task.env.wf(),
            process_env.wf(),
            ne == task.env.keys().len(),
            ne == env2.keys().len(),
            env2.vals().len() == ne,
            task.env.keys() == env2.keys(),
            0 <= j <= ne,
            task.args == t1.args,
            task.command == t1.command,
            task.deps == t1.deps,
            task.flags == t1.flags,
            task.global_inputs == t1.global_inputs,
            task.id == t1.id,
            task.inputs == t1.inputs,
            task.input_globs == t1.input_globs,
            task.input_paths == t1.input_paths,
            task.input_vars == t1.input_vars,
            task.log_target == t1.log_target,
            task.options == t1.options,
            task.outputs == t1.outputs,
            task.output_globs == t1.output_globs,
            task.output_paths == t1.output_paths,
            task.platform == t1.platform,
            task.target == t1.target,
            forall|l: int|
                0 <= l < j ==> (#[trigger] task.env.vals()[l])@ == spec_subst_value(
                    env2.vals()[l]@,
                    process_env,
                ),
            forall|l: int| j <= l < ne ==> #[trigger] task.env.vals()[l] == env2.vals()[l],
        decreases ne - j,
    {
        proof {
            crate::collections::lemma_kv_len(&task.env);
        }
        let value = task.env.val_at(j).clone();
        if has_token_var(value.as_str()) {
            let substituted = crate::token::resolve_env_vars(value.as_str(), process_env);
            task.env.set_val_at(j, substituted);
        }
        j += 1;
    }
    proof {
        crate::collections::lemma_kv_len(&task.env);
        crate::collections::lemma_kv_len(&t1.env);
        assert(env_entries_preserved(&t0.env, &task.env, process_env)) by {
            assert forall|k: Seq<char>| #[trigger]
                t0.env.spec_contains(k) implies task.env.spec_contains(k)
                && task.env.spec_get(k)@ == spec_subst_value(
                t0.env.spec_get(k)@,
                process_env,
            ) by {
                assert(t1.env.spec_contains(k) && t1.env.spec_get(k) == t0.env.spec_get(k));
                let ix = t1.env.index_of(k);
                assert(t1.env.keys()[ix] == k);
                crate::collections::lemma_unique_get(&t1.env, k, ix);
                assert(env2.keys().take(t1.env.keys().len() as int)[ix] == k);
                assert(env2.keys()[ix] == k);
                crate::collections::lemma_unique_get(&env2, k, ix);
                assert(env2.vals().take(t1.env.keys().len() as int)[ix] == t1.env.vals()[ix]);
                assert(env2.spec_get(k) == t1.env.spec_get(k));
                assert(task.env.keys()[ix] == k);
                crate::collections::lemma_unique_get(&task.env, k, ix);
                assert(task.env.vals()[ix]@ == spec_subst_value(env2.vals()[ix]@, process_env));
            };
        };
        assert(env_keys_covered(project_env, &task.env)) by {
            assert forall|k: Seq<char>| #[trigger]
                project_env.spec_contains(k) implies task.env.spec_contains(k) by {
                let l = choose|l: int|
                    0 <= l < project_env.keys().len() && project_env.keys()[l] == k;
                assert(env2.spec_contains(project_env.keys()[l]));
                let jx = env2.index_of(k);
                assert(env2.keys()[jx] == k);
                assert(task.env.keys()[jx] == k);
            };
        };
    }
    Ok(())
}

/// Copy an optional environment file path.
fn clone_opt_env_file(v: &Option<String>) -> (r: Option<String>)
    ensures
        r is Some == v is Some,
        r matches Some(a) ==> (v matches Some(b) && a@ == b@),
{
    match v {
        Some(inner) => Some(inner.clone()),
        None => None,
    }
}



/// Expand the inputs: implicit inputs come first; entries naming an
/// environment variable move into the input variables; an empty list
/// without the no-inputs marker covers the whole project; the core
/// configuration glob always joins the global inputs; everything resolves
/// to workspace-relative paths and globs.
pub fn expand_task_inputs(
    task: &mut Task,
    implicit_inputs: &Vec<String>,
    groups: &KeyMap<Vec<String>>,
    source: &String,
    vars: &KeyMap<String>,
) -> (r: Result<(), GraphError>)
    requires
        groups.wf(),
        vars.wf(),
        old(task).input_vars.wf(),
        old(task).input_paths.wf(),
        old(task).input_globs.wf(),
    ensures
        final(task).input_vars.wf(),
        final(task).input_paths.wf(),
        final(task).input_globs.wf(),
        final(task).output_paths == old(task).output_paths,
        final(task).output_globs == old(task).output_globs,
        final(task).deps == old(task).deps,
        final(task).args == old(task).args,
        final(task).command == old(task).command,
        final(task).env == old(task).env,
        final(task).flags == old(task).flags,
        final(task).id == old(task).id,
        final(task).options == old(task).options,
        final(task).outputs == old(task).outputs,
        final(task).platform == old(task).platform,
        final(task).target == old(task).target,
        final(task).input_vars.as_set() == old(task).input_vars.as_set().union(
            spec_env_var_names(implicit_inputs.deep_view() + old(task).inputs.deep_view()),
        ),
        r is Ok ==> final(task).inputs.deep_view() == spec_inputs_after(
            implicit_inputs.deep_view() + old(task).inputs.deep_view(),
            crate::task::spec_flags_no_inputs(old(task).flags@),
        ),
        r is Ok ==> final(task).global_inputs.deep_view() == old(
            task,
        ).global_inputs.deep_view().push("/.moon/*.yml"@),
        r is Ok ==> (match spec_resolve_list(
            TokenContext::Inputs,
            groups,
            source@,
            vars,
            Seq::empty(),
            Seq::empty(),
            final(task).inputs.deep_view() + final(task).global_inputs.deep_view(),
        ) {
            ResolveOutcome::Pair(p, g) => {
                &&& final(task).input_paths.as_set() == old(task).input_paths.as_set().union(
                    p.to_set(),
                )
                &&& final(task).input_globs.as_set() == old(task).input_globs.as_set().union(
                    g.to_set(),
                )
            },
            _ => false,
        }),
{
    let ghost t0 = *task;
    let mut combined = clone_string_vec(implicit_inputs);
    let mut rest = clone_string_vec(&task.inputs);
    combined.append(&mut rest);
    let ghost cv = combined.deep_view();
    proof {
        assert(cv =~= implicit_inputs.deep_view() + t0.inputs.deep_view());
    }
    let n = combined.len();
    let mut kept: Vec<String> = Vec::new();
    proof {
        assert(kept.deep_view() =~= spec_kept_inputs(cv.take(0))) by {
            assert(cv.take(0) =~= Seq::<Seq<char>>::empty());
        };
        assert(task.input_vars.as_set() =~= t0.input_vars.as_set().union(
            spec_env_var_names(cv.take(0)),
        )) by {
            assert(cv.take(0) =~= Seq::<Seq<char>>::empty());
        };
    }
    let mut i: usize = 0;
    while i < n
        invariant
            task.input_vars.wf(),
            *task == (Task { input_vars: task.input_vars, ..t0 }),
            cv == combined.deep_view(),
            n == combined@.len(),
            0 <= i <= n,
            kept.deep_view() == spec_kept_inputs(cv.take(i as int)),
            task.input_vars.as_set() == t0.input_vars.as_set().union(
                spec_env_var_names(cv.take(i as int)),
            ),
        decreases n - i,
    {
        let e = &combined[i];
        if is_env_var_entry(e.as_str()) {
            let name = e.as_str().substring_char(1, e.unicode_len());
            proof {
                assert(name@ =~= cv[i as int].skip(1));
            }
            task.input_vars.insert(name);
        } else {
            kept.push(e.clone());
        }
        i += 1;
        proof {
            assert(cv.take(i as int).drop_last() =~= cv.take(i - 1));
            assert(cv.take(i as int).last() == cv[i - 1]);
            assert(kept.deep_view() =~= spec_kept_inputs(cv.take(i as int)));
            assert(task.input_vars.as_set() =~= t0.input_vars.as_set().union(
                spec_env_var_names(cv.take(i as int)),
            ));
        }
    }
    proof {
        assert(cv.take(n as int) =~= cv);
        assert(spec_env_var_names(cv.take(0)) =~= Set::<Seq<char>>::empty());
    }
    if kept.len() == 0 && !task.has_flag_no_inputs() {
        kept.push("**/*".to_owned());
        proof {
            assert(kept.deep_view() =~= spec_kept_inputs(cv).push("**/*"@));
        }
    }
    task.inputs = kept;
    task.global_inputs.push("/.moon/*.yml".to_owned());
    let mut to_resolve = clone_string_vec(&task.inputs);
    let mut globals = clone_string_vec(&task.global_inputs);
    to_resolve.append(&mut globals);
    proof {
        assert(to_resolve.deep_view() =~= task.inputs.deep_view()
            + task.global_inputs.deep_view());
        assert(task.global_inputs.deep_view() =~= t0.global_inputs.deep_view().push(
            "/.moon/*.yml"@,
        ));
    }
    let empty_list: Vec<String> = Vec::new();
    proof {
        assert(empty_list.deep_view() =~= Seq::<Seq<char>>::empty());
    }
    match resolve_list(
        TokenContext::Inputs,
        groups,
        source.as_str(),
        vars,
        &empty_list,
        &empty_list,
        &to_resolve,
    ) {
        Ok(pair) => {
            let (paths, globs) = pair;
            task.input_paths.insert_all(&paths);
            task.input_globs.insert_all(&globs);
            Ok(())
        },
        Err(e) => Err(GraphError::Token(e)),
    }
}

/// Expand the outputs: everything resolves under the outputs context; the
/// globs join the output globs; each resolved path leaves the input paths
/// and joins the output paths — outputs override inputs.
pub fn expand_task_outputs(
    task: &mut Task,
    groups: &KeyMap<Vec<String>>,
    source: &String,
    vars: &KeyMap<String>,
) -> (r: Result<(), GraphError>)
    requires
        groups.wf(),
        vars.wf(),
        old(task).input_paths.wf(),
        old(task).input_globs.wf(),
        old(task).output_paths.wf(),
        old(task).output_globs.wf(),
    ensures
        final(task).input_paths.wf(),
        final(task).input_globs.wf(),
        final(task).output_paths.wf(),
        final(task).output_globs.wf(),
        final(task).inputs == old(task).inputs,
        final(task).global_inputs == old(task).global_inputs,
        final(task).input_vars == old(task).input_vars,
        final(task).deps == old(task).deps,
        final(task).args == old(task).args,
        final(task).command == old(task).command,
        final(task).env == old(task).env,
        final(task).flags == old(task).flags,
        final(task).id == old(task).id,
        final(task).options == old(task).options,
        final(task).outputs == old(task).outputs,
        final(task).platform == old(task).platform,
        final(task).target == old(task).target,
        r is Ok ==> (old(task).outputs@.len() == 0 ==> *final(task) == *old(task)),
        r is Ok && old(task).outputs@.len() > 0 ==> (match spec_resolve_list(
            TokenContext::Outputs,
            groups,
            source@,
            vars,
            Seq::empty(),
            Seq::empty(),
            old(task).outputs.deep_view(),
        ) {
            ResolveOutcome::Pair(p, g) => {
                &&& final(task).output_globs.as_set() == old(task).output_globs.as_set().union(
                    g.to_set(),
                )
                &&& final(task).output_paths.as_set() == old(task).output_paths.as_set().union(
                    p.to_set(),
                )
                &&& final(task).input_paths.as_set() == old(task).input_paths.as_set().difference(
                    p.to_set(),
                )
                &&& final(task).input_globs.as_set() == old(task).input_globs.as_set().difference(
                    g.to_set(),
                )
            },
            _ => false,
        }),
        r is Ok && old(task).input_paths.as_set().disjoint(old(task).output_paths.as_set())
            ==> final(task).input_paths.as_set().disjoint(final(task).output_paths.as_set()),
{
    let ghost t0 = *task;
    if task.outputs.len() == 0 {
        return Ok(());
    }
    let empty_list: Vec<String> = Vec::new();
    proof {
        assert(empty_list.deep_view() =~= Seq::<Seq<char>>::empty());
    }
    match resolve_list(
        TokenContext::Outputs,
        groups,
        source.as_str(),
        vars,
        &empty_list,
        &empty_list,
        &task.outputs,
    ) {
        Ok(pair) => {
            let (paths, globs) = pair;
            task.output_globs.insert_all(&globs);
            // outputs override inputs: an overlapping glob leaves the inputs
            let ng = globs.len();
            let ghost gv = globs.deep_view();
            let mut gk: usize = 0;
            proof {
                assert(gv.take(0) =~= Seq::<Seq<char>>::empty());
                assert(gv.take(0).to_set() =~= Set::<Seq<char>>::empty());
                assert(task.input_globs.as_set() =~= t0.input_globs.as_set().difference(
                    gv.take(0).to_set(),
                ));
            }
            while gk < ng
                invariant
                    task.input_globs.wf(),
                    ng == globs@.len(),
                    gv == globs.deep_view(),
                    0 <= gk <= ng,
                    task.input_globs.as_set() == t0.input_globs.as_set().difference(
                        gv.take(gk as int).to_set(),
                    ),
                    task.args == t0.args,
                    task.command == t0.command,
                    task.deps == t0.deps,
                    task.env == t0.env,
                    task.flags == t0.flags,
                    task.global_inputs == t0.global_inputs,
                    task.id == t0.id,
                    task.inputs == t0.inputs,
                    task.input_paths == t0.input_paths,
                    task.input_vars == t0.input_vars,
                    task.log_target == t0.log_target,
                    task.options == t0.options,
                    task.outputs == t0.outputs,
                    task.output_paths == t0.output_paths,
                    task.output_globs.wf(),
                    task.output_globs.as_set() == t0.output_globs.as_set().union(
                        spec_outputs_globset(groups, source@, vars, t0.outputs.deep_view()),
                    ),
                    task.platform == t0.platform,
                    task.target == t0.target,
                decreases ng - gk,
            {
                let g = &globs[gk];
                task.input_globs.remove(g.as_str());
                gk += 1;
                proof {
                    assert(gv.take(gk as int).drop_last() =~= gv.take(gk - 1));
                    assert(gv.take(gk as int).last() == gv[gk - 1]);
                    assert(gv.take(gk as int).to_set() =~= gv.take(gk - 1).to_set().insert(
                        gv[gk - 1],
                    ));
                    assert(task.input_globs.as_set() =~= t0.input_globs.as_set().difference(
                        gv.take(gk as int).to_set(),
                    ));
                }
            }
            proof {
                assert(gv.take(ng as int) =~= gv);
            }
            let np = paths.len();
            let ghost pv = paths.deep_view();
            let mut k: usize = 0;
            proof {
                assert(pv.take(0) =~= Seq::<Seq<char>>::empty());
                assert(pv.take(0).to_set() =~= Set::<Seq<char>>::empty());
                assert(task.input_paths.as_set() =~= t0.input_paths.as_set().difference(
                    pv.take(0).to_set(),
                ));
                assert(task.output_paths.as_set() =~= t0.output_paths.as_set().union(
                    pv.take(0).to_set(),
                ));
            }
            while k < np
                invariant
                    task.input_paths.wf(),
                    task.output_paths.wf(),
                    np == paths@.len(),
                    pv == paths.deep_view(),
                    0 <= k <= np,
                    task.input_paths.as_set() == t0.input_paths.as_set().difference(
                        pv.take(k as int).to_set(),
                    ),
                    task.output_paths.as_set() == t0.output_paths.as_set().union(
                        pv.take(k as int).to_set(),
                    ),
                    task.args == t0.args,
                    task.command == t0.command,
                    task.deps == t0.deps,
                    task.env == t0.env,
                    task.flags == t0.flags,
                    task.global_inputs == t0.global_inputs,
                    task.id == t0.id,
                    task.inputs == t0.inputs,
                    task.input_globs.wf(),
                    task.input_globs.as_set() == t0.input_globs.as_set().difference(
                        spec_outputs_globset(groups, source@, vars, t0.outputs.deep_view()),
                    ),
                    task.input_vars == t0.input_vars,
                    task.log_target == t0.log_target,
                    task.options == t0.options,
                    task.outputs == t0.outputs,
                    task.output_globs.wf(),
                    task.output_globs.as_set() == t0.output_globs.as_set().union(
                        spec_outputs_globset(groups, source@, vars, t0.outputs.deep_view()),
                    ),
                    task.platform == t0.platform,
                    task.target == t0.target,
                decreases np - k,
            {
                let p = &paths[k];
                task.input_paths.remove(p.as_str());
                task.output_paths.insert(p.as_str());
                k += 1;
                proof {
                    assert(pv.take(k as int).drop_last() =~= pv.take(k - 1));
                    assert(pv.take(k as int).last() == pv[k - 1]);
                    assert(pv.take(k as int).to_set() =~= pv.take(k - 1).to_set().insert(
                        pv[k - 1],
                    ));
                    assert(task.input_paths.as_set() =~= t0.input_paths.as_set().difference(
                        pv.take(k as int).to_set(),
                    ));
                    assert(task.output_paths.as_set() =~= t0.output_paths.as_set().union(
                        pv.take(k as int).to_set(),
                    ));
                }
            }
            proof {
                assert(pv.take(np as int) =~= pv);
                if t0.input_paths.as_set().disjoint(t0.output_paths.as_set()) {
                    assert(task.input_paths.as_set().disjoint(task.output_paths.as_set())) by {
                        assert forall|x: Seq<char>|
                            task.input_paths.as_set().contains(x) implies !task.output_paths.as_set().contains(x) by {
                        };
                    };
                }
            }
            Ok(())
        },
        Err(e) => Err(GraphError::Token(e)),
    }
}

/// The output globs a resolution contributes, where it succeeds.
pub open spec fn spec_outputs_globset(
    groups: &KeyMap<Vec<String>>,
    source: Seq<char>,
    vars: &KeyMap<String>,
    outputs: Seq<Seq<char>>,
) -> Set<Seq<char>> {
    match spec_resolve_list(
        TokenContext::Outputs,
        groups,
        source,
        vars,
        Seq::empty(),
        Seq::empty(),
        outputs,
    ) {
        ResolveOutcome::Pair(p, g) => g.to_set(),
        _ => Set::empty(),
    }
}



/// A task not yet expanded: its resolved path, glob and variable sets are
/// empty and well formed, and its environment is well formed.
pub open spec fn task_unexpanded(t: &Task) -> bool {
    &&& t.env.wf()
    &&& t.input_paths.wf() && t.input_paths.seq().len() == 0
    &&& t.input_globs.wf() && t.input_globs.seq().len() == 0
    &&& t.input_vars.wf() && t.input_vars.seq().len() == 0
    &&& t.output_paths.wf() && t.output_paths.seq().len() == 0
    &&& t.output_globs.wf() && t.output_globs.seq().len() == 0
}

/// Every task of a map is unexpanded.
pub open spec fn tasks_unexpanded(m: &KeyMap<Task>) -> bool {
    forall|i: int| 0 <= i < m.vals().len() ==> task_unexpanded(&#[trigger] m.vals()[i])
}

/// Every task of a map keeps its resolved input paths apart from its
/// resolved output paths.
pub open spec fn tasks_disjoint_io(m: &KeyMap<Task>) -> bool {
    forall|i: int|
        0 <= i < m.vals().len() ==> (#[trigger] m.vals()[i]).input_paths.as_set().disjoint(
            m.vals()[i].output_paths.as_set(),
        )
}

/// Expand every task of a project, in the fixed order: detect the
/// platform, then environment, dependencies, inputs, outputs, arguments
/// and command, and classify the task last. After expansion no task's
/// input paths meet its output paths — outputs override inputs.
pub fn expand_project(
    project: &mut Project,
    nodes: &Vec<Project>,
    indices: &KeyMap<usize>,
    workspace_root: &String,
    process_env: &KeyMap<String>,
) -> (r: Result<(), GraphError>)
    requires
        crate::project::project_wf(old(project)),
        tasks_unexpanded(&old(project).tasks),
        process_env.wf(),
        indices.wf(),
        forall|k: Seq<char>|
            #[trigger] indices.spec_contains(k) ==> indices.spec_get(k) < nodes@.len()
                && nodes@[indices.spec_get(k) as int].tasks.wf(),
    ensures
        crate::project::project_wf(final(project)),
        final(project).id == old(project).id,
        final(project).source == old(project).source,
        final(project).dependencies == old(project).dependencies,
        r is Ok ==> tasks_disjoint_io(&final(project).tasks),
{
    let mut pending: KeyMap<Task> = KeyMap::new();
    core::mem::swap(&mut pending, &mut project.tasks);
    let project_platform = match &project.config.platform {
        Some(p) => *p,
        None => PlatformType::Unknown,
    };
    proof {
        crate::collections::lemma_kv_len(&project.tasks);
        assert(project.tasks.keys().len() == 0);
        assert(project.tasks.vals().len() == 0);
        assert(tasks_disjoint_io(&project.tasks));
    }
    loop
        invariant
            crate::project::project_wf(project),
            project.id == old(project).id,
            project.source == old(project).source,
            project.dependencies == old(project).dependencies,
            pending.wf(),
            tasks_unexpanded(&pending),
            tasks_disjoint_io(&project.tasks),
            process_env.wf(),
            indices.wf(),
            forall|k: Seq<char>|
                #[trigger] indices.spec_contains(k) ==> indices.spec_get(k) < nodes@.len()
                    && nodes@[indices.spec_get(k) as int].tasks.wf(),
        decreases pending.keys().len(),
    {
        let ghost pend0 = pending;
        let next = pending.pop_front();
        match next {
            Some(entry) => {
                let (tid, mut task) = entry;
                proof {
                    crate::collections::lemma_kv_len(&pend0);
                    crate::collections::lemma_kv_len(&pending);
                    assert(pend0.keys().len() > 0);
                    assert(task == pend0.vals()[0]);
                    assert(task_unexpanded(&task));
                    assert forall|i: int|
                        0 <= i < pending.vals().len() implies task_unexpanded(
                        &#[trigger] pending.vals()[i],
                    ) by {
                        assert(pending.vals()[i] == pend0.vals()[i + 1]);
                    };
                }
                if task.platform.is_unknown() {
                    if matches!(project_platform, PlatformType::Unknown) {
                        task.platform = crate::platform::detect_task_platform(
                            task.command.as_str(),
                            &project.language,
                        );
                    } else {
                        task.platform = project_platform;
                    }
                }
                let vars = build_token_vars_fields(
                    &project.id,
                    &project.source,
                    &project.type_of,
                    &project.language,
                    workspace_root,
                    &task,
                );
                match expand_task_env(
                    &mut task,
                    &project.config.env,
                    workspace_root,
                    &project.source,
                    process_env,
                ) {
                    Ok(_) => {},
                    Err(e) => {
                        core::mem::swap(&mut pending, &mut project.tasks);
                        return Err(e);
                    },
                }
                match expand_task_deps(
                    &mut task,
                    &project.id,
                    &project.dependencies,
                    nodes,
                    indices,
                    &project.inherited_config.implicit_deps,
                ) {
                    Ok(_) => {},
                    Err(e) => {
                        core::mem::swap(&mut pending, &mut project.tasks);
                        return Err(e);
                    },
                }
                match expand_task_inputs(
                    &mut task,
                    &project.inherited_config.implicit_inputs,
                    &project.file_groups,
                    &project.source,
                    &vars,
                ) {
                    Ok(_) => {},
                    Err(e) => {
                        core::mem::swap(&mut pending, &mut project.tasks);
                        return Err(e);
                    },
                }
                match expand_task_outputs(&mut task, &project.file_groups, &project.source, &vars) {
                    Ok(_) => {},
                    Err(e) => {
                        core::mem::swap(&mut pending, &mut project.tasks);
                        return Err(e);
                    },
                }
                match expand_task_args(&mut task, &project.file_groups, &project.source, &vars) {
                    Ok(_) => {},
                    Err(e) => {
                        core::mem::swap(&mut pending, &mut project.tasks);
                        return Err(e);
                    },
                }
                match expand_task_command(&mut task, &vars) {
                    Ok(_) => {},
                    Err(e) => {
                        core::mem::swap(&mut pending, &mut project.tasks);
                        return Err(e);
                    },
                }
                task.determine_type();
                proof {
                    assert(task.input_paths.as_set().disjoint(task.output_paths.as_set()));
                }
                let ghost tsk = task;
                let ghost pre_tasks = project.tasks;
                project.tasks.insert(tid.as_str(), task);
                proof {
                    crate::collections::lemma_kv_len(&pre_tasks);
                    crate::collections::lemma_kv_len(&project.tasks);
                    assert forall|i: int|
                        0 <= i < project.tasks.vals().len() implies (
                    #[trigger] project.tasks.vals()[i]).input_paths.as_set().disjoint(
                        project.tasks.vals()[i].output_paths.as_set(),
                    ) && project.tasks.vals()[i].env.wf() by {
                        if pre_tasks.spec_contains(tid@) {
                            let j = pre_tasks.index_of(tid@);
                            if i == j {
                                assert(project.tasks.vals()[i] == tsk);
                            } else {
                                assert(project.tasks.vals()[i] == pre_tasks.vals()[i]);
                            }
                        } else {
                            if i == project.tasks.vals().len() - 1 {
                                assert(project.tasks.vals()[i] == tsk);
                            } else {
                                assert(project.tasks.vals()[i] == pre_tasks.vals()[i]);
                            }
                        }
                    };
                }
            },
            None => {
                break ;
            },
        }
    }
    Ok(())
}

/// The token variables a task sees, from the owning project's fields.
pub fn build_token_vars_fields(
    project_id: &Id,
    source: &String,
    type_of: &crate::platform::ProjectType,
    language: &crate::platform::LanguageType,
    workspace_root: &String,
    task: &Task,
) -> (r: KeyMap<String>)
    ensures
        r.wf(),
{
    let mut vars: KeyMap<String> = KeyMap::new();
    let mut root = workspace_root.clone();
    push_char(&mut root, '/');
    root.append(source.as_str());
    vars.insert("projectRoot", root);
    vars.insert("projectType", type_of.key());
    vars.insert("language", language.key());
    vars.insert("taskPlatform", task.platform.key());
    vars.insert(
        "taskType",
        match task.type_of {
            crate::platform::TaskType::Build => "build".to_owned(),
            crate::platform::TaskType::Run => "run".to_owned(),
            crate::platform::TaskType::Test => "test".to_owned(),
        },
    );
    vars.insert("project", project_id.as_str().to_owned());
    vars.insert("projectSource", source.as_str().to_owned());
    vars.insert("target", task.target.format());
    vars.insert("task", task.id.as_str().to_owned());
    vars.insert("workspaceRoot", workspace_root.clone());
    vars
}


} // verus!
