//! The expanded task model: a runnable unit with its command, arguments,
//! dependencies, environment, inputs and outputs, both raw and resolved.
use vstd::prelude::*;

use crate::collections::{clone_string_vec, KeyMap, StrSet};
use crate::ids::{str_eq, Id};
use crate::platform::{PlatformType, TaskType};
use crate::target::{clone_target_vec, spec_format, Target, TargetView};
use crate::task_config::{
    get_command_and_args, spec_command_and_args, spec_options_from_config, TaskCommandArgs,
    TaskConfig, TaskMergeStrategy, TaskOptions, TaskOptionsConfig,
};

verus! {

/// A marker set on a task.
#[derive(Clone, Copy, PartialEq, Eq, Structural, Debug)]
pub enum TaskFlag {
    /// The task was configured with an explicitly empty input list and is
    /// always considered affected.
    NoInputs,
}

/// Raised when a task cannot be built or expanded.
#[derive(Debug)]
pub enum TaskError {
    /// An environment file exists but cannot be parsed; holds the resolved
    /// path and the cause.
    InvalidEnvFile(String, String),
    /// An input or output glob pattern does not parse; holds the cause.
    InvalidGlob(String),
}

/// A runnable unit owned by a project.
pub struct Task {
    pub args: Vec<String>,
    pub command: String,
    pub deps: Vec<Target>,
    pub env: KeyMap<String>,
    pub flags: Vec<TaskFlag>,
    pub global_inputs: Vec<String>,
    pub id: Id,
    pub inputs: Vec<String>,
    /// Workspace-relative glob patterns resolved from the inputs.
    pub input_globs: StrSet,
    /// Workspace-relative paths resolved from the inputs.
    pub input_paths: StrSet,
    /// Environment variable names the inputs named.
    pub input_vars: StrSet,
    pub log_target: String,
    pub options: TaskOptions,
    pub outputs: Vec<String>,
    /// Workspace-relative glob patterns resolved from the outputs.
    pub output_globs: StrSet,
    /// Workspace-relative paths resolved from the outputs.
    pub output_paths: StrSet,
    pub platform: PlatformType,
    pub target: Target,
    pub type_of: TaskType,
}

/// Whether a flag list carries the no-inputs marker.
pub open spec fn spec_flags_no_inputs(flags: Seq<TaskFlag>) -> bool {
    flags.contains(TaskFlag::NoInputs)
}

/// Whether the task carries the no-inputs marker.
pub open spec fn has_no_inputs_flag(t: &Task) -> bool {
    spec_flags_no_inputs(t.flags@)
}

/// The command a configuration denotes; `"noop"` where none is written.
pub open spec fn spec_command_of(c: &TaskConfig) -> Seq<char> {
    match spec_command_and_args(c).0 {
        Some(w) => w,
        None => "noop"@,
    }
}

/// A task that runs indefinitely by its nature: a local dev server.
pub open spec fn spec_is_local(c: &TaskConfig) -> bool {
    ||| c.local
    ||| spec_command_of(c) == "dev"@
    ||| spec_command_of(c) == "serve"@
    ||| spec_command_of(c) == "start"@
}

/// A map of environment strings seen by view.
pub open spec fn env_view(m: &KeyMap<String>) -> Map<Seq<char>, Seq<char>> {
    Map::new(|k: Seq<char>| m.spec_contains(k), |k: Seq<char>| m.spec_get(k)@)
}

/// How a freshly built task relates to the configuration and target it was
/// built from.
pub open spec fn task_from_config_rel(t: &Task, target: &Target, c: &TaskConfig) -> bool {
    &&& t.command@ == spec_command_of(c)
    &&& t.args.deep_view() == spec_command_and_args(c).1
    &&& t.deps@.map_values(|x: Target| x@) == c.deps@.map_values(|x: Target| x@)
    &&& t.env.wf()
    &&& env_view(&t.env) == env_view(&c.env)
    &&& (has_no_inputs_flag(t) <==> (c.inputs matches Some(v) && v@.len() == 0))
    &&& t.global_inputs.deep_view() == c.global_inputs.deep_view()
    &&& t.id@ == target.task_id@
    &&& t.inputs.deep_view() == (match c.inputs {
        Some(v) => v.deep_view(),
        None => Seq::<Seq<char>>::empty(),
    })
    &&& t.input_globs.seq().len() == 0
    &&& t.input_paths.seq().len() == 0
    &&& t.input_vars.seq().len() == 0
    &&& t.input_globs.wf() && t.input_paths.wf() && t.input_vars.wf()
    &&& t.log_target@ == "moon:project:"@ + spec_format(target@)
    &&& t.options.obs() == spec_options_from_config(c.options.obs(), spec_is_local(c))
    &&& t.outputs.deep_view() == (match c.outputs {
        Some(v) => v.deep_view(),
        None => Seq::<Seq<char>>::empty(),
    })
    &&& t.output_globs.seq().len() == 0
    &&& t.output_paths.seq().len() == 0
    &&& t.output_globs.wf() && t.output_paths.wf()
    &&& t.platform == c.platform
    &&& t.target@ == target@
    &&& t.type_of == (if spec_is_local(c) {
        TaskType::Run
    } else {
        TaskType::Test
    })
}

impl Task {
    /// Build a task from its configuration: split the command and argument
    /// words, default the command to `"noop"`, mark a local task, resolve
    /// the options, and record an explicitly empty input list.
    pub fn from_config(target: Target, config: &TaskConfig) -> (r: Result<Task, TaskError>)
        requires
            config.env.wf(),
        ensures
            r matches Ok(t) && task_from_config_rel(&t, &target, config),
    {
        let (command_opt, args) = get_command_and_args(config);
        let no_inputs = match &config.inputs {
            Some(v) => v.len() == 0,
            None => false,
        };
        let command = match command_opt {
            Some(c) => c,
            None => "noop".to_owned(),
        };
        let is_local = config.local || str_eq(command.as_str(), "dev")
            || str_eq(command.as_str(), "serve") || str_eq(command.as_str(), "start");
        let mut log_target = "moon:project:".to_owned();
        log_target.append(target.format().as_str());
        let mut flags: Vec<TaskFlag> = Vec::new();
        if no_inputs {
            flags.push(TaskFlag::NoInputs);
        }
        let inputs = match &config.inputs {
            Some(v) => clone_string_vec(v),
            None => Vec::new(),
        };
        let outputs = match &config.outputs {
            Some(v) => clone_string_vec(v),
            None => Vec::new(),
        };
        let task = Task {
            args,
            command,
            deps: clone_target_vec(&config.deps),
            env: config.env.duplicate(),
            flags,
            global_inputs: clone_string_vec(&config.global_inputs),
            id: target.task_id.clone(),
            inputs,
            input_globs: StrSet::new(),
            input_paths: StrSet::new(),
            input_vars: StrSet::new(),
            log_target,
            options: TaskOptions::from_config(&config.options, is_local),
            outputs,
            output_globs: StrSet::new(),
            output_paths: StrSet::new(),
            platform: config.platform,
            target,
            type_of: if is_local {
                TaskType::Run
            } else {
                TaskType::Test
            },
        };
        proof {
            if no_inputs {
                assert(task.flags@ =~= seq![TaskFlag::NoInputs]);
                assert(task.flags@[0] == TaskFlag::NoInputs);
                assert(task.flags@.contains(TaskFlag::NoInputs));
            } else {
                assert(task.flags@ =~= Seq::<TaskFlag>::empty());
                assert(!task.flags@.contains(TaskFlag::NoInputs));
            }
            assert(task.inputs.deep_view() =~= (match config.inputs {
                Some(v) => v.deep_view(),
                None => Seq::<Seq<char>>::empty(),
            }));
            assert(task.outputs.deep_view() =~= (match config.outputs {
                Some(v) => v.deep_view(),
                None => Seq::<Seq<char>>::empty(),
            }));
            assert(env_view(&task.env) =~= env_view(&config.env));
        }
        Ok(task)
    }

    /// What a task writes back out as configuration.
    pub fn to_config(&self) -> (r: TaskConfig)
        requires
            self.env.wf(),
        ensures
            task_to_config_rel(&r, self),
    {
        let mut command: Vec<String> = Vec::new();
        command.push(self.command.clone());
        let mut rest = clone_string_vec(&self.args);
        command.append(&mut rest);
        proof {
            assert(command.deep_view() =~= seq![self.command@] + self.args.deep_view());
        }
        let mut config = TaskConfig::new();
        config.command = TaskCommandArgs::List(command);
        config.options = self.options.to_config();
        if self.deps.len() > 0 {
            config.deps = clone_target_vec(&self.deps);
        } else {
            proof {
                assert(config.deps@.map_values(|x: Target| x@) =~= self.deps@.map_values(
                    |x: Target| x@,
                ));
            }
        }
        if self.env.len() > 0 {
            config.env = self.env.duplicate();
        }
        proof {
            assert(env_view(&config.env) =~= env_view(&self.env));
        }
        if self.inputs.len() > 0 {
            config.inputs = Some(clone_string_vec(&self.inputs));
        } else if self.has_flag_no_inputs() {
            // the marker keeps an explicitly empty input list reconstructible
            config.inputs = Some(Vec::new());
        }
        if self.outputs.len() > 0 {
            config.outputs = Some(clone_string_vec(&self.outputs));
        }
        config.platform = self.platform;
        config
    }

    /// After expansion, a task that writes outputs is a build task.
    pub fn determine_type(&mut self)
        ensures
            *final(self) == (Task {
                type_of: if old(self).outputs@.len() > 0 {
                    TaskType::Build
                } else {
                    old(self).type_of
                },
                ..*old(self)
            }),
    {
        if self.outputs.len() > 0 {
            self.type_of = TaskType::Build;
        }
    }

    /// The log target naming the task.
    pub fn get_log_target(&self) -> (r: &str)
        ensures
            r@ == self.log_target@,
    {
        self.log_target.as_str()
    }

    /// Whether the task builds artifacts.
    pub fn is_build_type(&self) -> (r: bool)
        ensures
            r == (self.type_of == TaskType::Build),
    {
        matches!(self.type_of, TaskType::Build)
    }

    /// Whether the task does nothing.
    pub fn is_no_op(&self) -> (r: bool)
        ensures
            r == (self.command@ == "nop"@ || self.command@ == "noop"@ || self.command@
                == "no-op"@),
    {
        str_eq(self.command.as_str(), "nop") || str_eq(self.command.as_str(), "noop") || str_eq(
            self.command.as_str(),
            "no-op",
        )
    }

    /// Whether the task runs an application.
    pub fn is_run_type(&self) -> (r: bool)
        ensures
            r == (self.type_of == TaskType::Run),
    {
        matches!(self.type_of, TaskType::Run)
    }

    /// Whether the task tests the project.
    pub fn is_test_type(&self) -> (r: bool)
        ensures
            r == (self.type_of == TaskType::Test),
    {
        matches!(self.type_of, TaskType::Test)
    }

    /// Whether the task runs indefinitely.
    pub fn is_persistent(&self) -> (r: bool)
        ensures
            r == self.options.persistent,
    {
        self.options.persistent
    }

    /// Whether the task should run in a continuous integration run: only
    /// where its options allow it and it builds or tests.
    pub fn should_run_in_ci(&self) -> (r: bool)
        ensures
            r == (self.options.run_in_ci && (self.type_of == TaskType::Build || self.type_of
                == TaskType::Test)),
    {
        if !self.options.run_in_ci {
            return false;
        }
        self.is_build_type() || self.is_test_type()
    }

    /// Merge a configuration layer over the task. The options merge first,
    /// so a changed merge strategy governs its own layer; each written field
    /// then combines by the matching strategy; an explicitly empty input
    /// list clears the inputs and sets the no-inputs marker.
    #[verifier::rlimit(100)]
    pub fn merge(&mut self, config: &TaskConfig) -> (r: Result<(), TaskError>)
        requires
            old(self).env.wf(),
            config.env.wf(),
        ensures
            r is Ok,
            final(self).env.wf(),
            final(self).options.obs() == (crate::task_config::TaskOptionsObs {
                env_file: match config.options.env_file {
                    Some(s) => Some(s@),
                    None => old(self).options.obs().env_file,
                },
                merge_args: config.options.merge_args.unwrap_or(old(self).options.merge_args),
                merge_deps: config.options.merge_deps.unwrap_or(old(self).options.merge_deps),
                merge_env: config.options.merge_env.unwrap_or(old(self).options.merge_env),
                merge_inputs: config.options.merge_inputs.unwrap_or(
                    old(self).options.merge_inputs,
                ),
                merge_outputs: config.options.merge_outputs.unwrap_or(
                    old(self).options.merge_outputs,
                ),
                persistent: config.options.persistent.unwrap_or(old(self).options.persistent),
                retry_count: config.options.retry_count.unwrap_or(old(self).options.retry_count),
                run_in_ci: config.options.run_in_ci.unwrap_or(old(self).options.run_in_ci),
                run_from_workspace_root: config.options.run_from_workspace_root.unwrap_or(
                    old(self).options.run_from_workspace_root,
                ),
            }),
            final(self).platform == (if config.platform != PlatformType::Unknown {
                config.platform
            } else {
                old(self).platform
            }),
            final(self).command@ == (match spec_command_and_args(config).0 {
                Some(w) => w,
                None => old(self).command@,
            }),
            final(self).args.deep_view() == (if spec_command_and_args(config).1.len() > 0 {
                spec_merge_seq(
                    old(self).args.deep_view(),
                    spec_command_and_args(config).1,
                    final(self).options.merge_args,
                )
            } else {
                old(self).args.deep_view()
            }),
            final(self).deps@.map_values(|x: Target| x@) == (if config.deps@.len() > 0 {
                spec_merge_seq(
                    old(self).deps@.map_values(|x: Target| x@),
                    config.deps@.map_values(|x: Target| x@),
                    final(self).options.merge_deps,
                )
            } else {
                old(self).deps@.map_values(|x: Target| x@)
            }),
            env_view(&final(self).env) == (if config.env.keys().len() > 0 {
                spec_merge_env(
                    env_view(&old(self).env),
                    env_view(&config.env),
                    final(self).options.merge_env,
                )
            } else {
                env_view(&old(self).env)
            }),
            final(self).inputs.deep_view() == (match config.inputs {
                Some(v) => if v@.len() == 0 {
                    Seq::<Seq<char>>::empty()
                } else {
                    spec_merge_seq(
                        old(self).inputs.deep_view(),
                        v.deep_view(),
                        final(self).options.merge_inputs,
                    )
                },
                None => old(self).inputs.deep_view(),
            }),
            spec_flags_no_inputs(final(self).flags@) == (match config.inputs {
                Some(v) => v@.len() == 0,
                None => spec_flags_no_inputs(old(self).flags@),
            }),
            final(self).outputs.deep_view() == (match config.outputs {
                Some(v) => spec_merge_seq(
                    old(self).outputs.deep_view(),
                    v.deep_view(),
                    final(self).options.merge_outputs,
                ),
                None => old(self).outputs.deep_view(),
            }),
            final(self).id@ == old(self).id@,
            final(self).target@ == old(self).target@,
            final(self).type_of == old(self).type_of,
            final(self).input_paths == old(self).input_paths,
            final(self).input_globs == old(self).input_globs,
            final(self).input_vars == old(self).input_vars,
            final(self).output_paths == old(self).output_paths,
            final(self).output_globs == old(self).output_globs,
            final(self).global_inputs == old(self).global_inputs,
            final(self).log_target == old(self).log_target,
    {
        let (command_opt, args) = get_command_and_args(config);

        self.options.merge(&config.options);

        if !config.platform.is_unknown() {
            self.platform = config.platform;
        }
        match command_opt {
            Some(cmd) => {
                self.command = cmd;
            },
            None => {},
        }
        if args.len() > 0 {
            self.args = merge_string_vec(&self.args, &args, self.options.merge_args);
        }
        if config.deps.len() > 0 {
            self.deps = merge_target_vec(&self.deps, &config.deps, self.options.merge_deps);
        }
        if config.env.len() > 0 {
            self.env = merge_env_vars(&self.env, &config.env, self.options.merge_env);
        }
        match &config.inputs {
            Some(inputs) => {
                if inputs.len() == 0 {
                    add_flag(&mut self.flags, TaskFlag::NoInputs);
                    self.inputs = Vec::new();
                    proof {
                        assert(self.inputs.deep_view() =~= Seq::<Seq<char>>::empty());
                    }
                } else {
                    remove_flag(&mut self.flags, TaskFlag::NoInputs);
                    self.inputs = merge_string_vec(&self.inputs, inputs, self.options.merge_inputs);
                }
            },
            None => {},
        }
        match &config.outputs {
            Some(outputs) => {
                self.outputs = merge_string_vec(&self.outputs, outputs, self.options.merge_outputs);
            },
            None => {},
        }
        Ok(())
    }
}

/// How a written-back configuration relates to the task it came from.
pub open spec fn task_to_config_rel(r: &TaskConfig, t: &Task) -> bool {
    &&& r.command.spec_words() == seq![t.command@] + t.args.deep_view()
    &&& r.args is Empty
    &&& r.deps@.map_values(|x: Target| x@) == t.deps@.map_values(|x: Target| x@)
    &&& r.env.wf()
    &&& env_view(&r.env) == env_view(&t.env)
    &&& r.global_inputs@.len() == 0
    &&& (t.inputs@.len() == 0 && !spec_flags_no_inputs(t.flags@) ==> r.inputs is None)
    &&& (t.inputs@.len() == 0 && spec_flags_no_inputs(t.flags@) ==> (r.inputs matches Some(v)
        && v@.len() == 0))
    &&& (t.inputs@.len() > 0 ==> (r.inputs matches Some(v) && v.deep_view()
        == t.inputs.deep_view()))
    &&& (t.outputs@.len() == 0 ==> r.outputs is None)
    &&& (t.outputs@.len() > 0 ==> (r.outputs matches Some(v) && v.deep_view()
        == t.outputs.deep_view()))
    &&& !r.local
    &&& r.platform == t.platform
    &&& r.type_of is None
}

/// What a configuration says, seen mathematically: the split command and
/// arguments, the dependency targets, the environment, the optional input
/// and output lists, and the platform.
#[verifier::ext_equal]
pub struct ConfigObservable {
    pub command: Option<Seq<char>>,
    pub args: Seq<Seq<char>>,
    pub deps: Seq<TargetView>,
    pub env: Map<Seq<char>, Seq<char>>,
    pub inputs: Option<Seq<Seq<char>>>,
    pub outputs: Option<Seq<Seq<char>>>,
    pub platform: PlatformType,
}

/// The observable content of a configuration.
pub open spec fn observable_of_config(c: &TaskConfig) -> ConfigObservable {
    ConfigObservable {
        command: spec_command_and_args(c).0,
        args: spec_command_and_args(c).1,
        deps: c.deps@.map_values(|x: Target| x@),
        env: env_view(&c.env),
        inputs: match c.inputs {
            Some(v) => Some(v.deep_view()),
            None => None,
        },
        outputs: match c.outputs {
            Some(v) => Some(v.deep_view()),
            None => None,
        },
        platform: c.platform,
    }
}

/// Law: building a task from a configuration and writing it back preserves
/// the observable fields — command, arguments, dependencies, environment,
/// inputs, outputs and platform — whenever the configuration writes a
/// command and its outputs are not an explicitly empty list. An explicitly
/// empty input list survives through the no-inputs marker.
pub proof fn lemma_task_config_round_trip(target: Target, c: TaskConfig, t: Task, r: TaskConfig)
    requires
        task_from_config_rel(&t, &target, &c),
        task_to_config_rel(&r, &t),
        spec_command_and_args(&c).0 is Some,
        !(c.outputs matches Some(v) && v@.len() == 0),
    ensures
        observable_of_config(&r) == observable_of_config(&c),
{
    let cw = r.command.spec_words();
    assert(cw == seq![t.command@] + t.args.deep_view());
    assert(cw.len() > 0);
    assert(cw[0] == t.command@);
    assert(spec_command_and_args(&r).0 == Some(t.command@));
    assert(spec_command_and_args(&r).1 =~= t.args.deep_view()) by {
        assert(cw.drop_first() =~= t.args.deep_view());
        assert(r.args.spec_words() =~= Seq::<Seq<char>>::empty());
    };
    match c.inputs {
        Some(v) => {
            assert(v.deep_view().len() == v@.len());
            assert(t.inputs.deep_view() == v.deep_view());
            assert(t.inputs@.len() == t.inputs.deep_view().len());
            if v@.len() == 0 {
                assert(spec_flags_no_inputs(t.flags@));
                assert(r.inputs matches Some(w) && w.deep_view() =~= v.deep_view());
            }
        },
        None => {
            assert(t.inputs@.len() == t.inputs.deep_view().len());
            assert(!spec_flags_no_inputs(t.flags@));
        },
    }
    match c.outputs {
        Some(v) => {
            assert(v@.len() > 0);
            assert(v.deep_view().len() == v@.len());
            assert(t.outputs.deep_view() == v.deep_view());
            assert(t.outputs@.len() == t.outputs.deep_view().len());
        },
        None => {
            assert(t.outputs@.len() == t.outputs.deep_view().len());
        },
    }
    assert(observable_of_config(&r) =~= observable_of_config(&c));
}

/// How two lists combine under a merge strategy.
pub open spec fn spec_merge_seq<T>(base: Seq<T>, next: Seq<T>, strategy: TaskMergeStrategy) -> Seq<
    T,
> {
    match strategy {
        TaskMergeStrategy::Append => base + next,
        TaskMergeStrategy::Prepend => next + base,
        TaskMergeStrategy::Replace => next,
    }
}

/// How two environment maps combine under a merge strategy: appending lets
/// the new map win per key, prepending lets the old one win, replacing
/// keeps only the new one.
pub open spec fn spec_merge_env(
    base: Map<Seq<char>, Seq<char>>,
    next: Map<Seq<char>, Seq<char>>,
    strategy: TaskMergeStrategy,
) -> Map<Seq<char>, Seq<char>> {
    match strategy {
        TaskMergeStrategy::Append => base.union_prefer_right(next),
        TaskMergeStrategy::Prepend => next.union_prefer_right(base),
        TaskMergeStrategy::Replace => next,
    }
}

/// Merge two string lists under a strategy.
pub fn merge_string_vec(base: &Vec<String>, next: &Vec<String>, strategy: TaskMergeStrategy) -> (r:
    Vec<String>)
    ensures
        r.deep_view() == spec_merge_seq(base.deep_view(), next.deep_view(), strategy),
{
    let mut out: Vec<String>;
    match strategy {
        TaskMergeStrategy::Append => {
            out = clone_string_vec(base);
            let mut rest = clone_string_vec(next);
            out.append(&mut rest);
        },
        TaskMergeStrategy::Prepend => {
            out = clone_string_vec(next);
            let mut rest = clone_string_vec(base);
            out.append(&mut rest);
        },
        TaskMergeStrategy::Replace => {
            out = clone_string_vec(next);
        },
    }
    proof {
        assert(out.deep_view() =~= spec_merge_seq(base.deep_view(), next.deep_view(), strategy));
    }
    out
}

/// Merge two target lists under a strategy.
pub fn merge_target_vec(base: &Vec<Target>, next: &Vec<Target>, strategy: TaskMergeStrategy) -> (r:
    Vec<Target>)
    ensures
        r@.map_values(|x: Target| x@) == spec_merge_seq(
            base@.map_values(|x: Target| x@),
            next@.map_values(|x: Target| x@),
            strategy,
        ),
{
    let mut out: Vec<Target>;
    match strategy {
        TaskMergeStrategy::Append => {
            out = clone_target_vec(base);
            let mut rest = clone_target_vec(next);
            out.append(&mut rest);
        },
        TaskMergeStrategy::Prepend => {
            out = clone_target_vec(next);
            let mut rest = clone_target_vec(base);
            out.append(&mut rest);
        },
        TaskMergeStrategy::Replace => {
            out = clone_target_vec(next);
        },
    }
    proof {
        assert(out@.map_values(|x: Target| x@) =~= spec_merge_seq(
            base@.map_values(|x: Target| x@),
            next@.map_values(|x: Target| x@),
            strategy,
        ));
    }
    out
}

/// Lay the second map over the first: every key of either is present, and
/// the second map's value wins where both hold a key.
pub fn overlay_env(a: &KeyMap<String>, b: &KeyMap<String>) -> (r: KeyMap<String>)
    requires
        a.wf(),
        b.wf(),
    ensures
        r.wf(),
        env_view(&r) == env_view(a).union_prefer_right(env_view(b)),
{
    let mut out = a.duplicate();
    let n = b.len();
    let mut j: usize = 0;
    while j < n
        invariant
            a.wf(),
            b.wf(),
            out.wf(),
            n == b.keys().len(),
            0 <= j <= n,
            forall|k: Seq<char>|
                #[trigger] out.spec_contains(k) <==> (a.spec_contains(k) || (exists|l: int|
                    0 <= l < j && b.keys()[l] == k)),
            forall|k: Seq<char>|
                out.spec_contains(k) ==> #[trigger] out.spec_get(k)@ == (if exists|l: int|
                    0 <= l < j && b.keys()[l] == k {
                    b.spec_get(k)@
                } else {
                    a.spec_get(k)@
                }),
        decreases n - j,
    {
        let ghost kj = b.keys()[j as int];
        out.insert(b.key_at(j).as_str(), b.val_at(j).clone());
        proof {
            crate::collections::lemma_unique_get(b, kj, j as int);
            assert forall|k: Seq<char>| #[trigger]
                out.spec_contains(k) <==> (a.spec_contains(k) || (exists|l: int|
                    0 <= l < j + 1 && b.keys()[l] == k)) by {
                if k == kj {
                    assert(b.keys()[j as int] == k);
                } else {
                }
            };
            assert forall|k: Seq<char>| out.spec_contains(k) implies #[trigger] out.spec_get(k)@
                == (if exists|l: int| 0 <= l < j + 1 && b.keys()[l] == k {
                b.spec_get(k)@
            } else {
                a.spec_get(k)@
            }) by {
                if k == kj {
                } else {
                    if exists|l: int| 0 <= l < j + 1 && b.keys()[l] == k {
                        let l = choose|l: int| 0 <= l < j + 1 && b.keys()[l] == k;
                        assert(l < j);
                        assert(exists|l2: int| 0 <= l2 < j && b.keys()[l2] == k);
                    }
                }
            };
        }
        j += 1;
    }
    proof {
        assert forall|k: Seq<char>| #[trigger]
            b.spec_contains(k) implies exists|l: int| 0 <= l < n && b.keys()[l] == k by {
        }
        assert(env_view(&out) =~= env_view(a).union_prefer_right(env_view(b)));
    }
    out
}

/// Merge two environment maps under a strategy.
pub fn merge_env_vars(
    base: &KeyMap<String>,
    next: &KeyMap<String>,
    strategy: TaskMergeStrategy,
) -> (r: KeyMap<String>)
    requires
        base.wf(),
        next.wf(),
    ensures
        r.wf(),
        env_view(&r) == spec_merge_env(env_view(base), env_view(next), strategy),
{
    match strategy {
        TaskMergeStrategy::Append => overlay_env(base, next),
        TaskMergeStrategy::Prepend => overlay_env(next, base),
        TaskMergeStrategy::Replace => {
            let r = next.duplicate();
            proof {
                assert(env_view(&r) =~= env_view(next));
            }
            r
        },
    }
}

/// Set a flag if it is absent.
pub fn add_flag(flags: &mut Vec<TaskFlag>, flag: TaskFlag)
    ensures
        final(flags)@.contains(flag),
        forall|f: TaskFlag| f != flag ==> final(flags)@.contains(f) == old(flags)@.contains(f),
{
    let n = flags.len();
    let mut i: usize = 0;
    while i < n
        invariant
            n == flags@.len(),
            0 <= i <= n,
            forall|j: int| 0 <= j < i ==> flags@[j] != flag,
        decreases n - i,
    {
        if flags[i] == flag {
            return ;
        }
        i += 1;
    }
    flags.push(flag);
    proof {
        assert(flags@[flags@.len() - 1] == flag);
        assert forall|f: TaskFlag| f != flag implies flags@.contains(f) == old(
            flags,
        )@.contains(f) by {
            if old(flags)@.contains(f) {
                let j = choose|j: int| 0 <= j < old(flags)@.len() && old(flags)@[j] == f;
                assert(flags@[j] == f);
            }
            if flags@.contains(f) {
                let j = choose|j: int| 0 <= j < flags@.len() && flags@[j] == f;
                assert(j < old(flags)@.len());
                assert(old(flags)@[j] == f);
            }
        };
    }
}

/// Clear a flag wherever it occurs.
pub fn remove_flag(flags: &mut Vec<TaskFlag>, flag: TaskFlag)
    ensures
        !final(flags)@.contains(flag),
        forall|f: TaskFlag| f != flag ==> final(flags)@.contains(f) == old(flags)@.contains(f),
{
    let n = flags.len();
    let mut out: Vec<TaskFlag> = Vec::new();
    let mut i: usize = 0;
    while i < n
        invariant
            n == flags@.len(),
            0 <= i <= n,
            forall|j: int| 0 <= j < out@.len() ==> out@[j] != flag,
            forall|f: TaskFlag|
                f != flag ==> (#[trigger] out@.contains(f) == flags@.take(i as int).contains(f)),
        decreases n - i,
    {
        let ghost pre = out@;
        if flags[i] != flag {
            out.push(flags[i]);
        }
        i += 1;
        proof {
            let cur = flags@.take(i as int);
            let prev = flags@.take(i - 1);
            let last = flags@[i - 1];
            assert(cur =~= prev.push(last));
            assert forall|f: TaskFlag| f != flag implies #[trigger] out@.contains(f)
                == cur.contains(f) by {
                if last != flag {
                    assert(out@ =~= pre.push(last));
                    if cur.contains(f) {
                        let j = choose|j: int| 0 <= j < cur.len() && cur[j] == f;
                        if j < prev.len() {
                            assert(prev[j] == f);
                            assert(prev.contains(f));
                            assert(pre.contains(f));
                            let l = choose|l: int| 0 <= l < pre.len() && pre[l] == f;
                            assert(out@[l] == f);
                        } else {
                            assert(out@[out@.len() - 1] == f);
                        }
                    }
                    if out@.contains(f) {
                        let j = choose|j: int| 0 <= j < out@.len() && out@[j] == f;
                        if j < pre.len() {
                            assert(pre[j] == f);
                            assert(pre.contains(f));
                            assert(prev.contains(f));
                            let l = choose|l: int| 0 <= l < prev.len() && prev[l] == f;
                            assert(cur[l] == f);
                        } else {
                            assert(cur[cur.len() - 1] == f);
                        }
                    }
                } else {
                    if cur.contains(f) {
                        let j = choose|j: int| 0 <= j < cur.len() && cur[j] == f;
                        assert(j < prev.len());
                        assert(prev[j] == f);
                        assert(prev.contains(f));
                    }
                    if prev.contains(f) {
                        let j = choose|j: int| 0 <= j < prev.len() && prev[j] == f;
                        assert(cur[j] == f);
                    }
                }
            };
        }
    }
    proof {
        assert(flags@.take(n as int) =~= flags@);
    }
    *flags = out;
}

} // verus!
