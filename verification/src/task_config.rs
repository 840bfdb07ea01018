//! Task configuration as written by a user: command and arguments in any of
//! three shapes, dependencies, environment, inputs and outputs, options.
use vstd::prelude::*;

use crate::args::spec_split_args;
use crate::collections::{clone_opt_string, clone_opt_string_vec, clone_string_vec, KeyMap};
use crate::platform::{PlatformType, TaskType};
use crate::target::{clone_target_vec, Target, TargetScope, TargetView};

verus! {

/// How a merged task field combines the inherited value and the new one.
#[derive(Clone, Copy, PartialEq, Eq, Structural, Debug)]
pub enum TaskMergeStrategy {
    Append,
    Prepend,
    Replace,
}

/// A command or argument list: absent, one string to split, or an explicit
/// sequence.
pub enum TaskCommandArgs {
    Empty,
    Line(String),
    List(Vec<String>),
}

impl TaskCommandArgs {
    /// The words this shape denotes.
    pub open spec fn spec_words(&self) -> Seq<Seq<char>> {
        match self {
            TaskCommandArgs::Empty => Seq::empty(),
            TaskCommandArgs::Line(s) => spec_split_args(s@),
            TaskCommandArgs::List(v) => v.deep_view(),
        }
    }

    /// Split or copy the shape into its words.
    pub fn words(&self) -> (r: Vec<String>)
        ensures
            r.deep_view() == self.spec_words(),
    {
        match self {
            TaskCommandArgs::Empty => Vec::new(),
            TaskCommandArgs::Line(s) => crate::args::split_args(s.as_str()),
            TaskCommandArgs::List(v) => clone_string_vec(v),
        }
    }

    /// Copy the shape.
    pub fn duplicate(&self) -> (r: Self)
        ensures
            r.spec_words() == self.spec_words(),
            r is Empty == self is Empty,
    {
        match self {
            TaskCommandArgs::Empty => TaskCommandArgs::Empty,
            TaskCommandArgs::Line(s) => TaskCommandArgs::Line(s.clone()),
            TaskCommandArgs::List(v) => TaskCommandArgs::List(clone_string_vec(v)),
        }
    }
}

/// Unresolved task options, each left out where the default applies.
pub struct TaskOptionsConfig {
    pub env_file: Option<String>,
    pub merge_args: Option<TaskMergeStrategy>,
    pub merge_deps: Option<TaskMergeStrategy>,
    pub merge_env: Option<TaskMergeStrategy>,
    pub merge_inputs: Option<TaskMergeStrategy>,
    pub merge_outputs: Option<TaskMergeStrategy>,
    pub persistent: Option<bool>,
    pub retry_count: Option<u8>,
    pub run_in_ci: Option<bool>,
    pub run_from_workspace_root: Option<bool>,
}

impl TaskOptionsConfig {
    /// Options with nothing set.
    pub fn new() -> (r: Self)
        ensures
            r == TaskOptionsConfig::spec_default(),
    {
        TaskOptionsConfig {
            env_file: None,
            merge_args: None,
            merge_deps: None,
            merge_env: None,
            merge_inputs: None,
            merge_outputs: None,
            persistent: None,
            retry_count: None,
            run_in_ci: None,
            run_from_workspace_root: None,
        }
    }

    /// Options with nothing set.
    pub open spec fn spec_default() -> Self {
        TaskOptionsConfig {
            env_file: None,
            merge_args: None,
            merge_deps: None,
            merge_env: None,
            merge_inputs: None,
            merge_outputs: None,
            persistent: None,
            retry_count: None,
            run_in_ci: None,
            run_from_workspace_root: None,
        }
    }

    /// The options as fields, with `Option<String>` compared by view.
    pub open spec fn obs(&self) -> TaskOptionsConfigObs {
        TaskOptionsConfigObs {
            env_file: match self.env_file {
                Some(s) => Some(s@),
                None => None,
            },
            merge_args: self.merge_args,
            merge_deps: self.merge_deps,
            merge_env: self.merge_env,
            merge_inputs: self.merge_inputs,
            merge_outputs: self.merge_outputs,
            persistent: self.persistent,
            retry_count: self.retry_count,
            run_in_ci: self.run_in_ci,
            run_from_workspace_root: self.run_from_workspace_root,
        }
    }

    /// Copy the options.
    pub fn duplicate(&self) -> (r: Self)
        ensures
            r.obs() == self.obs(),
    {
        TaskOptionsConfig {
            env_file: clone_opt_string(&self.env_file),
            merge_args: self.merge_args,
            merge_deps: self.merge_deps,
            merge_env: self.merge_env,
            merge_inputs: self.merge_inputs,
            merge_outputs: self.merge_outputs,
            persistent: self.persistent,
            retry_count: self.retry_count,
            run_in_ci: self.run_in_ci,
            run_from_workspace_root: self.run_from_workspace_root,
        }
    }
}

/// Unresolved options by view.
pub struct TaskOptionsConfigObs {
    pub env_file: Option<Seq<char>>,
    pub merge_args: Option<TaskMergeStrategy>,
    pub merge_deps: Option<TaskMergeStrategy>,
    pub merge_env: Option<TaskMergeStrategy>,
    pub merge_inputs: Option<TaskMergeStrategy>,
    pub merge_outputs: Option<TaskMergeStrategy>,
    pub persistent: Option<bool>,
    pub retry_count: Option<u8>,
    pub run_in_ci: Option<bool>,
    pub run_from_workspace_root: Option<bool>,
}

/// Resolved task options.
pub struct TaskOptions {
    pub env_file: Option<String>,
    pub merge_args: TaskMergeStrategy,
    pub merge_deps: TaskMergeStrategy,
    pub merge_env: TaskMergeStrategy,
    pub merge_inputs: TaskMergeStrategy,
    pub merge_outputs: TaskMergeStrategy,
    pub persistent: bool,
    pub retry_count: u8,
    pub run_in_ci: bool,
    pub run_from_workspace_root: bool,
}

/// Resolved options by view.
pub struct TaskOptionsObs {
    pub env_file: Option<Seq<char>>,
    pub merge_args: TaskMergeStrategy,
    pub merge_deps: TaskMergeStrategy,
    pub merge_env: TaskMergeStrategy,
    pub merge_inputs: TaskMergeStrategy,
    pub merge_outputs: TaskMergeStrategy,
    pub persistent: bool,
    pub retry_count: u8,
    pub run_in_ci: bool,
    pub run_from_workspace_root: bool,
}

/// The resolved options an unresolved set denotes: each absent field takes
/// its default, a local task is persistent and skips CI by default.
pub open spec fn spec_options_from_config(c: TaskOptionsConfigObs, is_local: bool) -> TaskOptionsObs {
    TaskOptionsObs {
        env_file: c.env_file,
        merge_args: c.merge_args.unwrap_or(TaskMergeStrategy::Append),
        merge_deps: c.merge_deps.unwrap_or(TaskMergeStrategy::Append),
        merge_env: c.merge_env.unwrap_or(TaskMergeStrategy::Append),
        merge_inputs: c.merge_inputs.unwrap_or(TaskMergeStrategy::Append),
        merge_outputs: c.merge_outputs.unwrap_or(TaskMergeStrategy::Append),
        persistent: c.persistent.unwrap_or(is_local),
        retry_count: c.retry_count.unwrap_or(0),
        run_in_ci: c.run_in_ci.unwrap_or(!is_local),
        run_from_workspace_root: c.run_from_workspace_root.unwrap_or(false),
    }
}

impl TaskOptions {
    /// Resolved options by view.
    pub open spec fn obs(&self) -> TaskOptionsObs {
        TaskOptionsObs {
            env_file: match self.env_file {
                Some(s) => Some(s@),
                None => None,
            },
            merge_args: self.merge_args,
            merge_deps: self.merge_deps,
            merge_env: self.merge_env,
            merge_inputs: self.merge_inputs,
            merge_outputs: self.merge_outputs,
            persistent: self.persistent,
            retry_count: self.retry_count,
            run_in_ci: self.run_in_ci,
            run_from_workspace_root: self.run_from_workspace_root,
        }
    }

    /// Resolve unresolved options.
    pub fn from_config(config: &TaskOptionsConfig, is_local: bool) -> (r: TaskOptions)
        ensures
            r.obs() == spec_options_from_config(config.obs(), is_local),
    {
        TaskOptions {
            env_file: clone_opt_string(&config.env_file),
            merge_args: unwrap_strategy(&config.merge_args),
            merge_deps: unwrap_strategy(&config.merge_deps),
            merge_env: unwrap_strategy(&config.merge_env),
            merge_inputs: unwrap_strategy(&config.merge_inputs),
            merge_outputs: unwrap_strategy(&config.merge_outputs),
            persistent: unwrap_bool(&config.persistent, is_local),
            retry_count: unwrap_u8(&config.retry_count, 0),
            run_in_ci: unwrap_bool(&config.run_in_ci, !is_local),
            run_from_workspace_root: unwrap_bool(&config.run_from_workspace_root, false),
        }
    }

    /// Write the resolved options back out as configuration, every field
    /// set.
    pub fn to_config(&self) -> (r: TaskOptionsConfig)
        ensures
            spec_options_from_config(r.obs(), false) == self.obs(),
            spec_options_from_config(r.obs(), true) == self.obs(),
    {
        TaskOptionsConfig {
            env_file: clone_opt_string(&self.env_file),
            merge_args: Some(self.merge_args),
            merge_deps: Some(self.merge_deps),
            merge_env: Some(self.merge_env),
            merge_inputs: Some(self.merge_inputs),
            merge_outputs: Some(self.merge_outputs),
            persistent: Some(self.persistent),
            retry_count: Some(self.retry_count),
            run_in_ci: Some(self.run_in_ci),
            run_from_workspace_root: Some(self.run_from_workspace_root),
        }
    }

    /// Overwrite each option that the new configuration sets.
    pub fn merge(&mut self, config: &TaskOptionsConfig)
        ensures
            final(self).obs() == (TaskOptionsObs {
                env_file: match config.env_file {
                    Some(s) => Some(s@),
                    None => old(self).obs().env_file,
                },
                merge_args: config.merge_args.unwrap_or(old(self).merge_args),
                merge_deps: config.merge_deps.unwrap_or(old(self).merge_deps),
                merge_env: config.merge_env.unwrap_or(old(self).merge_env),
                merge_inputs: config.merge_inputs.unwrap_or(old(self).merge_inputs),
                merge_outputs: config.merge_outputs.unwrap_or(old(self).merge_outputs),
                persistent: config.persistent.unwrap_or(old(self).persistent),
                retry_count: config.retry_count.unwrap_or(old(self).retry_count),
                run_in_ci: config.run_in_ci.unwrap_or(old(self).run_in_ci),
                run_from_workspace_root: config.run_from_workspace_root.unwrap_or(
                    old(self).run_from_workspace_root,
                ),
            }),
    {
        match &config.env_file {
            Some(s) => {
                self.env_file = Some(s.clone());
            },
            None => {},
        }
        self.merge_args = unwrap_strategy_or(&config.merge_args, self.merge_args);
        self.merge_deps = unwrap_strategy_or(&config.merge_deps, self.merge_deps);
        self.merge_env = unwrap_strategy_or(&config.merge_env, self.merge_env);
        self.merge_inputs = unwrap_strategy_or(&config.merge_inputs, self.merge_inputs);
        self.merge_outputs = unwrap_strategy_or(&config.merge_outputs, self.merge_outputs);
        self.persistent = unwrap_bool(&config.persistent, self.persistent);
        self.retry_count = unwrap_u8(&config.retry_count, self.retry_count);
        self.run_in_ci = unwrap_bool(&config.run_in_ci, self.run_in_ci);
        self.run_from_workspace_root = unwrap_bool(
            &config.run_from_workspace_root,
            self.run_from_workspace_root,
        );
    }
}

fn unwrap_strategy(v: &Option<TaskMergeStrategy>) -> (r: TaskMergeStrategy)
    ensures
        r == v.unwrap_or(TaskMergeStrategy::Append),
{
    match v {
        Some(s) => *s,
        None => TaskMergeStrategy::Append,
    }
}

fn unwrap_strategy_or(v: &Option<TaskMergeStrategy>, d: TaskMergeStrategy) -> (r:
    TaskMergeStrategy)
    ensures
        r == v.unwrap_or(d),
{
    match v {
        Some(s) => *s,
        None => d,
    }
}

fn unwrap_bool(v: &Option<bool>, d: bool) -> (r: bool)
    ensures
        r == v.unwrap_or(d),
{
    match v {
        Some(b) => *b,
        None => d,
    }
}

fn unwrap_u8(v: &Option<u8>, d: u8) -> (r: u8)
    ensures
        r == v.unwrap_or(d),
{
    match v {
        Some(b) => *b,
        None => d,
    }
}

/// A task as configured, before expansion.
pub struct TaskConfig {
    pub command: TaskCommandArgs,
    pub args: TaskCommandArgs,
    pub deps: Vec<Target>,
    pub env: KeyMap<String>,
    pub global_inputs: Vec<String>,
    /// `None` means all inputs; an empty list means no inputs.
    pub inputs: Option<Vec<String>>,
    pub local: bool,
    pub outputs: Option<Vec<String>>,
    pub options: TaskOptionsConfig,
    pub platform: PlatformType,
    pub type_of: Option<TaskType>,
}

impl TaskConfig {
    /// A configuration with nothing set.
    pub fn new() -> (r: Self)
        ensures
            r.command is Empty,
            r.args is Empty,
            r.deps@.len() == 0,
            r.env.wf(),
            r.env.keys().len() == 0,
            r.global_inputs@.len() == 0,
            r.inputs is None,
            !r.local,
            r.outputs is None,
            r.options == TaskOptionsConfig::spec_default(),
            r.platform == PlatformType::Unknown,
            r.type_of is None,
    {
        TaskConfig {
            command: TaskCommandArgs::Empty,
            args: TaskCommandArgs::Empty,
            deps: Vec::new(),
            env: KeyMap::new(),
            global_inputs: Vec::new(),
            inputs: None,
            local: false,
            outputs: None,
            options: TaskOptionsConfig::new(),
            platform: PlatformType::Unknown,
            type_of: None,
        }
    }
}

/// Raised when a configuration fails validation.
#[derive(Debug)]
pub enum TaskConfigError {
    /// The command is written but empty; `"noop"` stands for doing nothing.
    CommandRequired,
    /// A dependency target uses the all-projects or tag scope.
    UnsupportedDepScope(usize),
}

/// A written command is empty: an empty string, a string whose first
/// space-separated word is empty, or an empty or empty-headed sequence.
pub open spec fn spec_command_is_empty(cmd: &TaskCommandArgs) -> bool {
    match cmd {
        TaskCommandArgs::Empty => false,
        TaskCommandArgs::Line(s) => s@.len() == 0 || s@[0] == ' ',
        TaskCommandArgs::List(v) => v@.len() == 0 || v@[0]@.len() == 0,
    }
}

/// Reject a command that is written but empty.
pub fn validate_command(cmd: &TaskCommandArgs) -> (r: Result<(), TaskConfigError>)
    ensures
        r is Ok <==> !spec_command_is_empty(cmd),
{
    let empty = match cmd {
        TaskCommandArgs::Empty => false,
        TaskCommandArgs::Line(s) => s.unicode_len() == 0 || s.as_str().get_char(0) == ' ',
        TaskCommandArgs::List(v) => v.len() == 0 || v[0].unicode_len() == 0,
    };
    if empty {
        Err(TaskConfigError::CommandRequired)
    } else {
        Ok(())
    }
}

/// A scope legal for a task dependency: deps, self, or a named project.
pub open spec fn spec_dep_scope_supported(t: TargetView) -> bool {
    match t.scope {
        crate::target::ScopeView::All => false,
        crate::target::ScopeView::Tag(_) => false,
        _ => true,
    }
}

/// Reject dependencies on the all-projects or tag scope.
pub fn validate_deps(deps: &Vec<Target>) -> (r: Result<(), TaskConfigError>)
    ensures
        r is Ok <==> forall|i: int|
            0 <= i < deps@.len() ==> spec_dep_scope_supported(#[trigger] deps@[i]@),
        r matches Err(TaskConfigError::UnsupportedDepScope(i)) ==> 0 <= i < deps@.len()
            && !spec_dep_scope_supported(deps@[i as int]@),
{
    let n = deps.len();
    let mut i: usize = 0;
    while i < n
        invariant
            n == deps@.len(),
            0 <= i <= n,
            forall|j: int| 0 <= j < i ==> spec_dep_scope_supported(#[trigger] deps@[j]@),
        decreases n - i,
    {
        let bad = match &deps[i].scope {
            TargetScope::All => true,
            TargetScope::Tag(_) => true,
            _ => false,
        };
        if bad {
            proof {
                assert(!spec_dep_scope_supported(deps@[i as int]@));
            }
            return Err(TaskConfigError::UnsupportedDepScope(i));
        }
        i += 1;
    }
    Ok(())
}

/// The command and argument words a configuration denotes: the first word
/// of the command shape is the command, the rest and the argument words are
/// the arguments.
pub open spec fn spec_command_and_args(c: &TaskConfig) -> (Option<Seq<char>>, Seq<Seq<char>>) {
    let cmd_words = c.command.spec_words();
    let arg_words = c.args.spec_words();
    if cmd_words.len() == 0 {
        (None, arg_words)
    } else {
        (Some(cmd_words[0]), cmd_words.drop_first() + arg_words)
    }
}

/// Split a configuration into its command and argument words.
pub fn get_command_and_args(task: &TaskConfig) -> (r: (Option<String>, Vec<String>))
    ensures
        match r.0 {
            Some(s) => spec_command_and_args(task).0 == Some(s@),
            None => spec_command_and_args(task).0 is None,
        },
        r.1.deep_view() == spec_command_and_args(task).1,
{
    let mut cmd_list = task.command.words();
    let arg_words = task.args.words();
    if cmd_list.len() == 0 {
        proof {
            assert(cmd_list.deep_view().len() == 0);
            assert(arg_words.deep_view() =~= spec_command_and_args(task).1);
        }
        (None, arg_words)
    } else {
        let ghost arg_view = arg_words.deep_view();
        let command = cmd_list.remove(0);
        let mut args = cmd_list;
        let ghost mid = args.deep_view();
        let mut rest = arg_words;
        args.append(&mut rest);
        proof {
            assert(args.deep_view() =~= mid + arg_view);
            assert(mid =~= task.command.spec_words().drop_first());
            assert(args.deep_view() =~= spec_command_and_args(task).1);
        }
        (Some(command), args)
    }
}

} // verus!
