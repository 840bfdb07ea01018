//! Projects: a configured directory of the workspace owning its tasks.
use vstd::prelude::*;

use crate::collections::KeyMap;
use crate::ids::Id;
use crate::platform::{LanguageType, PlatformType, ProjectType};
use crate::target::Target;
use crate::task::Task;
use crate::task_config::TaskConfig;

verus! {

/// A declared dependency on another project.
pub struct DepConfig {
    pub id: Id,
}

/// Project-level configuration, as loaded from the project's directory.
pub struct ProjectConfig {
    /// The platform every task defaults to, where set.
    pub platform: Option<PlatformType>,
    pub language: LanguageType,
    pub type_of: ProjectType,
    /// Project-level environment, inherited by every task under it.
    pub env: KeyMap<String>,
    /// Named, reusable lists of path patterns.
    pub file_groups: KeyMap<Vec<String>>,
    /// Identifiers of the projects this one depends on.
    pub depends_on: Vec<Id>,
    pub tags: Vec<Id>,
    /// Tasks declared by the project itself.
    pub tasks: KeyMap<TaskConfig>,
}

/// Task configuration resolved through the inheritance chain.
pub struct InheritedTasksConfig {
    pub file_groups: KeyMap<Vec<String>>,
    pub implicit_deps: Vec<Target>,
    pub implicit_inputs: Vec<String>,
    pub tasks: KeyMap<TaskConfig>,
}

impl InheritedTasksConfig {
    /// A configuration with nothing inherited.
    pub fn new() -> (r: Self)
        ensures
            r.file_groups.wf(),
            r.file_groups.keys().len() == 0,
            r.implicit_deps@.len() == 0,
            r.implicit_inputs@.len() == 0,
            r.tasks.wf(),
            r.tasks.keys().len() == 0,
    {
        InheritedTasksConfig {
            file_groups: KeyMap::new(),
            implicit_deps: Vec::new(),
            implicit_inputs: Vec::new(),
            tasks: KeyMap::new(),
        }
    }
}

/// A project of the workspace.
pub struct Project {
    pub id: Id,
    /// An alias a platform gave the project, where one exists.
    pub alias: Option<String>,
    /// The project directory, workspace-relative.
    pub source: String,
    pub language: LanguageType,
    pub type_of: ProjectType,
    pub config: ProjectConfig,
    pub inherited_config: InheritedTasksConfig,
    /// Dependencies keyed by project identifier.
    pub dependencies: KeyMap<DepConfig>,
    /// Named path pattern groups, project entries over inherited ones.
    pub file_groups: KeyMap<Vec<String>>,
    /// Expanded tasks keyed by task identifier.
    pub tasks: KeyMap<Task>,
    pub tags: Vec<Id>,
}

/// A configuration's structural well-formedness: its keyed maps hold each
/// key once and every task's environment is well formed.
pub open spec fn project_config_wf(c: &ProjectConfig) -> bool {
    &&& c.env.wf()
    &&& c.file_groups.wf()
    &&& c.tasks.wf()
    &&& forall|i: int|
        0 <= i < c.tasks.vals().len() ==> (#[trigger] c.tasks.vals()[i]).env.wf()
}

/// A project's structural well-formedness: its keyed maps hold each key
/// once.
pub open spec fn project_wf(p: &Project) -> bool {
    &&& p.config.env.wf()
    &&& p.config.file_groups.wf()
    &&& p.config.tasks.wf()
    &&& p.inherited_config.file_groups.wf()
    &&& p.inherited_config.tasks.wf()
    &&& p.dependencies.wf()
    &&& p.file_groups.wf()
    &&& p.tasks.wf()
    &&& forall|i: int|
        0 <= i < p.tasks.vals().len() ==> (#[trigger] p.tasks.vals()[i]).env.wf()
}

} // verus!
