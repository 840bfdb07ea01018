//! The project graph and its builder: projects load lazily and depth
//! first, a back-edge met during a load is skipped rather than fatal, and
//! the finished graph is held to the workspace's constraints.
use vstd::prelude::*;

use vstd::seq_lib::seq_to_set_is_finite;

use crate::builder::{expand_project, tasks_unexpanded, GraphError};
use crate::collections::{clone_string_vec, KeyMap, StrSet};
use crate::ids::{str_eq, Id};
use crate::inherited::{manager_wf, InheritedTasksManager};
use crate::platform::{PlatformType, ProjectType};
use crate::project::{project_config_wf, project_wf, DepConfig, Project, ProjectConfig};
use crate::target::{spec_format, Target, TargetScope};
use crate::task::Task;

verus! {

/// The finished graph: projects as nodes, an edge from each project to
/// each of its dependencies, and the maps that located them.
pub struct ProjectGraph {
    pub nodes: Vec<Project>,
    pub edges: Vec<(usize, usize)>,
    pub indices: KeyMap<usize>,
    pub sources: KeyMap<String>,
    pub aliases: KeyMap<String>,
}

/// The graph's structural well-formedness.
pub open spec fn graph_wf(g: &ProjectGraph) -> bool {
    &&& g.indices.wf()
    &&& g.sources.wf()
    &&& g.aliases.wf()
    &&& forall|k: Seq<char>|
        #[trigger] g.indices.spec_contains(k) ==> g.indices.spec_get(k) < g.nodes@.len()
    &&& forall|e: int|
        0 <= e < g.edges@.len() ==> (#[trigger] g.edges@[e]).0 < g.nodes@.len() && g.edges@[e].1
            < g.nodes@.len()
    &&& forall|i: int| 0 <= i < g.nodes@.len() ==> project_wf(&#[trigger] g.nodes@[i])
}

/// The builder's working state, with the workspace data handed to it.
pub struct ProjectGraphBuilder {
    /// The workspace root, an absolute path.
    pub workspace_root: String,
    /// Each project's configuration, as loaded from its directory.
    pub project_configs: KeyMap<ProjectConfig>,
    /// Dependencies a platform inferred for each project; explicit ones win.
    pub platform_deps: KeyMap<Vec<Id>>,
    pub tasks_manager: InheritedTasksManager,
    pub enforce_project_type_relationships: bool,
    /// Each source tag's required tags on every dependency.
    pub tag_relationships: KeyMap<Vec<String>>,
    /// The process environment, read once by the caller.
    pub process_env: KeyMap<String>,
    pub aliases: KeyMap<String>,
    pub sources: KeyMap<String>,
    pub nodes: Vec<Project>,
    pub edges: Vec<(usize, usize)>,
    pub indices: KeyMap<usize>,
    /// The identifiers on the current recursion chain, for cycle breaking.
    pub created: StrSet,
}

/// The builder's structural well-formedness.
pub open spec fn builder_wf(b: &ProjectGraphBuilder) -> bool {
    &&& b.project_configs.wf()
    &&& forall|i: int|
        0 <= i < b.project_configs.vals().len() ==> project_config_wf(
            &#[trigger] b.project_configs.vals()[i],
        )
    &&& b.platform_deps.wf()
    &&& manager_wf(&b.tasks_manager)
    &&& b.tag_relationships.wf()
    &&& b.process_env.wf()
    &&& b.aliases.wf()
    &&& b.sources.wf()
    &&& b.indices.wf()
    &&& b.created.wf()
    &&& forall|k: Seq<char>|
        #[trigger] b.indices.spec_contains(k) ==> b.indices.spec_get(k) < b.nodes@.len()
            && b.nodes@[b.indices.spec_get(k) as int].id@ == k
    &&& forall|e: int|
        0 <= e < b.edges@.len() ==> (#[trigger] b.edges@[e]).0 < b.nodes@.len() && b.edges@[e].1
            < b.nodes@.len()
    &&& forall|i: int| 0 <= i < b.nodes@.len() ==> project_wf(&#[trigger] b.nodes@[i])
}

/// The canonical identifier an alias or identifier denotes.
pub open spec fn spec_resolved(aliases: &KeyMap<String>, s: Seq<char>) -> Seq<char> {
    if aliases.spec_contains(s) {
        aliases.spec_get(s)@
    } else {
        s
    }
}

/// How many configured identifiers the current chain has not yet touched.
pub open spec fn spec_remaining(b: &ProjectGraphBuilder) -> nat {
    b.sources.keys().to_set().difference(b.created.as_set()).len()
}

impl ProjectGraphBuilder {
    /// A builder over the handed workspace data, with an empty graph.
    pub fn new(
        workspace_root: String,
        sources: KeyMap<String>,
        aliases: KeyMap<String>,
        project_configs: KeyMap<ProjectConfig>,
        platform_deps: KeyMap<Vec<Id>>,
        tasks_manager: InheritedTasksManager,
        enforce_project_type_relationships: bool,
        tag_relationships: KeyMap<Vec<String>>,
        process_env: KeyMap<String>,
    ) -> (r: ProjectGraphBuilder)
        requires
            sources.wf(),
            aliases.wf(),
            project_configs.wf(),
            forall|i: int|
                0 <= i < project_configs.vals().len() ==> project_config_wf(
                    &#[trigger] project_configs.vals()[i],
                ),
            platform_deps.wf(),
            manager_wf(&tasks_manager),
            tag_relationships.wf(),
            process_env.wf(),
        ensures
            builder_wf(&r),
            r.sources == sources,
            r.aliases == aliases,
            r.nodes@.len() == 0,
            r.edges@.len() == 0,
            r.indices.keys().len() == 0,
    {
        ProjectGraphBuilder {
            workspace_root,
            project_configs,
            platform_deps,
            tasks_manager,
            enforce_project_type_relationships,
            tag_relationships,
            process_env,
            aliases,
            sources,
            nodes: Vec::new(),
            edges: Vec::new(),
            indices: KeyMap::new(),
            created: StrSet::new(),
        }
    }

    /// The canonical identifier an alias or identifier names.
    pub fn resolve_id(&self, alias_or_id: &str) -> (r: String)
        requires
            builder_wf(self),
        ensures
            r@ == spec_resolved(&self.aliases, alias_or_id@),
    {
        match self.aliases.get(alias_or_id) {
            Some(id) => id.clone(),
            None => alias_or_id.to_owned(),
        }
    }

    /// Load one project and everything it depends on, resolving an alias
    /// first. An unconfigured identifier fails with the graph untouched;
    /// a successful load leaves the identifier indexed at a node that
    /// carries it. The recursion chain is reset afterwards.
    pub fn load(&mut self, alias_or_id: &str) -> (r: Result<usize, GraphError>)
        requires
            builder_wf(old(self)),
        ensures
            builder_wf(final(self)),
            final(self).sources == old(self).sources,
            final(self).aliases == old(self).aliases,
            final(self).nodes@.len() >= old(self).nodes@.len(),
            forall|j: int|
                0 <= j < old(self).nodes@.len() ==> #[trigger] final(self).nodes@[j] == old(self).nodes@[j],
            final(self).edges@.len() >= old(self).edges@.len(),
            forall|e: int|
                0 <= e < old(self).edges@.len() ==> #[trigger] final(self).edges@[e] == old(self).edges@[e],
            forall|k: Seq<char>|
                #[trigger] old(self).indices.spec_contains(k) ==> final(self).indices.spec_contains(k) && final(self).indices.spec_get(k) == old(self).indices.spec_get(k),
            !old(self).sources.spec_contains(spec_resolved(&old(self).aliases, alias_or_id@))
                && !old(self).indices.spec_contains(
                spec_resolved(&old(self).aliases, alias_or_id@),
            ) ==> (r matches Err(GraphError::UnconfiguredId(s)) && s@ == spec_resolved(
                &old(self).aliases,
                alias_or_id@,
            ) && *final(self) == *old(self)),
            r matches Ok(ix) ==> final(self).indices.spec_contains(
                spec_resolved(&old(self).aliases, alias_or_id@),
            ) && final(self).indices.spec_get(spec_resolved(&old(self).aliases, alias_or_id@))
                == ix && ix < final(self).nodes@.len() && final(self).nodes@[ix as int].id@
                == spec_resolved(&old(self).aliases, alias_or_id@),
    {
        let id = self.resolve_id(alias_or_id);
        if let Some(ix) = self.indices.get(id.as_str()) {
            return Ok(*ix);
        }
        if !self.sources.contains_key(id.as_str()) {
            return Err(GraphError::UnconfiguredId(id));
        }
        self.created.insert(id.as_str());
        let r = self.internal_load(&id);
        self.created.remove(id.as_str());
        r
    }

    /// Load every configured project: on success every configured
    /// identifier is indexed, under its canonical name.
    pub fn load_all(&mut self) -> (r: Result<(), GraphError>)
        requires
            builder_wf(old(self)),
        ensures
            builder_wf(final(self)),
            final(self).sources == old(self).sources,
            final(self).aliases == old(self).aliases,
            r is Ok ==> forall|l: int|
                0 <= l < old(self).sources.keys().len() ==> final(self).indices.spec_contains(
                    spec_resolved(&old(self).aliases, #[trigger] old(self).sources.keys()[l]),
                ),
    {
        let mut i: usize = 0;
        while i < self.sources.len()
            invariant
                builder_wf(self),
                self.sources == old(self).sources,
                self.aliases == old(self).aliases,
                0 <= i <= self.sources.keys().len(),
                forall|l: int|
                    0 <= l < i ==> self.indices.spec_contains(
                        spec_resolved(&self.aliases, #[trigger] self.sources.keys()[l]),
                    ),
            decreases self.sources.keys().len() - i,
        {
            let id = self.sources.key_at(i).clone();
            let ghost pre = *self;
            match self.load(id.as_str()) {
                Ok(_) => {},
                Err(e) => {
                    return Err(e);
                },
            }
            proof {
                assert forall|l: int| 0 <= l < i + 1 implies self.indices.spec_contains(
                    spec_resolved(&self.aliases, #[trigger] self.sources.keys()[l]),
                ) by {
                    if l < i {
                        assert(pre.indices.spec_contains(
                            spec_resolved(&pre.aliases, pre.sources.keys()[l]),
                        ));
                    }
                };
            }
            i += 1;
        }
        Ok(())
    }

    /// Load one project whose identifier is canonical, already marked on
    /// the recursion chain and configured. A declared dependency already
    /// on the chain closes a cycle: the edge is skipped and the load goes
    /// on; any other dependency loads first, depth first.
    fn internal_load(&mut self, id: &String) -> (r: Result<usize, GraphError>)
        requires
            builder_wf(old(self)),
            old(self).sources.spec_contains(id@),
            old(self).created.spec_contains(id@),
        ensures
            builder_wf(final(self)),
            final(self).sources == old(self).sources,
            final(self).aliases == old(self).aliases,
            final(self).created.as_set() == old(self).created.as_set(),
            final(self).nodes@.len() >= old(self).nodes@.len(),
            forall|j: int|
                0 <= j < old(self).nodes@.len() ==> #[trigger] final(self).nodes@[j] == old(self).nodes@[j],
            final(self).edges@.len() >= old(self).edges@.len(),
            forall|e: int|
                0 <= e < old(self).edges@.len() ==> #[trigger] final(self).edges@[e] == old(self).edges@[e],
            forall|k: Seq<char>|
                #[trigger] old(self).indices.spec_contains(k) ==> final(self).indices.spec_contains(k) && final(self).indices.spec_get(k) == old(self).indices.spec_get(k),
            forall|e: int|
                old(self).edges@.len() <= e < final(self).edges@.len() ==> (
                #[trigger] final(self).edges@[e]).0 >= old(self).nodes@.len() && !old(self).created.spec_contains(
                    final(self).nodes@[final(self).edges@[e].1 as int].id@,
                ),
            r matches Ok(ix) ==> final(self).indices.spec_contains(id@) && final(self).indices.spec_get(id@) == ix && final(self).nodes@[ix as int].id@ == id@,
            old(self).indices.spec_contains(id@) ==> *final(self) == *old(self) && (r matches Ok(
                ix,
            ) && ix == old(self).indices.spec_get(id@)),
            forall|k: Seq<char>|
                !old(self).indices.spec_contains(k) && #[trigger] final(self).indices.spec_contains(
                    k,
                ) && k != id@ ==> !old(self).created.spec_contains(k),
        decreases spec_remaining(old(self)),
    {
        if let Some(ix) = self.indices.get(id.as_str()) {
            return Ok(*ix);
        }
        let source = match self.sources.get(id.as_str()) {
            Some(s) => s.clone(),
            None => {
                return Err(GraphError::UnconfiguredId(id.clone()));
            },
        };
        let project = match self.create_project(id.as_str(), &source) {
            Ok(p) => p,
            Err(e) => {
                return Err(e);
            },
        };
        let mut project = project;
        // load the declared dependencies first, skipping back-edges
        let mut dep_indices: Vec<usize> = Vec::new();
        let nd = project.dependencies.len();
        let mut d: usize = 0;
        while d < nd
            invariant
                builder_wf(self),
                project_wf(&project),
                tasks_unexpanded(&project.tasks),
                nd == project.dependencies.keys().len(),
                0 <= d <= nd,
                self.sources == old(self).sources,
                self.aliases == old(self).aliases,
                self.created.as_set() == old(self).created.as_set(),
                self.sources.spec_contains(id@),
                self.created.spec_contains(id@),
                forall|l: int| 0 <= l < dep_indices@.len() ==> (#[trigger] dep_indices@[l] as int)
                    < self.nodes@.len(),
                self.nodes@.len() >= old(self).nodes@.len(),
                !old(self).indices.spec_contains(id@),
                forall|j: int|
                    0 <= j < old(self).nodes@.len() ==> #[trigger] self.nodes@[j] == old(self).nodes@[j],
                self.edges@.len() >= old(self).edges@.len(),
                forall|e: int|
                    0 <= e < old(self).edges@.len() ==> #[trigger] self.edges@[e] == old(self).edges@[e],
                forall|k: Seq<char>|
                    #[trigger] old(self).indices.spec_contains(k) ==> self.indices.spec_contains(
                        k,
                    ) && self.indices.spec_get(k) == old(self).indices.spec_get(k),
                forall|e: int|
                    old(self).edges@.len() <= e < self.edges@.len() ==> (
                    #[trigger] self.edges@[e]).0 >= old(self).nodes@.len() && !old(self).created.spec_contains(self.nodes@[self.edges@[e].1 as int].id@),
                forall|l: int|
                    0 <= l < dep_indices@.len() ==> !old(self).created.spec_contains(
                        #[trigger] self.nodes@[dep_indices@[l] as int].id@,
                    ),
                forall|k: Seq<char>|
                    !old(self).indices.spec_contains(k)
                        && #[trigger] self.indices.spec_contains(k) ==> !old(self).created.spec_contains(k),
            decreases nd - d,
        {
            let dep_key = project.dependencies.key_at(d).clone();
            let dep_id = self.resolve_id(dep_key.as_str());
            if self.created.contains(dep_id.as_str()) {
                // a cycle: leave this edge out and continue
            } else if !self.sources.contains_key(dep_id.as_str()) {
                // the declared dependency has no configured source
                return Err(GraphError::UnconfiguredId(dep_id));
            } else {
                let ghost cset = self.created.as_set();
                proof {
                    assert(cset.contains(id@));
                }
                self.created.insert(dep_id.as_str());
                proof {
                    crate::collections::lemma_strset_as_set(&self.created);
                    assert(self.created.as_set() == cset.insert(dep_id@));
                    assert(old(self).sources.keys().to_set().contains(dep_id@)) by {
                        let j = choose|j: int|
                            0 <= j < old(self).sources.keys().len() && old(self).sources.keys()[j] == dep_id@;
                        assert(old(self).sources.keys().contains(dep_id@));
                    };
                    lemma_remaining_shrinks(old(self).sources.keys(), cset, dep_id@);
                }
                let ghost mid = *self;
                let loaded = self.internal_load(&dep_id);
                self.created.remove(dep_id.as_str());
                proof {
                    assert(self.created.as_set() =~= cset);
                    assert(cset.contains(id@));
                    assert(self.created.spec_contains(id@));
                    // edges the nested load added start at nodes it created,
                    // and never point back onto the recursion chain
                    assert forall|e: int|
                        old(self).edges@.len() <= e < self.edges@.len() implies (
                    #[trigger] self.edges@[e]).0 >= old(self).nodes@.len() && !old(self).created.spec_contains(self.nodes@[self.edges@[e].1 as int].id@) by {
                        if e < mid.edges@.len() {
                            assert(self.edges@[e] == mid.edges@[e]);
                            assert(mid.edges@[e].1 < mid.nodes@.len());
                            assert(self.nodes@[mid.edges@[e].1 as int] == mid.nodes@[mid.edges@[e].1 as int]);
                        } else {
                            assert(self.edges@[e].0 >= mid.nodes@.len());
                            assert(!mid.created.spec_contains(
                                self.nodes@[self.edges@[e].1 as int].id@,
                            ));
                            assert(mid.created.as_set() == cset.insert(dep_id@));
                            assert(!cset.contains(self.nodes@[self.edges@[e].1 as int].id@));
                        }
                    };
                    assert forall|k: Seq<char>|
                        !old(self).indices.spec_contains(k) && #[trigger] self.indices.spec_contains(
                            k,
                        ) implies !old(self).created.spec_contains(k) by {
                        if mid.indices.spec_contains(k) {
                        } else {
                            if k == dep_id@ {
                                assert(!cset.contains(dep_id@));
                            } else {
                                assert(!mid.created.spec_contains(k));
                                assert(mid.created.as_set() == cset.insert(dep_id@));
                                assert(!cset.contains(k));
                            }
                        }
                    };
                    assert(!self.indices.spec_contains(id@)) by {
                        if self.indices.spec_contains(id@) {
                            assert(!old(self).created.spec_contains(id@));
                        }
                    };
                }
                match loaded {
                    Ok(ix) => {
                        dep_indices.push(ix);
                        proof {
                            assert(forall|l: int|
                                0 <= l < dep_indices@.len() ==> (#[trigger] dep_indices@[l] as int)
                                    < self.nodes@.len());
                            assert(self.nodes@[ix as int].id@ == dep_id@);
                            assert(!cset.contains(dep_id@));
                            assert forall|l: int|
                                0 <= l < dep_indices@.len() implies !old(
                            self).created.spec_contains(
                                #[trigger] self.nodes@[dep_indices@[l] as int].id@,
                            ) by {
                                if l < dep_indices@.len() - 1 {
                                    assert(dep_indices@[l] < mid.nodes@.len());
                                    assert(self.nodes@[dep_indices@[l] as int]
                                        == mid.nodes@[dep_indices@[l] as int]);
                                }
                            };
                        }
                    },
                    Err(e) => {
                        return Err(e);
                    },
                }
            }
            d += 1;
        }
        // expand the project's tasks now that its dependencies exist
        let nodes_snapshot = &self.nodes;
        match expand_project(
            &mut project,
            nodes_snapshot,
            &self.indices,
            &self.workspace_root,
            &self.process_env,
        ) {
            Ok(_) => {},
            Err(e) => {
                return Err(e);
            },
        }
        let index = self.nodes.len();
        let ghost pre_insert = *self;
        self.nodes.push(project);
        self.indices.insert(id.as_str(), index);
        proof {
            assert(builder_wf(self)) by {
                assert forall|k: Seq<char>| #[trigger]
                    self.indices.spec_contains(k) implies self.indices.spec_get(k)
                    < self.nodes@.len() && self.nodes@[self.indices.spec_get(k) as int].id@
                    == k by {
                    if k != id@ {
                        assert(pre_insert.indices.spec_contains(k));
                        assert(self.nodes@[pre_insert.indices.spec_get(k) as int]
                            == pre_insert.nodes@[pre_insert.indices.spec_get(k) as int]);
                    } else {
                        assert(self.nodes@[index as int].id@ == id@);
                    }
                };
            };
        }
        let ne = dep_indices.len();
        let mut l: usize = 0;
        while l < ne
            invariant
                builder_wf(self),
                ne == dep_indices@.len(),
                0 <= l <= ne,
                index < self.nodes@.len(),
                index >= old(self).nodes@.len(),
                forall|j: int| 0 <= j < ne ==> (#[trigger] dep_indices@[j] as int) < index,
                self.sources == old(self).sources,
                self.aliases == old(self).aliases,
                self.created.as_set() == old(self).created.as_set(),
                self.nodes@.len() >= old(self).nodes@.len(),
                forall|j: int|
                    0 <= j < old(self).nodes@.len() ==> #[trigger] self.nodes@[j] == old(self).nodes@[j],
                self.edges@.len() >= old(self).edges@.len(),
                forall|e: int|
                    0 <= e < old(self).edges@.len() ==> #[trigger] self.edges@[e] == old(self).edges@[e],
                forall|k: Seq<char>|
                    #[trigger] old(self).indices.spec_contains(k) ==> self.indices.spec_contains(
                        k,
                    ) && self.indices.spec_get(k) == old(self).indices.spec_get(k),
                forall|e: int|
                    old(self).edges@.len() <= e < self.edges@.len() ==> (
                    #[trigger] self.edges@[e]).0 >= old(self).nodes@.len() && !old(self).created.spec_contains(self.nodes@[self.edges@[e].1 as int].id@),
                forall|j: int|
                    0 <= j < ne ==> !old(self).created.spec_contains(
                        #[trigger] self.nodes@[dep_indices@[j] as int].id@,
                    ),
                self.indices.spec_contains(id@),
                self.indices.spec_get(id@) == index,
                self.nodes@[index as int].id@ == id@,
                forall|k: Seq<char>|
                    !old(self).indices.spec_contains(k)
                        && #[trigger] self.indices.spec_contains(k) && k != id@ ==> !old(self).created.spec_contains(k),
            decreases ne - l,
        {
            self.edges.push((index, dep_indices[l]));
            l += 1;
        }
        Ok(index)
    }

    /// Create a project from its configuration: resolve what it inherits,
    /// build its tasks — inherited first, the project's own merged over
    /// them — and gather its dependencies, the platform-inferred ones
    /// never overriding the declared ones.
    fn create_project(&self, id: &str, source: &String) -> (r: Result<Project, GraphError>)
        requires
            builder_wf(self),
        ensures
            r matches Ok(p) ==> project_wf(&p) && tasks_unexpanded(&p.tasks) && p.id@ == id@
                && p.source@ == source@,
    {
        let empty_config = ProjectConfig {
            platform: None,
            language: crate::platform::LanguageType::Unknown,
            type_of: ProjectType::Unknown,
            env: KeyMap::new(),
            file_groups: KeyMap::new(),
            depends_on: Vec::new(),
            tags: Vec::new(),
            tasks: KeyMap::new(),
        };
        let has_config = self.project_configs.contains_key(id);
        let cfg: &ProjectConfig = if has_config {
            match self.project_configs.get(id) {
                Some(c) => c,
                None => &empty_config,
            }
        } else {
            &empty_config
        };
        proof {
            crate::collections::lemma_kv_len(&empty_config.tasks);
            assert(project_config_wf(&empty_config));
            if self.project_configs.spec_contains(id@) {
                let j = self.project_configs.index_of(id@);
                crate::collections::lemma_unique_get(&self.project_configs, id@, j);
                crate::collections::lemma_kv_len(&self.project_configs);
            }
            assert(project_config_wf(cfg));
        }
        let language = cfg.language;
        let platform = match &cfg.platform {
            Some(p) => *p,
            None => language.platform_of(),
        };
        let mut tags: Vec<Id> = Vec::new();
        let mut ti: usize = 0;
        while ti < cfg.tags.len()
            invariant
                0 <= ti <= cfg.tags@.len(),
            decreases cfg.tags@.len() - ti,
        {
            tags.push(cfg.tags[ti].clone());
            ti += 1;
        }
        let inherited = self.tasks_manager.get_inherited_config(
            &platform,
            &language,
            &cfg.type_of,
            &tags,
        );
        // the inherited tasks come first
        let mut own_configs = duplicate_task_config_map(&cfg.tasks);
        let mut tasks: KeyMap<Task> = KeyMap::new();
        proof {
            crate::collections::lemma_kv_len(&tasks);
            crate::collections::lemma_kv_len(&inherited.tasks);
            assert forall|j: int|
                0 <= j < inherited.tasks.vals().len() implies (
            #[trigger] inherited.tasks.vals()[j]).env.wf() by {
                let k = inherited.tasks.keys()[j];
                crate::collections::lemma_unique_get(&inherited.tasks, k, j);
                assert(inherited.tasks.spec_contains(k));
            };
        }
        let ni = inherited.tasks.len();
        let mut i: usize = 0;
        while i < ni
            invariant
                inherited.tasks.wf(),
                forall|j: int|
                    0 <= j < inherited.tasks.vals().len() ==> (
                    #[trigger] inherited.tasks.vals()[j]).env.wf(),
                own_configs.wf(),
                forall|j: int|
                    0 <= j < own_configs.vals().len() ==> (
                    #[trigger] own_configs.vals()[j]).env.wf(),
                tasks.wf(),
                tasks_unexpanded(&tasks),
                forall|j: int|
                    0 <= j < tasks.vals().len() ==> (#[trigger] tasks.vals()[j]).env.wf(),
                ni == inherited.tasks.keys().len(),
                0 <= i <= ni,
            decreases ni - i,
        {
            let tid = inherited.tasks.key_at(i).clone();
            proof {
                crate::collections::lemma_kv_len(&inherited.tasks);
                crate::collections::lemma_unique_get(
                    &inherited.tasks,
                    inherited.tasks.keys()[i as int],
                    i as int,
                );
            }
            let tc = inherited.tasks.val_at(i);
            proof {
                assert(tc.env.wf());
            }
            let target = Target::new(&Id::raw(id), &Id::raw(tid.as_str()));
            let mut task = match Task::from_config(target, tc) {
                Ok(t) => t,
                Err(e) => {
                    return Err(GraphError::Task(e));
                },
            };
            // the project's own entry for the same identifier merges over it
            let ghost oc0 = own_configs;
            match own_configs.take_key(tid.as_str()) {
                Some(own) => {
                    proof {
                        crate::collections::lemma_kv_len(&oc0);
                        let ix = oc0.index_of(tid@);
                        assert(oc0.keys()[ix] == tid@);
                        crate::collections::lemma_unique_get(&oc0, tid@, ix);
                        assert(own.env.wf());
                        lemma_env_wf_after_removal(&oc0, &own_configs, tid@);
                    }
                    match task.merge(&own) {
                        Ok(_) => {},
                        Err(e) => {
                            return Err(GraphError::Task(e));
                        },
                    }
                },
                None => {},
            }
            insert_unexpanded(&mut tasks, tid.as_str(), task);
            i += 1;
        }
        // tasks the project declares that nothing was inherited for
        loop
            invariant
                own_configs.wf(),
                forall|j: int|
                    0 <= j < own_configs.vals().len() ==> (
                    #[trigger] own_configs.vals()[j]).env.wf(),
                tasks.wf(),
                tasks_unexpanded(&tasks),
                forall|j: int|
                    0 <= j < tasks.vals().len() ==> (#[trigger] tasks.vals()[j]).env.wf(),
            decreases own_configs.keys().len(),
        {
            let ghost own0 = own_configs;
            match own_configs.pop_front() {
                Some(entry) => {
                    let (tid, tc) = entry;
                    proof {
                        crate::collections::lemma_kv_len(&own0);
                        crate::collections::lemma_kv_len(&own_configs);
                        assert(tc == own0.vals()[0]);
                        assert(tc.env.wf());
                    }
                    let target = Target::new(&Id::raw(id), &Id::raw(tid.as_str()));
                    match Task::from_config(target, &tc) {
                        Ok(task) => {
                            insert_unexpanded(&mut tasks, tid.as_str(), task);
                        },
                        Err(e) => {
                            return Err(GraphError::Task(e));
                        },
                    }
                    proof {
                        assert forall|j: int|
                            0 <= j < own_configs.vals().len() implies (
                        #[trigger] own_configs.vals()[j]).env.wf() by {
                            assert(own_configs.vals()[j] == own0.vals()[j + 1]);
                        };
                    }
                },
                None => {
                    break ;
                },
            }
        }
        // declared dependencies, then the platform's, which never override
        let mut dependencies: KeyMap<DepConfig> = KeyMap::new();
        let mut di: usize = 0;
        while di < cfg.depends_on.len()
            invariant
                dependencies.wf(),
                0 <= di <= cfg.depends_on@.len(),
            decreases cfg.depends_on@.len() - di,
        {
            let dep = cfg.depends_on[di].clone();
            dependencies.insert_absent(dep.as_str().to_owned().as_str(), DepConfig { id: dep });
            di += 1;
        }
        match self.platform_deps.get(id) {
            Some(pdeps) => {
                let mut pi: usize = 0;
                while pi < pdeps.len()
                    invariant
                        dependencies.wf(),
                        0 <= pi <= pdeps@.len(),
                    decreases pdeps@.len() - pi,
                {
                    let dep = pdeps[pi].clone();
                    dependencies.insert_absent(
                        dep.as_str().to_owned().as_str(),
                        DepConfig { id: dep },
                    );
                    pi += 1;
                }
            },
            None => {},
        }
        // an alias that names this project
        let mut alias: Option<String> = None;
        let na = self.aliases.len();
        let mut ai: usize = 0;
        while ai < na
            invariant
                self.aliases.wf(),
                na == self.aliases.keys().len(),
                0 <= ai <= na,
            decreases na - ai,
        {
            if str_eq(self.aliases.val_at(ai).as_str(), id) {
                alias = Some(self.aliases.key_at(ai).clone());
            }
            ai += 1;
        }
        // file groups: the project's own entries over the inherited ones
        let mut file_groups = duplicate_string_list_map(&inherited.file_groups);
        let ng = cfg.file_groups.len();
        let mut gi: usize = 0;
        while gi < ng
            invariant
                cfg.file_groups.wf(),
                file_groups.wf(),
                ng == cfg.file_groups.keys().len(),
                0 <= gi <= ng,
            decreases ng - gi,
        {
            file_groups.insert(
                cfg.file_groups.key_at(gi).clone().as_str(),
                clone_string_vec(cfg.file_groups.val_at(gi)),
            );
            gi += 1;
        }
        let project = Project {
            id: Id::raw(id),
            alias,
            source: source.clone(),
            language,
            type_of: cfg.type_of,
            config: duplicate_project_config(cfg),
            inherited_config: inherited,
            dependencies,
            file_groups,
            tasks,
            tags,
        };
        Ok(project)
    }
}

/// Removing one key keeps every remaining task configuration's
/// environment well formed.
proof fn lemma_env_wf_after_removal(
    pre: &KeyMap<crate::task_config::TaskConfig>,
    post: &KeyMap<crate::task_config::TaskConfig>,
    removed: Seq<char>,
)
    requires
        pre.wf(),
        post.wf(),
        forall|j: int| 0 <= j < pre.vals().len() ==> (#[trigger] pre.vals()[j]).env.wf(),
        !post.spec_contains(removed),
        forall|q: Seq<char>|
            q != removed ==> #[trigger] post.spec_contains(q) == pre.spec_contains(q),
        forall|q: Seq<char>|
            q != removed && pre.spec_contains(q) ==> #[trigger] post.spec_get(q) == pre.spec_get(
                q,
            ),
    ensures
        forall|j: int| 0 <= j < post.vals().len() ==> (#[trigger] post.vals()[j]).env.wf(),
{
    crate::collections::lemma_kv_len(pre);
    crate::collections::lemma_kv_len(post);
    assert forall|j: int| 0 <= j < post.vals().len() implies (
    #[trigger] post.vals()[j]).env.wf() by {
        let k = post.keys()[j];
        crate::collections::lemma_unique_get(post, k, j);
        assert(post.spec_contains(k));
        assert(k != removed);
        assert(pre.spec_contains(k));
        let ix = pre.index_of(k);
        assert(pre.keys()[ix] == k);
        crate::collections::lemma_unique_get(pre, k, ix);
        assert(post.spec_get(k) == pre.spec_get(k));
    };
}

/// Insert a task known to be unexpanded, keeping the map's invariants.
fn insert_unexpanded(tasks: &mut KeyMap<Task>, tid: &str, task: Task)
    requires
        old(tasks).wf(),
        tasks_unexpanded(old(tasks)),
        crate::builder::task_unexpanded(&task),
        task.env.wf(),
        forall|j: int|
            0 <= j < old(tasks).vals().len() ==> (#[trigger] old(tasks).vals()[j]).env.wf(),
    ensures
        final(tasks).wf(),
        tasks_unexpanded(final(tasks)),
        forall|j: int|
            0 <= j < final(tasks).vals().len() ==> (#[trigger] final(tasks).vals()[j]).env.wf(),
{
    let ghost pre = *tasks;
    let ghost tsk = task;
    tasks.insert(tid, task);
    proof {
        crate::collections::lemma_kv_len(&pre);
        crate::collections::lemma_kv_len(tasks);
        assert forall|j: int|
            0 <= j < tasks.vals().len() implies crate::builder::task_unexpanded(
            &#[trigger] tasks.vals()[j],
        ) && tasks.vals()[j].env.wf() by {
            if pre.spec_contains(tid@) {
                let ix = pre.index_of(tid@);
                if j == ix {
                    assert(tasks.vals()[j] == tsk);
                } else {
                    assert(tasks.vals()[j] == pre.vals()[j]);
                }
            } else {
                if j == tasks.vals().len() - 1 {
                    assert(tasks.vals()[j] == tsk);
                } else {
                    assert(tasks.vals()[j] == pre.vals()[j]);
                }
            }
        };
    }
}

/// Copy a map of task configurations.
fn duplicate_task_config_map(m: &KeyMap<crate::task_config::TaskConfig>) -> (r: KeyMap<
    crate::task_config::TaskConfig,
>)
    requires
        m.wf(),
        forall|j: int| 0 <= j < m.vals().len() ==> (#[trigger] m.vals()[j]).env.wf(),
    ensures
        r.wf(),
        forall|j: int| 0 <= j < r.vals().len() ==> (#[trigger] r.vals()[j]).env.wf(),
{
    let n = m.len();
    let mut out: KeyMap<crate::task_config::TaskConfig> = KeyMap::new();
    proof {
        crate::collections::lemma_kv_len(&out);
    }
    let mut i: usize = 0;
    while i < n
        invariant
            m.wf(),
            forall|j: int| 0 <= j < m.vals().len() ==> (#[trigger] m.vals()[j]).env.wf(),
            out.wf(),
            forall|j: int| 0 <= j < out.vals().len() ==> (#[trigger] out.vals()[j]).env.wf(),
            n == m.keys().len(),
            0 <= i <= n,
        decreases n - i,
    {
        proof {
            crate::collections::lemma_kv_len(m);
        }
        let ghost pre = out;
        let dup = m.val_at(i).duplicate();
        let ghost dupg = dup;
        out.insert(m.key_at(i).clone().as_str(), dup);
        proof {
            crate::collections::lemma_kv_len(&pre);
            crate::collections::lemma_kv_len(&out);
            assert forall|j: int|
                0 <= j < out.vals().len() implies (#[trigger] out.vals()[j]).env.wf() by {
                let k = out.keys()[j];
                if pre.spec_contains(m.keys()[i as int]) {
                    let ix = pre.index_of(m.keys()[i as int]);
                    if j == ix {
                        assert(out.vals()[j] == dupg);
                    } else {
                        assert(out.vals()[j] == pre.vals()[j]);
                    }
                } else {
                    if j == out.vals().len() - 1 {
                        assert(out.vals()[j] == dupg);
                    } else {
                        assert(out.vals()[j] == pre.vals()[j]);
                    }
                }
            };
        }
        i += 1;
    }
    out
}

/// Copy a map of path pattern lists.
fn duplicate_string_list_map(m: &KeyMap<Vec<String>>) -> (r: KeyMap<Vec<String>>)
    requires
        m.wf(),
    ensures
        r.wf(),
{
    let n = m.len();
    let mut out: KeyMap<Vec<String>> = KeyMap::new();
    let mut i: usize = 0;
    while i < n
        invariant
            m.wf(),
            out.wf(),
            n == m.keys().len(),
            0 <= i <= n,
        decreases n - i,
    {
        out.insert(m.key_at(i).clone().as_str(), clone_string_vec(m.val_at(i)));
        i += 1;
    }
    out
}

/// Copy a project configuration.
fn duplicate_project_config(c: &ProjectConfig) -> (r: ProjectConfig)
    requires
        project_config_wf(c),
    ensures
        project_config_wf(&r),
{
    let mut tags: Vec<Id> = Vec::new();
    let mut ti: usize = 0;
    while ti < c.tags.len()
        invariant
            0 <= ti <= c.tags@.len(),
        decreases c.tags@.len() - ti,
    {
        tags.push(c.tags[ti].clone());
        ti += 1;
    }
    let mut depends_on: Vec<Id> = Vec::new();
    let mut di: usize = 0;
    while di < c.depends_on.len()
        invariant
            0 <= di <= c.depends_on@.len(),
        decreases c.depends_on@.len() - di,
    {
        depends_on.push(c.depends_on[di].clone());
        di += 1;
    }
    ProjectConfig {
        platform: c.platform,
        language: c.language,
        type_of: c.type_of,
        env: c.env.duplicate(),
        file_groups: duplicate_string_list_map(&c.file_groups),
        depends_on,
        tags,
        tasks: duplicate_task_config_map(&c.tasks),
    }
}

/// Marking one untouched configured identifier shrinks what is left.
proof fn lemma_remaining_shrinks(source_keys: Seq<Seq<char>>, created: Set<Seq<char>>, x: Seq<char>)
    requires
        source_keys.to_set().contains(x),
        !created.contains(x),
    ensures
        source_keys.to_set().difference(created.insert(x)).len() < source_keys.to_set().difference(
            created,
        ).len(),
{
    broadcast use seq_to_set_is_finite;
    broadcast use vstd::set::group_set_axioms;

    let s = source_keys.to_set();
    assert(s.difference(created.insert(x)) =~= s.difference(created).remove(x));
    assert(s.difference(created).finite()) by {
        vstd::set_lib::lemma_len_subset(s.difference(created), s);
    };
    assert(s.difference(created).contains(x));
}


/// A dependency may be anything but an application: an application must
/// not be depended upon.
pub open spec fn spec_type_ok(dep: ProjectType) -> bool {
    dep != ProjectType::Application
}

/// A list of tags holds one with the given characters.
pub open spec fn spec_tags_contain(tags: Seq<Id>, t: Seq<char>) -> bool {
    exists|i: int| 0 <= i < tags.len() && (#[trigger] tags[i])@ == t
}

/// Two tag lists share a member.
pub open spec fn spec_tags_intersect(tags: Seq<Id>, required: Seq<Seq<char>>) -> bool {
    exists|j: int| 0 <= j < required.len() && spec_tags_contain(tags, #[trigger] required[j])
}

/// Whether a tag list holds a tag.
pub fn tags_contain(tags: &Vec<Id>, t: &str) -> (r: bool)
    ensures
        r == spec_tags_contain(tags@, t@),
{
    let n = tags.len();
    let mut i: usize = 0;
    while i < n
        invariant
            n == tags@.len(),
            0 <= i <= n,
            forall|j: int| 0 <= j < i ==> (#[trigger] tags@[j])@ != t@,
        decreases n - i,
    {
        if tags[i].is_str(t) {
            return true;
        }
        i += 1;
    }
    false
}

/// Whether a tag list shares a member with a required list.
pub fn tags_intersect(tags: &Vec<Id>, required: &Vec<String>) -> (r: bool)
    ensures
        r == spec_tags_intersect(tags@, required.deep_view()),
{
    let n = required.len();
    let mut j: usize = 0;
    while j < n
        invariant
            n == required@.len(),
            0 <= j <= n,
            forall|l: int|
                0 <= l < j ==> !spec_tags_contain(tags@, #[trigger] required.deep_view()[l]),
        decreases n - j,
    {
        if tags_contain(tags, required[j].as_str()) {
            proof {
                assert(spec_tags_contain(tags@, required.deep_view()[j as int]));
            }
            return true;
        }
        j += 1;
    }
    false
}

/// Every rule of the tag relationships holds across one edge.
pub open spec fn spec_edge_tags_ok(b: &ProjectGraphBuilder, src: &Project, dep: &Project) -> bool {
    forall|r: int|
        0 <= r < b.tag_relationships.keys().len() ==> (spec_tags_contain(
            src.tags@,
            #[trigger] b.tag_relationships.keys()[r],
        ) ==> spec_tags_intersect(dep.tags@, b.tag_relationships.vals()[r].deep_view()))
}

/// One edge of the graph passes the type and tag rules.
pub open spec fn spec_edge_ok(b: &ProjectGraphBuilder, e: int) -> bool {
    let src = b.nodes@[b.edges@[e].0 as int];
    let dep = b.nodes@[b.edges@[e].1 as int];
    &&& (b.enforce_project_type_relationships ==> spec_type_ok(dep.type_of))
    &&& spec_edge_tags_ok(b, &src, &dep)
}

/// One task dependency passes the persistence rule: a non-persistent task
/// must not depend on a persistent one. Only a dependency on a named
/// project that the graph holds is checked.
pub open spec fn spec_dep_persistent_ok(b: &ProjectGraphBuilder, pi: int, ti: int, di: int) -> bool {
    let p = b.nodes@[pi];
    let t = p.tasks.vals()[ti];
    let dep = t.deps@[di];
    match dep.scope@ {
        crate::target::ScopeView::Project(pid) => {
            let dep_tasks = if pid == p.id@ {
                p.tasks
            } else if b.indices.spec_contains(pid) {
                b.nodes@[b.indices.spec_get(pid) as int].tasks
            } else {
                p.tasks
            };
            if pid != p.id@ && !b.indices.spec_contains(pid) {
                true
            } else if dep_tasks.spec_contains(dep.task_id@) {
                !(!t.options.persistent && dep_tasks.spec_get(dep.task_id@).options.persistent)
            } else {
                true
            }
        },
        _ => true,
    }
}

/// The target of the task one dependency names, where the graph resolves
/// it; meaningful under the conditions of the persistence rule.
pub open spec fn spec_dep_task_target(b: &ProjectGraphBuilder, pi: int, ti: int, di: int) -> crate::target::TargetView {
    let p = b.nodes@[pi];
    let t = p.tasks.vals()[ti];
    let dep = t.deps@[di];
    match dep.scope@ {
        crate::target::ScopeView::Project(pid) => {
            let dep_tasks = if pid == p.id@ {
                p.tasks
            } else {
                b.nodes@[b.indices.spec_get(pid) as int].tasks
            };
            dep_tasks.spec_get(dep.task_id@).target@
        },
        _ => dep@,
    }
}

/// Every edge and every task dependency passes the workspace constraints.
pub open spec fn spec_constraints_ok(b: &ProjectGraphBuilder) -> bool {
    &&& (forall|e: int| 0 <= e < b.edges@.len() ==> spec_edge_ok(b, e))
    &&& (forall|pi: int, ti: int, di: int|
        0 <= pi < b.nodes@.len() && 0 <= ti < b.nodes@[pi].tasks.vals().len() && 0 <= di
            < b.nodes@[pi].tasks.vals()[ti].deps@.len() ==> spec_dep_persistent_ok(b, pi, ti, di))
}

impl ProjectGraphBuilder {
    /// Hold the finished graph to the workspace's constraints: no edge may
    /// lead into an application or break a tag rule, and no task may
    /// depend on a persistent task unless it is persistent itself.
    pub fn enforce_constraints(&self) -> (r: Result<(), GraphError>)
        requires
            builder_wf(self),
        ensures
            r is Ok <==> spec_constraints_ok(self),
            r matches Err(GraphError::TypeRelationshipViolation(s, d)) ==> exists|e: int|
                0 <= e < self.edges@.len() && !spec_edge_ok(self, e) && s@
                    == self.nodes@[(#[trigger] self.edges@[e]).0 as int].id@ && d@
                    == self.nodes@[self.edges@[e].1 as int].id@,
            r matches Err(GraphError::TagRelationshipViolation(s, d)) ==> exists|e: int|
                0 <= e < self.edges@.len() && !spec_edge_ok(self, e) && s@
                    == self.nodes@[(#[trigger] self.edges@[e]).0 as int].id@ && d@
                    == self.nodes@[self.edges@[e].1 as int].id@,
            r matches Err(GraphError::PersistentDepRequirement(t, d)) ==> exists|pi: int, ti: int, di: int|
                0 <= pi < self.nodes@.len() && 0 <= ti < self.nodes@[pi].tasks.vals().len() && 0
                    <= di < self.nodes@[pi].tasks.vals()[ti].deps@.len()
                    && !(#[trigger] spec_dep_persistent_ok(self, pi, ti, di)) && t@ == spec_format(
                    self.nodes@[pi].tasks.vals()[ti].target@,
                ) && d@ == spec_format(spec_dep_task_target(self, pi, ti, di)),
            r is Err ==> (r matches Err(GraphError::TypeRelationshipViolation(_, _)) || r matches Err(
                GraphError::TagRelationshipViolation(_, _),
            ) || r matches Err(GraphError::PersistentDepRequirement(_, _))),
    {
        let ne = self.edges.len();
        let mut e: usize = 0;
        while e < ne
            invariant
                builder_wf(self),
                ne == self.edges@.len(),
                0 <= e <= ne,
                forall|l: int| 0 <= l < e ==> spec_edge_ok(self, l),
            decreases ne - e,
        {
            let (si, di) = (self.edges[e].0, self.edges[e].1);
            let src = &self.nodes[si];
            let dep = &self.nodes[di];
            if self.enforce_project_type_relationships {
                if matches!(dep.type_of, ProjectType::Application) {
                    proof {
                        assert(!spec_edge_ok(self, e as int));
                    }
                    return Err(
                        GraphError::TypeRelationshipViolation(
                            src.id.as_str().to_owned(),
                            dep.id.as_str().to_owned(),
                        ),
                    );
                }
            }
            let nr = self.tag_relationships.len();
            proof {
                crate::collections::lemma_kv_len(&self.tag_relationships);
            }
            let mut r: usize = 0;
            while r < nr
                invariant
                    builder_wf(self),
                    ne == self.edges@.len(),
                    e < ne,
                    si == self.edges@[e as int].0,
                    di == self.edges@[e as int].1,
                    si < self.nodes@.len(),
                    di < self.nodes@.len(),
                    nr == self.tag_relationships.keys().len(),
                    0 <= r <= nr,
                    forall|l: int|
                        0 <= l < r ==> (spec_tags_contain(
                            self.nodes@[si as int].tags@,
                            #[trigger] self.tag_relationships.keys()[l],
                        ) ==> spec_tags_intersect(
                            self.nodes@[di as int].tags@,
                            self.tag_relationships.vals()[l].deep_view(),
                        )),
                decreases nr - r,
            {
                proof {
                    crate::collections::lemma_kv_len(&self.tag_relationships);
                }
                let source_tag = self.tag_relationships.key_at(r);
                let required = self.tag_relationships.val_at(r);
                let src_has = tags_contain(&self.nodes[si].tags, source_tag.as_str());
                if src_has {
                    if !tags_intersect(&self.nodes[di].tags, required) {
                        proof {
                            assert(!spec_edge_tags_ok(
                                self,
                                &self.nodes@[si as int],
                                &self.nodes@[di as int],
                            ));
                            assert(!spec_edge_ok(self, e as int));
                        }
                        return Err(
                            GraphError::TagRelationshipViolation(
                                self.nodes[si].id.as_str().to_owned(),
                                self.nodes[di].id.as_str().to_owned(),
                            ),
                        );
                    }
                }
                r += 1;
                proof {
                    assert forall|l: int|
                        0 <= l < r implies (spec_tags_contain(
                        self.nodes@[si as int].tags@,
                        #[trigger] self.tag_relationships.keys()[l],
                    ) ==> spec_tags_intersect(
                        self.nodes@[di as int].tags@,
                        self.tag_relationships.vals()[l].deep_view(),
                    )) by {
                        if l == r - 1 {
                            assert(self.tag_relationships.keys()[l] == source_tag@);
                        }
                    };
                }
            }
            proof {
                assert(spec_edge_ok(self, e as int));
            }
            e += 1;
        }
        let np = self.nodes.len();
        let mut pi: usize = 0;
        while pi < np
            invariant
                builder_wf(self),
                np == self.nodes@.len(),
                0 <= pi <= np,
                forall|l: int| 0 <= l < self.edges@.len() ==> spec_edge_ok(self, l),
                forall|p2: int, ti: int, di: int|
                    0 <= p2 < pi && 0 <= ti < self.nodes@[p2].tasks.vals().len() && 0 <= di
                        < self.nodes@[p2].tasks.vals()[ti].deps@.len() ==> spec_dep_persistent_ok(
                        self,
                        p2,
                        ti,
                        di,
                    ),
            decreases np - pi,
        {
            let nt = self.nodes[pi].tasks.len();
            let mut ti: usize = 0;
            while ti < nt
                invariant
                    builder_wf(self),
                    np == self.nodes@.len(),
                    pi < np,
                    nt == self.nodes@[pi as int].tasks.keys().len(),
                    0 <= ti <= nt,
                    forall|d2: int, t2: int|
                        0 <= t2 < ti && 0 <= d2
                            < self.nodes@[pi as int].tasks.vals()[t2].deps@.len()
                            ==> spec_dep_persistent_ok(self, pi as int, t2, d2),
                decreases nt - ti,
            {
                proof {
                    crate::collections::lemma_kv_len(&self.nodes@[pi as int].tasks);
                }
                let nd = self.nodes[pi].tasks.val_at(ti).deps.len();
                let mut di: usize = 0;
                while di < nd
                    invariant
                        builder_wf(self),
                        np == self.nodes@.len(),
                        pi < np,
                        ti < self.nodes@[pi as int].tasks.vals().len(),
                        nd == self.nodes@[pi as int].tasks.vals()[ti as int].deps@.len(),
                        0 <= di <= nd,
                        forall|d2: int|
                            0 <= d2 < di ==> spec_dep_persistent_ok(self, pi as int, ti as int, d2),
                    decreases nd - di,
                {
                    match self.check_persistent_dep(pi, ti, di) {
                        Ok(_) => {},
                        Err(err) => {
                            proof {
                                assert(!spec_dep_persistent_ok(
                                    self,
                                    pi as int,
                                    ti as int,
                                    di as int,
                                ));
                            }
                            return Err(err);
                        },
                    }
                    di += 1;
                }
                ti += 1;
            }
            proof {
                crate::collections::lemma_kv_len(&self.nodes@[pi as int].tasks);
            }
            pi += 1;
            proof {
                assert forall|p2: int, t2: int, d2: int|
                    0 <= p2 < pi && 0 <= t2 < self.nodes@[p2].tasks.vals().len() && 0 <= d2
                        < self.nodes@[p2].tasks.vals()[t2].deps@.len() implies spec_dep_persistent_ok(
                    self,
                    p2,
                    t2,
                    d2,
                ) by {
                    if p2 == pi - 1 {
                    }
                };
            }
        }
        Ok(())
    }

    /// Check one task dependency against the persistence rule.
    fn check_persistent_dep(&self, pi: usize, ti: usize, di: usize) -> (r: Result<(), GraphError>)
        requires
            builder_wf(self),
            pi < self.nodes@.len(),
            ti < self.nodes@[pi as int].tasks.vals().len(),
            di < self.nodes@[pi as int].tasks.vals()[ti as int].deps@.len(),
        ensures
            r is Ok <==> spec_dep_persistent_ok(self, pi as int, ti as int, di as int),
            r matches Err(GraphError::PersistentDepRequirement(t, d)) ==> t@ == spec_format(
                self.nodes@[pi as int].tasks.vals()[ti as int].target@,
            ) && d@ == spec_format(spec_dep_task_target(self, pi as int, ti as int, di as int)),
            r is Err ==> r matches Err(GraphError::PersistentDepRequirement(_, _)),
    {
        proof {
            crate::collections::lemma_kv_len(&self.nodes@[pi as int].tasks);
        }
        let p = &self.nodes[pi];
        let t = p.tasks.val_at(ti);
        let dep = &t.deps[di];
        match &dep.scope {
            TargetScope::Project(pid) => {
                let same = pid.is(&p.id);
                if same {
                    match p.tasks.get(dep.task_id.as_str()) {
                        Some(dep_task) => {
                            if !t.options.persistent && dep_task.options.persistent {
                                Err(
                                    GraphError::PersistentDepRequirement(
                                        t.target.format(),
                                        dep_task.target.format(),
                                    ),
                                )
                            } else {
                                Ok(())
                            }
                        },
                        None => Ok(()),
                    }
                } else {
                    match self.indices.get(pid.as_str()) {
                        Some(ix) => {
                            let dep_project = &self.nodes[*ix];
                            match dep_project.tasks.get(dep.task_id.as_str()) {
                                Some(dep_task) => {
                                    if !t.options.persistent && dep_task.options.persistent {
                                        Err(
                                            GraphError::PersistentDepRequirement(
                                                t.target.format(),
                                                dep_task.target.format(),
                                            ),
                                        )
                                    } else {
                                        Ok(())
                                    }
                                },
                                None => Ok(()),
                            }
                        },
                        None => Ok(()),
                    }
                }
            },
            _ => Ok(()),
        }
    }

    /// Enforce the constraints and hand the finished graph over.
    pub fn build(&mut self) -> (r: Result<ProjectGraph, GraphError>)
        requires
            builder_wf(old(self)),
        ensures
            builder_wf(final(self)),
            r is Ok <==> spec_constraints_ok(old(self)),
            r matches Ok(g) ==> graph_wf(&g) && g.nodes == old(self).nodes && g.edges == old(self).edges && g.indices == old(self).indices && g.sources == old(self).sources
                && g.aliases == old(self).aliases,
    {
        match self.enforce_constraints() {
            Ok(_) => {},
            Err(e) => {
                return Err(e);
            },
        }
        let mut nodes: Vec<Project> = Vec::new();
        let mut edges: Vec<(usize, usize)> = Vec::new();
        let mut indices: KeyMap<usize> = KeyMap::new();
        let mut sources: KeyMap<String> = KeyMap::new();
        let mut aliases: KeyMap<String> = KeyMap::new();
        core::mem::swap(&mut nodes, &mut self.nodes);
        core::mem::swap(&mut edges, &mut self.edges);
        core::mem::swap(&mut indices, &mut self.indices);
        core::mem::swap(&mut sources, &mut self.sources);
        core::mem::swap(&mut aliases, &mut self.aliases);
        proof {
            assert(self.nodes@.len() == 0);
            assert(self.edges@.len() == 0);
        }
        Ok(ProjectGraph { nodes, edges, indices, sources, aliases })
    }
}



/// What preparing the workspace's sources yields: the merged source map,
/// the cache fingerprint, and whether the previous graph may be reused.
pub struct PreloadResult {
    pub sources: KeyMap<String>,
    pub hash: String,
    pub is_cached: bool,
}

/// Assemble the sources and the cache fingerprint: explicitly configured
/// sources merge with the ones discovered by walking the globs, the
/// fingerprint covers the aliases, the sources and the configuration file
/// hashes, and the graph counts as cached exactly where a fingerprint
/// exists and equals the previous one. With the version control system
/// disabled the fingerprint is empty and nothing is ever cached.
pub fn preload(
    explicit: &KeyMap<String>,
    discovered: &KeyMap<String>,
    aliases: &KeyMap<String>,
    vcs_enabled: bool,
    config_hashes: &KeyMap<String>,
    previous_hash: &String,
) -> (r: PreloadResult)
    requires
        explicit.wf(),
        discovered.wf(),
        aliases.wf(),
        config_hashes.wf(),
    ensures
        r.sources.wf(),
        forall|k: Seq<char>|
            #[trigger] r.sources.spec_contains(k) <==> (explicit.spec_contains(k)
                || discovered.spec_contains(k)),
        forall|k: Seq<char>|
            #[trigger] discovered.spec_contains(k) ==> r.sources.spec_get(k)@
                == discovered.spec_get(k)@,
        forall|k: Seq<char>|
            explicit.spec_contains(k) && !discovered.spec_contains(k) ==> (
            #[trigger] r.sources.spec_get(k))@ == explicit.spec_get(k)@,
        vcs_enabled ==> r.hash@ == crate::hash::spec_graph_hash(aliases, &r.sources, config_hashes),
        !vcs_enabled ==> r.hash@.len() == 0,
        r.is_cached <==> (r.hash@.len() > 0 && r.hash@ == previous_hash@),
{
    let sources = crate::task::overlay_env(explicit, discovered);
    proof {
        assert forall|k: Seq<char>| #[trigger]
            sources.spec_contains(k) <==> (explicit.spec_contains(k) || discovered.spec_contains(
                k,
            )) by {
            assert(crate::task::env_view(&sources).dom().contains(k) == crate::task::env_view(
                explicit,
            ).union_prefer_right(crate::task::env_view(discovered)).dom().contains(k));
        };
        assert forall|k: Seq<char>| #[trigger]
            discovered.spec_contains(k) implies sources.spec_get(k)@ == discovered.spec_get(
            k,
        )@ by {
            assert(crate::task::env_view(&sources)[k] == crate::task::env_view(
                explicit,
            ).union_prefer_right(crate::task::env_view(discovered))[k]);
        };
        assert forall|k: Seq<char>|
            explicit.spec_contains(k) && !discovered.spec_contains(k) implies (
        #[trigger] sources.spec_get(k))@ == explicit.spec_get(k)@ by {
            assert(crate::task::env_view(&sources)[k] == crate::task::env_view(
                explicit,
            ).union_prefer_right(crate::task::env_view(discovered))[k]);
        };
    }
    let hash = if vcs_enabled {
        crate::hash::graph_hash(aliases, &sources, config_hashes)
    } else {
        String::new()
    };
    let is_cached = hash.unicode_len() > 0 && str_eq(hash.as_str(), previous_hash.as_str());
    PreloadResult { sources, hash, is_cached }
}


} // verus!
