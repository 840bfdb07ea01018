//! Ordered inheritance of task configuration: global defaults, then the
//! platform, the language, their project-type refinements, and tags, each
//! layer merged over the one before it.
use vstd::prelude::*;

use crate::args::push_char;
use crate::collections::{clone_string_vec, KeyMap};
use crate::ids::Id;
use crate::platform::{LanguageType, PlatformType, ProjectType, spec_is_js_platform, is_js_platform};
use crate::project::InheritedTasksConfig;
use crate::target::{clone_target_vec, Target};
use crate::task_config::{TaskCommandArgs, TaskConfig};

verus! {

/// One layer of inheritable task configuration; fields left out do not
/// contribute.
pub struct PartialInheritedTasksConfig {
    pub file_groups: Option<KeyMap<Vec<String>>>,
    pub implicit_deps: Option<Vec<Target>>,
    pub implicit_inputs: Option<Vec<String>>,
    pub tasks: Option<KeyMap<TaskConfig>>,
}

/// A layer's structural well-formedness.
pub open spec fn partial_wf(c: &PartialInheritedTasksConfig) -> bool {
    &&& (c.file_groups matches Some(m) ==> m.wf())
    &&& (c.tasks matches Some(m) ==> m.wf() && (forall|id: Seq<char>|
        #[trigger] m.spec_contains(id) ==> m.spec_get(id).env.wf()))
}

/// Layers of inheritable configuration keyed by scope name: `*` for the
/// global defaults, a platform, a language, `platform-type`,
/// `language-type`, or `tag-name`.
pub struct InheritedTasksManager {
    pub configs: KeyMap<PartialInheritedTasksConfig>,
}

/// The manager's structural well-formedness.
pub open spec fn manager_wf(m: &InheritedTasksManager) -> bool {
    &&& m.configs.wf()
    &&& forall|k: Seq<char>|
        #[trigger] m.configs.spec_contains(k) ==> partial_wf(&m.configs.spec_get(k))
}

/// The deterministic lookup order for a project: global defaults, the
/// platform for the JavaScript family, the language, the refinements by
/// project type, and one entry per tag.
pub open spec fn spec_lookup_order(
    platform: PlatformType,
    language: LanguageType,
    project: ProjectType,
    tags: Seq<Seq<char>>,
) -> Seq<Seq<char>> {
    let base: Seq<Seq<char>> = seq!["*"@];
    let base = if spec_is_js_platform(platform) {
        base.push(platform.spec_key())
    } else {
        base
    };
    let base = base.push(language.spec_key());
    let base = if spec_is_js_platform(platform) {
        base.push(platform.spec_key() + seq!['-'] + project.spec_key())
    } else {
        base
    };
    let base = base.push(language.spec_key() + seq!['-'] + project.spec_key());
    base + tag_keys(tags)
}

/// The layer name a tag contributes under.
pub open spec fn tag_key(t: Seq<char>) -> Seq<char> {
    "tag-"@ + t
}

/// The layer names a list of tags contributes under, in order.
pub open spec fn tag_keys(tags: Seq<Seq<char>>) -> Seq<Seq<char>> {
    tags.map_values(|t: Seq<char>| tag_key(t))
}

impl InheritedTasksManager {
    /// A manager with no layers.
    pub fn new() -> (r: Self)
        ensures
            manager_wf(&r),
            r.configs.keys().len() == 0,
    {
        InheritedTasksManager { configs: KeyMap::new() }
    }

    /// Register a layer under the name of its file: the workspace tasks
    /// file becomes the global `*` layer, and any other file contributes
    /// under its stem.
    pub fn add_config(&mut self, file_name: &str, config: PartialInheritedTasksConfig)
        requires
            manager_wf(old(self)),
            partial_wf(&config),
        ensures
            manager_wf(final(self)),
            final(self).configs.spec_contains(spec_config_name(file_name@)),
            final(self).configs.spec_get(spec_config_name(file_name@)) == config,
            forall|k: Seq<char>|
                k != spec_config_name(file_name@) ==> #[trigger] final(self).configs.spec_contains(
                    k,
                ) == old(self).configs.spec_contains(k),
            forall|k: Seq<char>|
                k != spec_config_name(file_name@) && old(self).configs.spec_contains(k)
                    ==> #[trigger] final(self).configs.spec_get(k) == old(self).configs.spec_get(
                    k,
                ),
    {
        let name = config_layer_name(file_name);
        self.configs.insert(name.as_str(), config);
        proof {
            assert forall|k: Seq<char>| #[trigger]
                self.configs.spec_contains(k) implies partial_wf(&self.configs.spec_get(k)) by {
                if k != name@ {
                    assert(old(self).configs.spec_contains(k));
                }
            };
        }
    }
}

/// The layer name a tasks file contributes under: `tasks.yml` is the global
/// layer, any other `.yml` file contributes under its stem, and any other
/// name stands as written.
pub open spec fn spec_config_name(file: Seq<char>) -> Seq<char> {
    if file == "tasks.yml"@ {
        "*"@
    } else if file.len() >= 4 && file.skip(file.len() - 4) == ".yml"@ {
        file.take(file.len() - 4)
    } else {
        file
    }
}

/// The layer name a tasks file contributes under.
pub fn config_layer_name(file_name: &str) -> (r: String)
    ensures
        r@ == spec_config_name(file_name@),
{
    if crate::ids::str_eq(file_name, "tasks.yml") {
        proof {
            reveal_strlit("tasks.yml");
        }
        "*".to_owned()
    } else {
        let n = file_name.unicode_len();
        if n >= 4 {
            let tail = file_name.substring_char(n - 4, n);
            proof {
                assert(tail@ =~= file_name@.skip(file_name@.len() - 4));
            }
            if crate::ids::str_eq(tail, ".yml") {
                let stem = file_name.substring_char(0, n - 4);
                proof {
                    assert(stem@ =~= file_name@.take(file_name@.len() - 4));
                }
                stem.to_owned()
            } else {
                file_name.to_owned()
            }
        } else {
            file_name.to_owned()
        }
    }
}

/// Build the lookup order for a project.
pub fn get_lookup_order(
    platform: &PlatformType,
    language: &LanguageType,
    project: &ProjectType,
    tags: &Vec<Id>,
) -> (r: Vec<String>)
    ensures
        r.deep_view() == spec_lookup_order(
            *platform,
            *language,
            *project,
            tags@.map_values(|t: Id| t@),
        ),
{
    let mut lookup: Vec<String> = Vec::new();
    lookup.push("*".to_owned());
    if is_js_platform(platform) {
        lookup.push(platform.key());
    }
    lookup.push(language.key());
    if is_js_platform(platform) {
        let mut key = platform.key();
        push_char(&mut key, '-');
        key.append(project.key().as_str());
        lookup.push(key);
    }
    let mut key = language.key();
    push_char(&mut key, '-');
    key.append(project.key().as_str());
    lookup.push(key);
    let ghost before_tags = lookup.deep_view();
    let n = tags.len();
    let mut i: usize = 0;
    while i < n
        invariant
            n == tags@.len(),
            0 <= i <= n,
            lookup.deep_view() =~~= before_tags + tag_keys(
                tags@.map_values(|t: Id| t@).take(i as int),
            ),
        decreases n - i,
    {
        let mut key = "tag-".to_owned();
        key.append(tags[i].as_str());
        let ghost kv = key@;
        let ghost pre_deep = lookup.deep_view();
        lookup.push(key);
        i += 1;
        proof {
            let tv = tags@.map_values(|t: Id| t@);
            assert(kv == tag_key(tv[i - 1]));
            let cur = tag_keys(tv.take(i as int));
            let prevk = tag_keys(tv.take(i - 1));
            assert(cur.drop_last() =~= prevk);
            assert(cur.last() == tag_key(tv[i - 1]));
            assert(cur.len() == i);
            assert(cur =~= prevk.push(tag_key(tv[i - 1])));
            assert(lookup.deep_view() =~= pre_deep.push(kv));
            assert(before_tags + cur =~= (before_tags + prevk).push(tag_key(tv[i - 1])));
            assert(lookup.deep_view() =~~= before_tags + cur);
        }
    }
    proof {
        let tv = tags@.map_values(|t: Id| t@);
        assert(tv.take(n as int) =~= tv);
        assert(lookup.deep_view() =~~= spec_lookup_order(
            *platform,
            *language,
            *project,
            tv,
        ));
    }
    lookup
}

/// The implicit dependencies contributed by the layers of an order, in
/// order.
pub open spec fn spec_fold_deps(
    configs: &KeyMap<PartialInheritedTasksConfig>,
    order: Seq<Seq<char>>,
) -> Seq<crate::target::TargetView>
    decreases order.len(),
{
    if order.len() == 0 {
        Seq::empty()
    } else {
        let rest = spec_fold_deps(configs, order.drop_last());
        let key = order.last();
        if configs.spec_contains(key) {
            match configs.spec_get(key).implicit_deps {
                Some(v) => rest + v@.map_values(|t: Target| t@),
                None => rest,
            }
        } else {
            rest
        }
    }
}

/// The implicit inputs contributed by the layers of an order, in order.
pub open spec fn spec_fold_inputs(
    configs: &KeyMap<PartialInheritedTasksConfig>,
    order: Seq<Seq<char>>,
) -> Seq<Seq<char>>
    decreases order.len(),
{
    if order.len() == 0 {
        Seq::empty()
    } else {
        let rest = spec_fold_inputs(configs, order.drop_last());
        let key = order.last();
        if configs.spec_contains(key) {
            match configs.spec_get(key).implicit_inputs {
                Some(v) => rest + v.deep_view(),
                None => rest,
            }
        } else {
            rest
        }
    }
}

/// Some layer of the order holds a task under this identifier.
pub open spec fn spec_some_layer_has_task(
    configs: &KeyMap<PartialInheritedTasksConfig>,
    order: Seq<Seq<char>>,
    id: Seq<char>,
) -> bool {
    exists|j: int|
        0 <= j < order.len() && configs.spec_contains(#[trigger] order[j]) && (
        configs.spec_get(order[j]).tasks matches Some(m) && m.spec_contains(id))
}

/// Some layer of the order holds a file group under this name.
pub open spec fn spec_some_layer_has_group(
    configs: &KeyMap<PartialInheritedTasksConfig>,
    order: Seq<Seq<char>>,
    name: Seq<char>,
) -> bool {
    exists|j: int|
        0 <= j < order.len() && configs.spec_contains(#[trigger] order[j]) && (
        configs.spec_get(order[j]).file_groups matches Some(m) && m.spec_contains(name))
}

/// How a task written in a non-global layer is adjusted when inherited:
/// the layer's own tasks file joins the task's global inputs, and an
/// unknown platform takes the resolved one; every other field stands.
pub open spec fn task_layer_adjusted(
    out: &TaskConfig,
    src: &TaskConfig,
    key: Seq<char>,
    platform: PlatformType,
) -> bool {
    &&& out.command.spec_words() == src.command.spec_words()
    &&& out.args.spec_words() == src.args.spec_words()
    &&& out.deps@.map_values(|t: Target| t@) == src.deps@.map_values(|t: Target| t@)
    &&& crate::task::env_view(&out.env) == crate::task::env_view(&src.env)
    &&& out.env.wf()
    &&& (if key == "*"@ {
        out.global_inputs.deep_view() == src.global_inputs.deep_view()
    } else {
        out.global_inputs.deep_view() == src.global_inputs.deep_view().push(
            "/.moon/tasks/"@ + key + ".yml"@,
        )
    })
    &&& (match (out.inputs, src.inputs) {
        (Some(a), Some(b)) => a.deep_view() == b.deep_view(),
        (None, None) => true,
        _ => false,
    })
    &&& out.local == src.local
    &&& (match (out.outputs, src.outputs) {
        (Some(a), Some(b)) => a.deep_view() == b.deep_view(),
        (None, None) => true,
        _ => false,
    })
    &&& out.options.obs() == src.options.obs()
    &&& out.platform == (if key != "*"@ && src.platform == PlatformType::Unknown {
        platform
    } else {
        src.platform
    })
    &&& (match (out.type_of, src.type_of) {
        (Some(a), Some(b)) => a == b,
        (None, None) => true,
        _ => false,
    })
}

impl TaskConfig {
    /// Copy a configuration, keeping every view.
    pub fn duplicate(&self) -> (r: Self)
        requires
            self.env.wf(),
        ensures
            task_layer_adjusted(&r, self, "*"@, PlatformType::Unknown),
            r.env.wf(),
    {
        let r = TaskConfig {
            command: self.command.duplicate(),
            args: self.args.duplicate(),
            deps: clone_target_vec(&self.deps),
            env: self.env.duplicate(),
            global_inputs: clone_string_vec(&self.global_inputs),
            inputs: crate::collections::clone_opt_string_vec(&self.inputs),
            local: self.local,
            outputs: crate::collections::clone_opt_string_vec(&self.outputs),
            options: self.options.duplicate(),
            platform: self.platform,
            type_of: self.type_of,
        };
        proof {
            assert(crate::task::env_view(&r.env) =~= crate::task::env_view(&self.env));
            reveal_strlit("*");
        }
        r
    }

    /// Copy a configuration, adjusting it for the layer it came from.
    pub fn duplicate_for_layer(&self, key: &str, platform: &PlatformType) -> (r: Self)
        requires
            self.env.wf(),
            key@ != "*"@,
        ensures
            task_layer_adjusted(&r, self, key@, *platform),
            r.env.wf(),
    {
        let mut r = self.duplicate();
        let mut path = "/.moon/tasks/".to_owned();
        path.append(key);
        path.append(".yml");
        r.global_inputs.push(path);
        if r.platform.is_unknown() {
            r.platform = *platform;
        }
        proof {
            assert(r.global_inputs.deep_view() =~= self.global_inputs.deep_view().push(
                "/.moon/tasks/"@ + key@ + ".yml"@,
            ));
        }
        r
    }
}

/// How a resolved inherited configuration relates to the manager it came
/// from: the implicit lists are the layers' contributions in lookup order,
/// and every task and file group stems from a matched layer, tasks
/// adjusted for theirs.
pub open spec fn inherited_config_rel(
    cfg: &InheritedTasksConfig,
    configs: &KeyMap<PartialInheritedTasksConfig>,
    order: Seq<Seq<char>>,
    platform: PlatformType,
) -> bool {
    &&& cfg.file_groups.wf()
    &&& cfg.tasks.wf()
    &&& cfg.implicit_deps@.map_values(|t: Target| t@) == spec_fold_deps(configs, order)
    &&& cfg.implicit_inputs.deep_view() == spec_fold_inputs(configs, order)
    &&& (forall|id: Seq<char>|
        #[trigger] cfg.tasks.spec_contains(id) == spec_some_layer_has_task(configs, order, id))
    &&& (forall|id: Seq<char>|
        #[trigger] cfg.tasks.spec_contains(id) ==> exists|j: int|
            0 <= j < order.len() && configs.spec_contains(#[trigger] order[j]) && (
            configs.spec_get(order[j]).tasks matches Some(m) && m.spec_contains(id)
                && task_layer_adjusted(
                &cfg.tasks.spec_get(id),
                &m.spec_get(id),
                order[j],
                platform,
            )))
    &&& (forall|g: Seq<char>|
        #[trigger] cfg.file_groups.spec_contains(g) == spec_some_layer_has_group(
            configs,
            order,
            g,
        ))
    &&& (forall|g: Seq<char>|
        #[trigger] cfg.file_groups.spec_contains(g) ==> exists|j: int|
            0 <= j < order.len() && configs.spec_contains(#[trigger] order[j]) && (
            configs.spec_get(order[j]).file_groups matches Some(m) && m.spec_contains(g)
                && m.spec_get(g).deep_view() == cfg.file_groups.spec_get(g).deep_view()))
}

impl InheritedTasksManager {
    /// Resolve the configuration a project inherits: walk the lookup order
    /// and merge each present layer — file groups overwrite per name, the
    /// implicit lists append, tasks overwrite per identifier after being
    /// adjusted for their layer.
    pub fn get_inherited_config(
        &self,
        platform: &PlatformType,
        language: &LanguageType,
        project: &ProjectType,
        tags: &Vec<Id>,
    ) -> (r: InheritedTasksConfig)
        requires
            manager_wf(self),
        ensures
            inherited_config_rel(
                &r,
                &self.configs,
                spec_lookup_order(*platform, *language, *project, tags@.map_values(|t: Id| t@)),
                *platform,
            ),
    {
        let order = get_lookup_order(platform, language, project, tags);
        let mut cfg = InheritedTasksConfig::new();
        let n = order.len();
        let ghost ov = order.deep_view();
        let mut i: usize = 0;
        proof {
            assert(ov.take(0) =~= Seq::<Seq<char>>::empty());
            assert(cfg.implicit_deps@.map_values(|t: Target| t@) =~= spec_fold_deps(
                &self.configs,
                ov.take(0),
            ));
            assert(cfg.implicit_inputs.deep_view() =~= spec_fold_inputs(
                &self.configs,
                ov.take(0),
            ));
        }
        while i < n
            invariant
                manager_wf(self),
                n == order@.len(),
                ov == order.deep_view(),
                0 <= i <= n,
                inherited_config_rel(&cfg, &self.configs, ov.take(i as int), *platform),
            decreases n - i,
        {
            let ghost prefix = ov.take(i as int);
            let key = &order[i];
            match self.configs.get(key.as_str()) {
                Some(layer) => {
                    let is_global = crate::ids::str_eq(key.as_str(), "*");
                    proof {
                        reveal_strlit("*");
                        assert(self.configs.spec_contains(key@));
                    }
                    merge_layer(&mut cfg, layer, key, is_global, platform);
                    proof {
                        lemma_layer_extends(
                            &cfg,
                            &self.configs,
                            prefix,
                            key@,
                            *platform,
                        );
                    }
                },
                None => {
                    proof {
                        let cur = ov.take(i + 1);
                        assert(cur.drop_last() =~= prefix);
                        assert(cur.last() == ov[i as int]);
                        lemma_absent_layer(&cfg, &self.configs, prefix, ov[i as int], *platform);
                    }
                },
            }
            i += 1;
            proof {
                let cur = ov.take(i as int);
                assert(cur.drop_last() =~= prefix);
                assert(cur.last() == ov[i - 1]);
                assert(cur =~= prefix.push(ov[i - 1]));
            }
        }
        proof {
            assert(ov.take(n as int) =~= ov);
        }
        cfg
    }
}

/// Merging one present layer keeps the relation, now over the order grown
/// by that layer's key.
proof fn lemma_layer_extends(
    cfg: &InheritedTasksConfig,
    configs: &KeyMap<PartialInheritedTasksConfig>,
    prefix: Seq<Seq<char>>,
    key: Seq<char>,
    platform: PlatformType,
)
    requires
        configs.spec_contains(key),
        layer_merged_rel(cfg, configs, prefix, key, platform),
    ensures
        inherited_config_rel(cfg, configs, prefix.push(key), platform),
{
    let order = prefix.push(key);
    assert(order.drop_last() =~= prefix);
    assert(order.last() == key);
    assert forall|id: Seq<char>| #[trigger]
        cfg.tasks.spec_contains(id) == spec_some_layer_has_task(configs, order, id) by {
        if cfg.tasks.spec_contains(id) {
            if configs.spec_get(key).tasks matches Some(m) && m.spec_contains(id) {
                assert(order[order.len() - 1] == key);
            } else {
                assert(spec_some_layer_has_task(configs, prefix, id));
                let j = choose|j: int|
                    0 <= j < prefix.len() && configs.spec_contains(#[trigger] prefix[j]) && (
                    configs.spec_get(prefix[j]).tasks matches Some(m) && m.spec_contains(id));
                assert(order[j] == prefix[j]);
            }
        }
        if spec_some_layer_has_task(configs, order, id) {
            let j = choose|j: int|
                0 <= j < order.len() && configs.spec_contains(#[trigger] order[j]) && (
                configs.spec_get(order[j]).tasks matches Some(m) && m.spec_contains(id));
            if j < prefix.len() {
                assert(prefix[j] == order[j]);
                assert(spec_some_layer_has_task(configs, prefix, id));
            }
        }
    };
    assert forall|g: Seq<char>| #[trigger]
        cfg.file_groups.spec_contains(g) == spec_some_layer_has_group(configs, order, g) by {
        if cfg.file_groups.spec_contains(g) {
            if configs.spec_get(key).file_groups matches Some(m) && m.spec_contains(g) {
                assert(order[order.len() - 1] == key);
            } else {
                assert(spec_some_layer_has_group(configs, prefix, g));
                let j = choose|j: int|
                    0 <= j < prefix.len() && configs.spec_contains(#[trigger] prefix[j]) && (
                    configs.spec_get(prefix[j]).file_groups matches Some(m) && m.spec_contains(g));
                assert(order[j] == prefix[j]);
            }
        }
        if spec_some_layer_has_group(configs, order, g) {
            let j = choose|j: int|
                0 <= j < order.len() && configs.spec_contains(#[trigger] order[j]) && (
                configs.spec_get(order[j]).file_groups matches Some(m) && m.spec_contains(g));
            if j < prefix.len() {
                assert(prefix[j] == order[j]);
                assert(spec_some_layer_has_group(configs, prefix, g));
            }
        }
    };
    assert forall|id: Seq<char>| #[trigger] cfg.tasks.spec_contains(id) implies exists|j: int|
        0 <= j < order.len() && configs.spec_contains(#[trigger] order[j]) && (
        configs.spec_get(order[j]).tasks matches Some(m) && m.spec_contains(id)
            && task_layer_adjusted(&cfg.tasks.spec_get(id), &m.spec_get(id), order[j], platform)) by {
        if configs.spec_get(key).tasks matches Some(m) && m.spec_contains(id)
            && task_layer_adjusted(&cfg.tasks.spec_get(id), &m.spec_get(id), key, platform) {
            assert(order[order.len() - 1] == key);
        } else {
            let j = choose|j: int|
                0 <= j < prefix.len() && configs.spec_contains(#[trigger] prefix[j]) && (
                configs.spec_get(prefix[j]).tasks matches Some(m) && m.spec_contains(id)
                    && task_layer_adjusted(
                    &cfg.tasks.spec_get(id),
                    &m.spec_get(id),
                    prefix[j],
                    platform,
                ));
            assert(order[j] == prefix[j]);
        }
    };
    assert forall|g: Seq<char>| #[trigger] cfg.file_groups.spec_contains(g) implies exists|j: int|
        0 <= j < order.len() && configs.spec_contains(#[trigger] order[j]) && (
        configs.spec_get(order[j]).file_groups matches Some(m) && m.spec_contains(g)
            && m.spec_get(g).deep_view() == cfg.file_groups.spec_get(g).deep_view()) by {
        if configs.spec_get(key).file_groups matches Some(m) && m.spec_contains(g)
            && m.spec_get(g).deep_view() == cfg.file_groups.spec_get(g).deep_view() {
            assert(order[order.len() - 1] == key);
        } else {
            let j = choose|j: int|
                0 <= j < prefix.len() && configs.spec_contains(#[trigger] prefix[j]) && (
                configs.spec_get(prefix[j]).file_groups matches Some(m) && m.spec_contains(g)
                    && m.spec_get(g).deep_view() == cfg.file_groups.spec_get(g).deep_view());
            assert(order[j] == prefix[j]);
        }
    };
}

/// Skipping an absent layer keeps the relation, over the order grown by
/// its key.
proof fn lemma_absent_layer(
    cfg: &InheritedTasksConfig,
    configs: &KeyMap<PartialInheritedTasksConfig>,
    prefix: Seq<Seq<char>>,
    key: Seq<char>,
    platform: PlatformType,
)
    requires
        !configs.spec_contains(key),
        inherited_config_rel(cfg, configs, prefix, platform),
    ensures
        inherited_config_rel(cfg, configs, prefix.push(key), platform),
{
    let order = prefix.push(key);
    assert(order.drop_last() =~= prefix);
    assert(order.last() == key);
    assert forall|id: Seq<char>| #[trigger]
        cfg.tasks.spec_contains(id) == spec_some_layer_has_task(configs, order, id) by {
        if spec_some_layer_has_task(configs, order, id) {
            let j = choose|j: int|
                0 <= j < order.len() && configs.spec_contains(#[trigger] order[j]) && (
                configs.spec_get(order[j]).tasks matches Some(m) && m.spec_contains(id));
            assert(j < prefix.len());
            assert(prefix[j] == order[j]);
        }
        if spec_some_layer_has_task(configs, prefix, id) {
            let j = choose|j: int|
                0 <= j < prefix.len() && configs.spec_contains(#[trigger] prefix[j]) && (
                configs.spec_get(prefix[j]).tasks matches Some(m) && m.spec_contains(id));
            assert(order[j] == prefix[j]);
        }
    };
    assert forall|g: Seq<char>| #[trigger]
        cfg.file_groups.spec_contains(g) == spec_some_layer_has_group(configs, order, g) by {
        if spec_some_layer_has_group(configs, order, g) {
            let j = choose|j: int|
                0 <= j < order.len() && configs.spec_contains(#[trigger] order[j]) && (
                configs.spec_get(order[j]).file_groups matches Some(m) && m.spec_contains(g));
            assert(j < prefix.len());
            assert(prefix[j] == order[j]);
        }
        if spec_some_layer_has_group(configs, prefix, g) {
            let j = choose|j: int|
                0 <= j < prefix.len() && configs.spec_contains(#[trigger] prefix[j]) && (
                configs.spec_get(prefix[j]).file_groups matches Some(m) && m.spec_contains(g));
            assert(order[j] == prefix[j]);
        }
    };
    assert forall|id: Seq<char>| #[trigger] cfg.tasks.spec_contains(id) implies exists|j: int|
        0 <= j < order.len() && configs.spec_contains(#[trigger] order[j]) && (
        configs.spec_get(order[j]).tasks matches Some(m) && m.spec_contains(id)
            && task_layer_adjusted(&cfg.tasks.spec_get(id), &m.spec_get(id), order[j], platform)) by {
        let j = choose|j: int|
            0 <= j < prefix.len() && configs.spec_contains(#[trigger] prefix[j]) && (
            configs.spec_get(prefix[j]).tasks matches Some(m) && m.spec_contains(id)
                && task_layer_adjusted(
                &cfg.tasks.spec_get(id),
                &m.spec_get(id),
                prefix[j],
                platform,
            ));
        assert(order[j] == prefix[j]);
    };
    assert forall|g: Seq<char>| #[trigger] cfg.file_groups.spec_contains(g) implies exists|j: int|
        0 <= j < order.len() && configs.spec_contains(#[trigger] order[j]) && (
        configs.spec_get(order[j]).file_groups matches Some(m) && m.spec_contains(g)
            && m.spec_get(g).deep_view() == cfg.file_groups.spec_get(g).deep_view()) by {
        let j = choose|j: int|
            0 <= j < prefix.len() && configs.spec_contains(#[trigger] prefix[j]) && (
            configs.spec_get(prefix[j]).file_groups matches Some(m) && m.spec_contains(g)
                && m.spec_get(g).deep_view() == cfg.file_groups.spec_get(g).deep_view());
        assert(order[j] == prefix[j]);
    };
}

/// The state after merging one layer over a configuration that satisfied
/// the relation for the order before it.
pub open spec fn layer_merged_rel(
    cfg: &InheritedTasksConfig,
    configs: &KeyMap<PartialInheritedTasksConfig>,
    prefix: Seq<Seq<char>>,
    key: Seq<char>,
    platform: PlatformType,
) -> bool {
    let layer = configs.spec_get(key);
    &&& cfg.file_groups.wf()
    &&& cfg.tasks.wf()
    &&& cfg.implicit_deps@.map_values(|t: Target| t@) == spec_fold_deps(configs, prefix) + (
        match layer.implicit_deps {
            Some(v) => v@.map_values(|t: Target| t@),
            None => Seq::empty(),
        })
    &&& cfg.implicit_inputs.deep_view() == spec_fold_inputs(configs, prefix) + (
        match layer.implicit_inputs {
            Some(v) => v.deep_view(),
            None => Seq::empty(),
        })
    &&& (forall|id: Seq<char>|
        #[trigger] cfg.tasks.spec_contains(id) == (spec_some_layer_has_task(configs, prefix, id)
            || (layer.tasks matches Some(m) && m.spec_contains(id))))
    &&& (forall|id: Seq<char>|
        #[trigger] cfg.tasks.spec_contains(id) ==> ((layer.tasks matches Some(m)
            && m.spec_contains(id) && task_layer_adjusted(
            &cfg.tasks.spec_get(id),
            &m.spec_get(id),
            key,
            platform,
        )) || (exists|j: int|
            0 <= j < prefix.len() && configs.spec_contains(#[trigger] prefix[j]) && (
            configs.spec_get(prefix[j]).tasks matches Some(m) && m.spec_contains(id)
                && task_layer_adjusted(
                &cfg.tasks.spec_get(id),
                &m.spec_get(id),
                prefix[j],
                platform,
            )))))
    &&& (forall|g: Seq<char>|
        #[trigger] cfg.file_groups.spec_contains(g) == (spec_some_layer_has_group(
            configs,
            prefix,
            g,
        ) || (layer.file_groups matches Some(m) && m.spec_contains(g))))
    &&& (forall|g: Seq<char>|
        #[trigger] cfg.file_groups.spec_contains(g) ==> ((layer.file_groups matches Some(m)
            && m.spec_contains(g) && m.spec_get(g).deep_view() == cfg.file_groups.spec_get(
            g,
        ).deep_view()) || (exists|j: int|
            0 <= j < prefix.len() && configs.spec_contains(#[trigger] prefix[j]) && (
            configs.spec_get(prefix[j]).file_groups matches Some(m) && m.spec_contains(g)
                && m.spec_get(g).deep_view() == cfg.file_groups.spec_get(g).deep_view()))))
}

/// Merge one layer over the accumulated configuration.
fn merge_layer(
    cfg: &mut InheritedTasksConfig,
    layer: &PartialInheritedTasksConfig,
    key: &String,
    is_global: bool,
    platform: &PlatformType,
)
    requires
        partial_wf(layer),
        old(cfg).file_groups.wf(),
        old(cfg).tasks.wf(),
        is_global == (key@ == "*"@),
    ensures
        final(cfg).file_groups.wf(),
        final(cfg).tasks.wf(),
        final(cfg).implicit_deps@.map_values(|t: Target| t@) == old(cfg).implicit_deps@.map_values(
            |t: Target| t@,
        ) + (match layer.implicit_deps {
            Some(v) => v@.map_values(|t: Target| t@),
            None => Seq::empty(),
        }),
        final(cfg).implicit_inputs.deep_view() == old(cfg).implicit_inputs.deep_view() + (
        match layer.implicit_inputs {
            Some(v) => v.deep_view(),
            None => Seq::empty(),
        }),
        forall|id: Seq<char>|
            #[trigger] final(cfg).tasks.spec_contains(id) == (old(cfg).tasks.spec_contains(id) || (
            layer.tasks matches Some(m) && m.spec_contains(id))),
        forall|id: Seq<char>|
            #[trigger] final(cfg).tasks.spec_contains(id) ==> ((layer.tasks matches Some(m)
                && m.spec_contains(id) && task_layer_adjusted(
                &final(cfg).tasks.spec_get(id),
                &m.spec_get(id),
                key@,
                *platform,
            )) || (old(cfg).tasks.spec_contains(id) && final(cfg).tasks.spec_get(id) == old(cfg).tasks.spec_get(id))),
        forall|g: Seq<char>|
            #[trigger] final(cfg).file_groups.spec_contains(g) == (old(cfg).file_groups.spec_contains(g) || (layer.file_groups matches Some(m)
                && m.spec_contains(g))),
        forall|g: Seq<char>|
            #[trigger] final(cfg).file_groups.spec_contains(g) ==> ((layer.file_groups matches Some(
                m,
            ) && m.spec_contains(g) && m.spec_get(g).deep_view() == final(cfg).file_groups.spec_get(g).deep_view()) || (old(cfg).file_groups.spec_contains(g)
                && final(cfg).file_groups.spec_get(g) == old(cfg).file_groups.spec_get(g))),
{
    let ghost cfg_in = *cfg;
    match &layer.file_groups {
        Some(groups) => {
            let n = groups.len();
            let mut j: usize = 0;
            while j < n
                invariant
                    groups.wf(),
                    cfg.file_groups.wf(),
                    cfg.tasks.wf(),
                    n == groups.keys().len(),
                    0 <= j <= n,
                    cfg.implicit_deps == cfg_in.implicit_deps,
                    cfg.implicit_inputs == cfg_in.implicit_inputs,
                    cfg.tasks == cfg_in.tasks,
                    forall|g: Seq<char>|
                        #[trigger] cfg.file_groups.spec_contains(g) == (cfg_in.file_groups.spec_contains(g) || (exists|l: int|
                            0 <= l < j && groups.keys()[l] == g)),
                    forall|g: Seq<char>|
                        #[trigger] cfg.file_groups.spec_contains(g) ==> ((groups.spec_contains(g)
                            && (exists|l: int| 0 <= l < j && groups.keys()[l] == g)
                            && groups.spec_get(g).deep_view() == cfg.file_groups.spec_get(
                            g,
                        ).deep_view()) || (cfg_in.file_groups.spec_contains(g) && cfg.file_groups.spec_get(
                            g,
                        ) == cfg_in.file_groups.spec_get(g))),
                decreases n - j,
            {
                let ghost kj = groups.keys()[j as int];
                cfg.file_groups.insert(
                    groups.key_at(j).as_str(),
                    clone_string_vec(groups.val_at(j)),
                );
                proof {
                    crate::collections::lemma_unique_get(groups, kj, j as int);
                    assert forall|g: Seq<char>| #[trigger]
                        cfg.file_groups.spec_contains(g) == (cfg_in.file_groups.spec_contains(g)
                            || (exists|l: int| 0 <= l < j + 1 && groups.keys()[l] == g)) by {
                        if g == kj {
                            assert(groups.keys()[j as int] == g);
                            assert(cfg.file_groups.spec_contains(g));
                        } else {
                            if exists|l: int| 0 <= l < j + 1 && groups.keys()[l] == g {
                                let l = choose|l: int| 0 <= l < j + 1 && groups.keys()[l] == g;
                                assert(l < j);
                            }
                            if exists|l: int| 0 <= l < j && groups.keys()[l] == g {
                                let l = choose|l: int| 0 <= l < j && groups.keys()[l] == g;
                                assert(0 <= l < j + 1 && groups.keys()[l] == g);
                            }
                        }
                    };
                    assert forall|g: Seq<char>| #[trigger]
                        cfg.file_groups.spec_contains(g) implies ((groups.spec_contains(g) && (
                        exists|l: int| 0 <= l < j + 1 && groups.keys()[l] == g)
                            && groups.spec_get(g).deep_view() == cfg.file_groups.spec_get(
                            g,
                        ).deep_view()) || (cfg_in.file_groups.spec_contains(g)
                            && cfg.file_groups.spec_get(g) == cfg_in.file_groups.spec_get(g))) by {
                        if g == kj {
                            assert(groups.keys()[j as int] == g);
                        } else {
                            if exists|l: int| 0 <= l < j && groups.keys()[l] == g {
                                let l = choose|l: int| 0 <= l < j && groups.keys()[l] == g;
                                assert(0 <= l < j + 1 && groups.keys()[l] == g);
                            }
                        }
                    };
                }
                j += 1;
            }
            proof {
                assert forall|g: Seq<char>| #[trigger]
                    groups.spec_contains(g) implies exists|l: int|
                    0 <= l < n && groups.keys()[l] == g by {
                }
            }
        },
        None => {},
    }
    match &layer.implicit_deps {
        Some(deps) => {
            let mut extra = clone_target_vec(deps);
            let ghost ev = extra@.map_values(|t: Target| t@);
            cfg.implicit_deps.append(&mut extra);
            proof {
                assert(cfg.implicit_deps@.map_values(|t: Target| t@) =~= old(cfg).implicit_deps@.map_values(|t: Target| t@) + deps@.map_values(|t: Target| t@));
            }
        },
        None => {
            proof {
                assert(cfg.implicit_deps@.map_values(|t: Target| t@) =~= old(cfg).implicit_deps@.map_values(|t: Target| t@) + Seq::<
                    crate::target::TargetView,
                >::empty());
            }
        },
    }
    match &layer.implicit_inputs {
        Some(inputs) => {
            let mut extra = clone_string_vec(inputs);
            cfg.implicit_inputs.append(&mut extra);
            proof {
                assert(cfg.implicit_inputs.deep_view() =~= old(cfg).implicit_inputs.deep_view()
                    + inputs.deep_view());
            }
        },
        None => {
            proof {
                assert(cfg.implicit_inputs.deep_view() =~= old(cfg).implicit_inputs.deep_view()
                    + Seq::<Seq<char>>::empty());
            }
        },
    }
    match &layer.tasks {
        Some(tasks) => {
            let ghost tasks0 = cfg.tasks;
            let ghost fg0 = cfg.file_groups;
            let ghost deps0 = cfg.implicit_deps;
            let ghost inputs0 = cfg.implicit_inputs;
            let n = tasks.len();
            let mut j: usize = 0;
            while j < n
                invariant
                    tasks.wf(),
                    partial_wf(layer),
                    layer.tasks matches Some(m) && m == tasks,
                    cfg.tasks.wf(),
                    cfg.file_groups == fg0,
                    cfg.implicit_deps == deps0,
                    cfg.implicit_inputs == inputs0,
                    n == tasks.keys().len(),
                    0 <= j <= n,
                    is_global == (key@ == "*"@),
                    forall|id: Seq<char>|
                        #[trigger] cfg.tasks.spec_contains(id) == (tasks0.spec_contains(id) || (
                        exists|l: int| 0 <= l < j && tasks.keys()[l] == id)),
                    forall|id: Seq<char>|
                        #[trigger] cfg.tasks.spec_contains(id) ==> ((tasks.spec_contains(id) && (
                        exists|l: int| 0 <= l < j && tasks.keys()[l] == id)
                            && task_layer_adjusted(
                            &cfg.tasks.spec_get(id),
                            &tasks.spec_get(id),
                            key@,
                            *platform,
                        )) || (tasks0.spec_contains(id) && cfg.tasks.spec_get(id)
                            == tasks0.spec_get(id))),
                decreases n - j,
            {
                let ghost kj = tasks.keys()[j as int];
                proof {
                    crate::collections::lemma_unique_get(tasks, kj, j as int);
                    assert(partial_wf(layer));
                    assert(tasks.spec_get(kj).env.wf());
                }
                let adjusted = if is_global {
                    tasks.val_at(j).duplicate()
                } else {
                    tasks.val_at(j).duplicate_for_layer(key.as_str(), platform)
                };
                proof {
                    if is_global {
                        assert(task_layer_adjusted(
                            &adjusted,
                            &tasks.spec_get(kj),
                            key@,
                            *platform,
                        ));
                    }
                }
                let ghost adj = adjusted;
                cfg.tasks.insert(tasks.key_at(j).as_str(), adjusted);
                proof {
                    assert(cfg.tasks.spec_get(kj) == adj);
                    assert(task_layer_adjusted(&adj, &tasks.spec_get(kj), key@, *platform));
                    assert forall|id: Seq<char>| #[trigger]
                        cfg.tasks.spec_contains(id) == (tasks0.spec_contains(id) || (exists|l: int|
                            0 <= l < j + 1 && tasks.keys()[l] == id)) by {
                        if id == kj {
                            assert(tasks.keys()[j as int] == id);
                            assert(cfg.tasks.spec_contains(id));
                        } else {
                            if exists|l: int| 0 <= l < j + 1 && tasks.keys()[l] == id {
                                let l = choose|l: int| 0 <= l < j + 1 && tasks.keys()[l] == id;
                                assert(l < j);
                            }
                            if exists|l: int| 0 <= l < j && tasks.keys()[l] == id {
                                let l = choose|l: int| 0 <= l < j && tasks.keys()[l] == id;
                                assert(0 <= l < j + 1 && tasks.keys()[l] == id);
                            }
                        }
                    };
                    assert forall|id: Seq<char>| #[trigger]
                        cfg.tasks.spec_contains(id) implies ((tasks.spec_contains(id) && (
                        exists|l: int| 0 <= l < j + 1 && tasks.keys()[l] == id)
                            && task_layer_adjusted(
                            &cfg.tasks.spec_get(id),
                            &tasks.spec_get(id),
                            key@,
                            *platform,
                        )) || (tasks0.spec_contains(id) && cfg.tasks.spec_get(id)
                            == tasks0.spec_get(id))) by {
                        if id == kj {
                            assert(tasks.keys()[j as int] == id);
                        } else {
                            if exists|l: int| 0 <= l < j && tasks.keys()[l] == id {
                                let l = choose|l: int| 0 <= l < j && tasks.keys()[l] == id;
                                assert(0 <= l < j + 1 && tasks.keys()[l] == id);
                            }
                        }
                    };
                }
                j += 1;
            }
            proof {
                assert forall|id: Seq<char>| #[trigger]
                    tasks.spec_contains(id) implies exists|l: int|
                    0 <= l < n && tasks.keys()[l] == id by {
                }
            }
        },
        None => {},
    }
}

} // verus!
