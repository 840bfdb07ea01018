//! End-to-end scenarios over the project graph, the action graph and the
//! pipeline state machine.
use moonbuild::collections::KeyMap;
use moonbuild::depgraph::{ActionNode, DepGraph};
use moonbuild::graph::ProjectGraphBuilder;
use moonbuild::ids::Id;
use moonbuild::inherited::InheritedTasksManager;
use moonbuild::pipeline::{Action, ActionStatus, Event, PipelineRun};
use moonbuild::platform::{LanguageType, PlatformType, ProjectType};
use moonbuild::project::ProjectConfig;
use moonbuild::target::{Target, TargetScope};
use moonbuild::task_config::{TaskCommandArgs, TaskConfig, TaskOptionsConfig};

fn simple_task(command: &str) -> TaskConfig {
    let mut tc = TaskConfig::new();
    tc.command = TaskCommandArgs::Line(command.to_owned());
    tc
}

fn project_config(deps: Vec<&str>, tasks: Vec<(&str, TaskConfig)>) -> ProjectConfig {
    let mut task_map: KeyMap<TaskConfig> = KeyMap::new();
    for (id, tc) in tasks {
        task_map.insert(id, tc);
    }
    let mut dep_ids: Vec<Id> = Vec::new();
    for d in deps {
        dep_ids.push(Id::raw(d));
    }
    ProjectConfig {
        platform: Some(PlatformType::System),
        language: LanguageType::Unknown,
        type_of: ProjectType::Unknown,
        env: KeyMap::new(),
        file_groups: KeyMap::new(),
        depends_on: dep_ids,
        tags: Vec::new(),
        tasks: task_map,
    }
}

fn builder_for(
    sources: Vec<(&str, &str)>,
    configs: Vec<(&str, ProjectConfig)>,
) -> ProjectGraphBuilder {
    let mut source_map: KeyMap<String> = KeyMap::new();
    for (id, src) in sources {
        source_map.insert(id, src.to_owned());
    }
    let mut config_map: KeyMap<ProjectConfig> = KeyMap::new();
    for (id, cfg) in configs {
        config_map.insert(id, cfg);
    }
    ProjectGraphBuilder::new(
        "/workspace".to_owned(),
        source_map,
        KeyMap::new(),
        config_map,
        KeyMap::new(),
        InheritedTasksManager::new(),
        false,
        KeyMap::new(),
        KeyMap::new(),
    )
}

#[test]
fn two_projects_linear_deps() {
    let mut builder = builder_for(
        vec![("a", "a"), ("b", "b")],
        vec![
            ("a", project_config(vec!["b"], vec![("build", simple_task("make"))])),
            ("b", project_config(vec![], vec![("build", simple_task("make"))])),
        ],
    );
    builder.load_all().expect("load succeeds");
    let graph = builder.build().expect("build succeeds");
    assert_eq!(graph.nodes.len(), 2);
    assert_eq!(graph.edges.len(), 1);
    // the edge runs from a to b
    let a_ix = graph.edges[0].0;
    let b_ix = graph.edges[0].1;
    assert_eq!(graph.nodes[a_ix].id.as_str(), "a");
    assert_eq!(graph.nodes[b_ix].id.as_str(), "b");

    // the action graph runs b:build before a:build
    let mut dep_graph = DepGraph::new();
    let run_b = dep_graph.add_node(ActionNode::RunTarget(Target::new(
        &Id::raw("b"),
        &Id::raw("build"),
    )));
    let run_a = dep_graph.add_node(ActionNode::RunTarget(Target::new(
        &Id::raw("a"),
        &Id::raw("build"),
    )));
    dep_graph.add_edge(run_a, run_b);
    let batches = dep_graph.sort_batched_topological().expect("no cycle");
    assert_eq!(batches.len(), 2);
    assert_eq!(batches[0], vec![run_b]);
    assert_eq!(batches[1], vec![run_a]);

    // the pipeline passes both under a concurrency of four
    let mut run = PipelineRun::start(false, 4, 2);
    for batch in &batches {
        for node in batch {
            run.acquire(*node);
            let mut action = Action::new(*node, "RunTarget".to_owned(), "runner".to_owned());
            action.status = ActionStatus::Passed;
            action.duration_ms = Some(5);
            run.complete(action);
        }
    }
    run.finish(10).expect("no abort");
    assert_eq!(run.passed_count, 2);
    assert_eq!(run.cached_count, 0);
    assert_eq!(run.failed_count, 0);
}

#[test]
fn cycle_recovery_keeps_both_nodes() {
    let mut builder = builder_for(
        vec![("a", "a"), ("b", "b")],
        vec![
            ("a", project_config(vec!["b"], vec![("build", simple_task("make"))])),
            ("b", project_config(vec!["a"], vec![("build", simple_task("make"))])),
        ],
    );
    builder.load("a").expect("load succeeds despite the cycle");
    builder.load("b").expect("second load is already present");
    let graph = builder.build().expect("constraints pass on the absent edge");
    assert_eq!(graph.nodes.len(), 2);
    // exactly one of the two edges is present: the back-edge was skipped
    assert_eq!(graph.edges.len(), 1);
}

#[test]
fn persistent_dep_violation() {
    let mut serve = simple_task("serve");
    serve.options = TaskOptionsConfig::new();
    serve.options.persistent = Some(true);
    let mut build = simple_task("make");
    build.deps = vec![Target::new(&Id::raw("p"), &Id::raw("serve"))];
    let mut builder = builder_for(
        vec![("p", "p")],
        vec![("p", project_config(vec![], vec![("build", build), ("serve", serve)]))],
    );
    builder.load_all().expect("load succeeds");
    let err = match builder.build() {
        Ok(_) => panic!("a non-persistent task must not depend on a persistent one"),
        Err(e) => e,
    };
    match err {
        moonbuild::builder::GraphError::PersistentDepRequirement(task, dep) => {
            assert_eq!(task, "p:build");
            assert_eq!(dep, "p:serve");
        }
        _ => panic!("expected the persistence requirement"),
    }
}

#[test]
fn bail_on_failure_aborts_pipeline() {
    let mut run = PipelineRun::start(true, 4, 3);
    run.acquire(0);
    run.acquire(1);
    run.acquire(2);
    let mut a = Action::new(0, "A".to_owned(), "t".to_owned());
    a.status = ActionStatus::Passed;
    run.complete(a);
    let mut b = Action::new(1, "B".to_owned(), "t".to_owned());
    b.status = ActionStatus::Failed;
    b.error = Some("boom".to_owned());
    run.complete(b);
    let mut c = Action::new(2, "C".to_owned(), "t".to_owned());
    c.status = ActionStatus::Passed;
    run.complete(c);
    let err = match run.finish(10) {
        Ok(_) => panic!("bail aborts the run"),
        Err(e) => e,
    };
    match err {
        moonbuild::pipeline::PipelineError::Aborted(reason) => assert_eq!(reason, "boom"),
        _ => panic!("expected an abort"),
    }
    assert_eq!(run.failed_count, 1);
    assert!(run.passed_count <= 2);
    // the trace opens with the started event and closes with the abort
    assert!(matches!(run.events[0], Event::PipelineStarted { .. }));
    assert!(matches!(
        run.events[run.events.len() - 1],
        Event::PipelineAborted { .. }
    ));
    assert!(!run
        .events
        .iter()
        .any(|e| matches!(e, Event::PipelineFinished { .. })));
}

#[test]
fn batched_topological_order_diamond() {
    let mut g = DepGraph::new();
    let setup = g.add_node(ActionNode::SetupTool(PlatformType::System));
    let install = g.add_node(ActionNode::InstallDeps(PlatformType::System));
    let sync = g.add_node(ActionNode::SyncProject(Id::raw("a")));
    let run = g.add_node(ActionNode::RunTarget(Target::new(
        &Id::raw("a"),
        &Id::raw("build"),
    )));
    g.add_edge(install, setup);
    g.add_edge(sync, install);
    g.add_edge(run, sync);
    let batches = g.sort_batched_topological().expect("acyclic");
    assert_eq!(batches.len(), 4);
    assert_eq!(batches[0], vec![setup]);
    assert_eq!(batches[1], vec![install]);
    assert_eq!(batches[2], vec![sync]);
    assert_eq!(batches[3], vec![run]);
}

#[test]
fn cyclic_actions_are_refused() {
    let mut g = DepGraph::new();
    let x = g.add_node(ActionNode::SyncProject(Id::raw("x")));
    let y = g.add_node(ActionNode::SyncProject(Id::raw("y")));
    g.add_edge(x, y);
    g.add_edge(y, x);
    assert!(g.sort_batched_topological().is_err());
}

#[test]
fn self_reference_dropped_from_deps() {
    // a task that names itself among its dependencies loses that entry
    let mut build = simple_task("make");
    build.deps = vec![
        Target::new(&Id::raw("p"), &Id::raw("build")),
        Target { scope: TargetScope::OwnSelf, task_id: Id::raw("build") },
    ];
    let mut builder = builder_for(
        vec![("p", "p")],
        vec![("p", project_config(vec![], vec![("build", build)]))],
    );
    builder.load_all().expect("load succeeds");
    let graph = builder.build().expect("build succeeds");
    let p = &graph.nodes[0];
    let task = p.tasks.get("build").expect("task exists");
    assert_eq!(task.deps.len(), 0);
}
