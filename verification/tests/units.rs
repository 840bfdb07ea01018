//! Unit tests over targets, tasks, expansion, hashing and the estimator.
use moonbuild::affected::str_starts_with;
use moonbuild::args::split_args;
use moonbuild::builder::{
    expand_task_args, expand_task_inputs, expand_task_outputs, build_token_vars_fields,
};
use moonbuild::collections::{KeyMap, StrSet};
use moonbuild::colors::{setup_colors, ColorDecision, ColorEnv};
use moonbuild::emitter::{create_emitter, Subscriber};
use moonbuild::envfile::{apply_env_file, read_env_file, EnvFileRead};
use moonbuild::estimator::calculate;
use moonbuild::graph::preload;
use moonbuild::hash::graph_hash;
use moonbuild::ids::Id;
use moonbuild::inherited::{config_layer_name, get_lookup_order, InheritedTasksManager};
use moonbuild::pipeline::{Action, ActionStatus};
use moonbuild::platform::{
    detect_task_platform, is_js_platform, LanguageType, PlatformType, ProjectType,
};
use moonbuild::target::{Target, TargetScope};
use moonbuild::task::{Task, TaskError, TaskFlag};
use moonbuild::task_config::{TaskCommandArgs, TaskConfig};

fn task_from(config: &TaskConfig) -> Task {
    Task::from_config(
        Target::new(&Id::raw("p"), &Id::raw("t")),
        config,
    )
    .expect("task builds")
}

#[test]
fn target_parse_format_round_trip() {
    for text in ["app:build", "^:lint", "~:serve", ":check", "#web:test"] {
        let t = Target::parse(text).expect("parses");
        assert_eq!(t.format(), text);
    }
    assert!(Target::parse("no-colon").is_err());
    assert!(Target::parse("bad id!:task").is_err());
}

#[test]
fn task_config_round_trip_preserves_observables() {
    let mut config = TaskConfig::new();
    config.command = TaskCommandArgs::Line("cargo build --release".to_owned());
    config.inputs = Some(vec!["src/**/*".to_owned()]);
    config.outputs = Some(vec!["target".to_owned()]);
    config.platform = PlatformType::System;
    let task = task_from(&config);
    assert_eq!(task.command, "cargo");
    assert_eq!(task.args, vec!["build", "--release"]);
    let back = task.to_config();
    match &back.command {
        TaskCommandArgs::List(words) => {
            assert_eq!(words, &vec!["cargo", "build", "--release"]);
        }
        _ => panic!("command writes back as a sequence"),
    }
    assert_eq!(back.inputs, Some(vec!["src/**/*".to_owned()]));
    assert_eq!(back.outputs, Some(vec!["target".to_owned()]));
    assert_eq!(back.platform, PlatformType::System);

    // an explicitly empty input list survives through the no-inputs marker
    let mut empty_inputs = TaskConfig::new();
    empty_inputs.command = TaskCommandArgs::Line("noop".to_owned());
    empty_inputs.inputs = Some(vec![]);
    let marked = task_from(&empty_inputs);
    assert_eq!(marked.to_config().inputs, Some(vec![]));

    // no input list at all writes back as none
    let mut no_inputs = TaskConfig::new();
    no_inputs.command = TaskCommandArgs::Line("noop".to_owned());
    let unmarked = task_from(&no_inputs);
    assert_eq!(unmarked.to_config().inputs, None);
}

#[test]
fn no_inputs_flag_always_affected() {
    let mut config = TaskConfig::new();
    config.command = TaskCommandArgs::Line("noop".to_owned());
    config.inputs = Some(vec![]);
    let task = task_from(&config);
    assert!(task.flags.contains(&TaskFlag::NoInputs));
    let touched = StrSet::new();
    let env: KeyMap<String> = KeyMap::new();
    assert!(task.is_affected(&touched, &env).expect("no globs to fail"));
}

#[test]
fn missing_inputs_expand_to_whole_project() {
    let mut config = TaskConfig::new();
    config.command = TaskCommandArgs::Line("noop".to_owned());
    let mut task = task_from(&config);
    let groups: KeyMap<Vec<String>> = KeyMap::new();
    let vars: KeyMap<String> = KeyMap::new();
    expand_task_inputs(&mut task, &Vec::new(), &groups, &"p".to_owned(), &vars)
        .expect("expansion succeeds");
    assert_eq!(task.inputs, vec!["**/*".to_owned()]);
    assert!(task.global_inputs.contains(&"/.moon/*.yml".to_owned()));
}

#[test]
fn inputs_token_expansion() {
    let mut config = TaskConfig::new();
    config.command = TaskCommandArgs::Line("noop".to_owned());
    config.inputs = Some(vec![
        "@group(sources)".to_owned(),
        "$CI".to_owned(),
        "src/**/*.ts".to_owned(),
    ]);
    let mut task = task_from(&config);
    let mut groups: KeyMap<Vec<String>> = KeyMap::new();
    groups.insert("sources", vec!["src".to_owned()]);
    let vars: KeyMap<String> = KeyMap::new();
    expand_task_inputs(&mut task, &Vec::new(), &groups, &"apps/p".to_owned(), &vars)
        .expect("expansion succeeds");
    assert!(task.input_vars.contains("CI"));
    assert!(task.input_globs.contains("apps/p/src/**/*"));
    assert!(task.input_globs.contains("apps/p/src/**/*.ts"));
}

#[test]
fn outputs_override_inputs() {
    let mut config = TaskConfig::new();
    config.command = TaskCommandArgs::Line("make".to_owned());
    config.inputs = Some(vec!["dist/out.js".to_owned()]);
    config.outputs = Some(vec!["dist/out.js".to_owned()]);
    let mut task = task_from(&config);
    let groups: KeyMap<Vec<String>> = KeyMap::new();
    let vars: KeyMap<String> = KeyMap::new();
    let source = "p".to_owned();
    expand_task_inputs(&mut task, &Vec::new(), &groups, &source, &vars).expect("inputs");
    assert!(task.input_paths.contains("p/dist/out.js"));
    expand_task_outputs(&mut task, &groups, &source, &vars).expect("outputs");
    assert!(task.output_paths.contains("p/dist/out.js"));
    assert!(!task.input_paths.contains("p/dist/out.js"));

    // an overlapping glob also moves wholly to the outputs
    let mut config2 = TaskConfig::new();
    config2.command = TaskCommandArgs::Line("make".to_owned());
    config2.inputs = Some(vec!["dist/**/*".to_owned()]);
    config2.outputs = Some(vec!["dist/**/*".to_owned()]);
    let mut task2 = task_from(&config2);
    expand_task_inputs(&mut task2, &Vec::new(), &groups, &source, &vars).expect("inputs");
    assert!(task2.input_globs.contains("p/dist/**/*"));
    expand_task_outputs(&mut task2, &groups, &source, &vars).expect("outputs");
    assert!(task2.output_globs.contains("p/dist/**/*"));
    assert!(!task2.input_globs.contains("p/dist/**/*"));
}

#[test]
fn plain_argument_passes_through() {
    let mut config = TaskConfig::new();
    config.command = TaskCommandArgs::Line("make".to_owned());
    config.args = TaskCommandArgs::List(vec!["--verbose".to_owned(), "all".to_owned()]);
    let mut task = task_from(&config);
    let groups: KeyMap<Vec<String>> = KeyMap::new();
    let vars: KeyMap<String> = KeyMap::new();
    expand_task_args(&mut task, &groups, &"p".to_owned(), &vars).expect("args expand");
    assert_eq!(task.args, vec!["--verbose".to_owned(), "all".to_owned()]);
}

#[test]
fn path_argument_relativized_by_run_location() {
    let mut config = TaskConfig::new();
    config.command = TaskCommandArgs::Line("make".to_owned());
    config.args = TaskCommandArgs::List(vec!["@in(0)".to_owned()]);
    config.inputs = Some(vec!["src/main.ts".to_owned()]);
    let mut task = task_from(&config);
    let groups: KeyMap<Vec<String>> = KeyMap::new();
    let vars: KeyMap<String> = KeyMap::new();
    expand_task_args(&mut task, &groups, &"p".to_owned(), &vars).expect("args expand");
    assert_eq!(task.args, vec!["./src/main.ts".to_owned()]);

    let mut config2 = TaskConfig::new();
    config2.command = TaskCommandArgs::Line("make".to_owned());
    config2.args = TaskCommandArgs::List(vec!["@in(0)".to_owned()]);
    config2.inputs = Some(vec!["src/main.ts".to_owned()]);
    config2.options.run_from_workspace_root = Some(true);
    let mut task2 = task_from(&config2);
    expand_task_args(&mut task2, &groups, &"p".to_owned(), &vars).expect("args expand");
    assert_eq!(task2.args, vec!["./p/src/main.ts".to_owned()]);
}

#[test]
fn missing_env_file_does_not_fail() {
    let read = read_env_file(&"/surely/not/here/.env".to_owned());
    assert!(matches!(read, EnvFileRead::Missing));
    let mut env: KeyMap<String> = KeyMap::new();
    apply_env_file(&mut env, &"/surely/not/here/.env".to_owned(), read)
        .expect("a missing file is skipped");
    assert_eq!(env.len(), 0);
}

#[test]
fn malformed_env_file_fails_with_cause() {
    let mut env: KeyMap<String> = KeyMap::new();
    let err = apply_env_file(
        &mut env,
        &"/ws/p/.env".to_owned(),
        EnvFileRead::Invalid("bad line".to_owned()),
    )
    .expect_err("a malformed file fails");
    match err {
        TaskError::InvalidEnvFile(path, cause) => {
            assert_eq!(path, "/ws/p/.env");
            assert_eq!(cause, "bad line");
        }
        _ => panic!("expected the env file error"),
    }
}

#[test]
fn env_file_entries_never_override_task_env() {
    let mut env: KeyMap<String> = KeyMap::new();
    env.insert("HOST", "from-task".to_owned());
    apply_env_file(
        &mut env,
        &"/ws/p/.env".to_owned(),
        EnvFileRead::Loaded(vec![
            ("HOST".to_owned(), "from-file".to_owned()),
            ("PORT".to_owned(), "8080".to_owned()),
        ]),
    )
    .expect("loads");
    assert_eq!(env.get("HOST").unwrap().as_str(), "from-task");
    assert_eq!(env.get("PORT").unwrap().as_str(), "8080");
}

#[test]
fn graph_hash_is_deterministic() {
    let mut aliases: KeyMap<String> = KeyMap::new();
    aliases.insert("web", "app".to_owned());
    let mut sources: KeyMap<String> = KeyMap::new();
    sources.insert("app", "apps/web".to_owned());
    let mut configs: KeyMap<String> = KeyMap::new();
    configs.insert("apps/web/moon.yml", "abcdef".to_owned());
    let h1 = graph_hash(&aliases, &sources, &configs);
    let h2 = graph_hash(&aliases, &sources, &configs);
    assert_eq!(h1, h2);
    assert_eq!(h1.len(), 16);
}

#[test]
fn preload_merges_and_caches() {
    let mut explicit: KeyMap<String> = KeyMap::new();
    explicit.insert("a", "a".to_owned());
    let mut discovered: KeyMap<String> = KeyMap::new();
    discovered.insert("b", "packages/b".to_owned());
    let aliases: KeyMap<String> = KeyMap::new();
    let configs: KeyMap<String> = KeyMap::new();
    let first = preload(&explicit, &discovered, &aliases, true, &configs, &String::new());
    assert!(first.sources.contains_key("a"));
    assert!(first.sources.contains_key("b"));
    assert!(!first.is_cached);
    let second = preload(&explicit, &discovered, &aliases, true, &configs, &first.hash);
    assert!(second.is_cached);
    let no_vcs = preload(&explicit, &discovered, &aliases, false, &configs, &first.hash);
    assert_eq!(no_vcs.hash, "");
    assert!(!no_vcs.is_cached);
}

#[test]
fn estimator_computes_baseline_and_savings() {
    let mut a = Action::new(0, "A".to_owned(), "t".to_owned());
    a.status = ActionStatus::Passed;
    a.duration_ms = Some(10);
    let mut b = Action::new(1, "B".to_owned(), "t".to_owned());
    b.status = ActionStatus::Passed;
    b.duration_ms = Some(20);
    let mut c = Action::new(2, "C".to_owned(), "t".to_owned());
    c.status = ActionStatus::Cached;
    c.duration_ms = Some(99);
    let estimate = calculate(&vec![a, b, c], 5);
    assert_eq!(estimate.baseline_ms, 30);
    assert_eq!(estimate.savings_ms, Some(25));
}

#[test]
fn status_wire_names() {
    assert_eq!(ActionStatus::CachedFromRemote.label(), "cached-from-remote");
    assert_eq!(ActionStatus::FailedAndAbort.label(), "failed-and-abort");
    assert_eq!(ActionStatus::Passed.label(), "passed");
}

#[test]
fn split_args_honors_quotes() {
    let words = split_args("build 'a b' \"c d\" plain");
    assert_eq!(words, vec!["build", "a b", "c d", "plain"]);
}

#[test]
fn lookup_order_for_node_platform() {
    let order = get_lookup_order(
        &PlatformType::Node,
        &LanguageType::JavaScript,
        &ProjectType::Application,
        &vec![Id::raw("react")],
    );
    assert_eq!(
        order,
        vec![
            "*".to_owned(),
            "node".to_owned(),
            "javascript".to_owned(),
            "node-application".to_owned(),
            "javascript-application".to_owned(),
            "tag-react".to_owned(),
        ]
    );
    assert!(is_js_platform(&PlatformType::Node));
    assert!(!is_js_platform(&PlatformType::Rust));
}

#[test]
fn config_layer_names() {
    assert_eq!(config_layer_name("tasks.yml"), "*");
    assert_eq!(config_layer_name("node.yml"), "node");
    assert_eq!(config_layer_name("README"), "README");
}

#[test]
fn task_platform_detection() {
    assert_eq!(
        detect_task_platform("npm", &LanguageType::Unknown),
        PlatformType::Node
    );
    assert_eq!(
        detect_task_platform("deno", &LanguageType::Unknown),
        PlatformType::Deno
    );
    assert_eq!(
        detect_task_platform("make", &LanguageType::JavaScript),
        PlatformType::Node
    );
}

#[test]
fn emitter_keeps_local_cache_last() {
    let subs = create_emitter(true, Some("https://hooks.example/x".to_owned()), true);
    assert_eq!(subs.len(), 3);
    assert!(matches!(subs[0], Subscriber::Webhooks(_)));
    assert!(matches!(subs[1], Subscriber::RemoteSession));
    assert!(matches!(subs[2], Subscriber::LocalCache));
    let bare = create_emitter(false, None, false);
    assert_eq!(bare.len(), 1);
    assert!(matches!(bare[0], Subscriber::LocalCache));
}

#[test]
fn color_decision_rules() {
    let env = ColorEnv {
        moon_color: Some("0".to_owned()),
        force_color: None,
        clicolor_force: None,
        no_color: false,
        supports_color: 2,
    };
    assert!(matches!(setup_colors(false, &env), ColorDecision::Disable));
    let env2 = ColorEnv {
        moon_color: None,
        force_color: Some("true".to_owned()),
        clicolor_force: None,
        no_color: false,
        supports_color: 2,
    };
    match setup_colors(false, &env2) {
        ColorDecision::Force(level) => assert_eq!(level, "1"),
        _ => panic!("a truthy force level enables color"),
    }
    let env3 = ColorEnv {
        moon_color: None,
        force_color: None,
        clicolor_force: None,
        no_color: true,
        supports_color: 2,
    };
    assert!(matches!(setup_colors(false, &env3), ColorDecision::Disable));
    let env4 = ColorEnv {
        moon_color: None,
        force_color: None,
        clicolor_force: None,
        no_color: false,
        supports_color: 3,
    };
    assert!(matches!(setup_colors(false, &env4), ColorDecision::Auto(3)));
}

#[test]
fn glob_matching_reaches_inputs() {
    let mut config = TaskConfig::new();
    config.command = TaskCommandArgs::Line("make".to_owned());
    config.inputs = Some(vec!["src/**/*.ts".to_owned()]);
    let mut task = task_from(&config);
    let groups: KeyMap<Vec<String>> = KeyMap::new();
    let vars: KeyMap<String> = KeyMap::new();
    expand_task_inputs(&mut task, &Vec::new(), &groups, &"p".to_owned(), &vars).expect("inputs");
    let env: KeyMap<String> = KeyMap::new();
    let mut touched = StrSet::new();
    touched.insert("p/src/deep/file.ts");
    assert!(task.is_affected(&touched, &env).expect("globs parse"));
    let mut unrelated = StrSet::new();
    unrelated.insert("other/readme.md");
    assert!(!task.is_affected(&unrelated, &env).expect("globs parse"));
}

#[test]
fn input_env_var_triggers_affected() {
    let mut config = TaskConfig::new();
    config.command = TaskCommandArgs::Line("make".to_owned());
    config.inputs = Some(vec!["$CI".to_owned()]);
    let mut task = task_from(&config);
    let groups: KeyMap<Vec<String>> = KeyMap::new();
    let vars: KeyMap<String> = KeyMap::new();
    expand_task_inputs(&mut task, &Vec::new(), &groups, &"p".to_owned(), &vars).expect("inputs");
    assert!(task.input_vars.contains("CI"));
    let mut env: KeyMap<String> = KeyMap::new();
    env.insert("CI", "1".to_owned());
    let touched = StrSet::new();
    assert!(task.is_affected(&touched, &env).expect("no glob error"));
}

#[test]
fn starts_with_and_token_vars() {
    assert!(str_starts_with("apps/web/src/a.ts", "apps/web"));
    assert!(!str_starts_with("apps", "apps/web"));
    let mut config = TaskConfig::new();
    config.command = TaskCommandArgs::Line("echo".to_owned());
    config.args = TaskCommandArgs::List(vec!["$project".to_owned()]);
    let mut task = task_from(&config);
    let vars = build_token_vars_fields(
        &Id::raw("web"),
        &"apps/web".to_owned(),
        &ProjectType::Application,
        &LanguageType::JavaScript,
        &"/ws".to_owned(),
        &task,
    );
    let groups: KeyMap<Vec<String>> = KeyMap::new();
    expand_task_args(&mut task, &groups, &"apps/web".to_owned(), &vars).expect("args");
    assert_eq!(task.args, vec!["web".to_owned()]);
}

#[test]
fn task_kind_predicates() {
    let mut config = TaskConfig::new();
    config.command = TaskCommandArgs::Line("noop".to_owned());
    let task = task_from(&config);
    assert!(task.is_no_op());
    assert!(task.is_test_type());
    assert!(!task.is_persistent());
    assert!(task.should_run_in_ci());
    let mut local = TaskConfig::new();
    local.command = TaskCommandArgs::Line("dev".to_owned());
    let dev = task_from(&local);
    assert!(dev.is_run_type());
    assert!(dev.is_persistent());
    assert!(!dev.should_run_in_ci());
}

#[test]
fn get_affected_files_relativizes() {
    let mut config = TaskConfig::new();
    config.command = TaskCommandArgs::Line("make".to_owned());
    config.inputs = Some(vec!["src/a.ts".to_owned()]);
    let mut task = task_from(&config);
    let groups: KeyMap<Vec<String>> = KeyMap::new();
    let vars: KeyMap<String> = KeyMap::new();
    expand_task_inputs(&mut task, &Vec::new(), &groups, &"p".to_owned(), &vars).expect("inputs");
    let mut touched = StrSet::new();
    touched.insert("p/src/a.ts");
    touched.insert("q/src/b.ts");
    let files = task
        .get_affected_files(&touched, "p")
        .expect("globs parse");
    assert_eq!(files, vec!["./src/a.ts".to_owned()]);
}
