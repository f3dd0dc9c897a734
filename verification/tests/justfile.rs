use just::justfile::{HookKind, Justfile, JustfileError};
use just::plan::{plan, plan_run, Invocation, Step};
use just::execute::{
    begins_recipe_at, ends_recipe_at, line_failure_message, next_action, no_hooks_from_env, RunAction, StepOutcome,
};

fn commands(steps: &[Step]) -> Vec<String> {
    steps.iter().map(|s| s.command.clone()).collect()
}

#[test]
fn parse_reads_recipes_hooks_and_lines() {
    let text = "# a comment\n[private]\n[before(\"build\")]\n[after(\"test\")]\nlint: fmt && report\n    cargo clippy\n\t@echo done\n\nfmt:\n  cargo fmt\nreport:\nbuild:\ntest:\n";
    let jf = Justfile::parse(text).unwrap();
    let rs = jf.recipes();
    assert_eq!(rs.len(), 5);
    assert_eq!(rs[0].name, "lint");
    assert_eq!(rs[0].prior, vec!["fmt".to_string()]);
    assert_eq!(rs[0].subsequent, vec!["report".to_string()]);
    assert_eq!(rs[0].hooks.len(), 2);
    assert_eq!(rs[0].hooks[0].kind, HookKind::Before);
    assert_eq!(rs[0].hooks[0].target, "build");
    assert_eq!(rs[0].hooks[1].kind, HookKind::After);
    assert_eq!(rs[0].lines.len(), 2);
    assert_eq!(rs[0].lines[0].command, "cargo clippy");
    assert!(!rs[0].lines[0].quiet);
    assert_eq!(rs[0].lines[1].command, "echo done");
    assert!(rs[0].lines[1].quiet);
}

#[test]
fn parse_reports_the_line_that_cannot_be_read() {
    let e = Justfile::parse("a:\n  echo\nx := 1\n").unwrap_err();
    assert!(matches!(e, JustfileError::Syntax { line: 3 }));
    assert_eq!(e.message(), "Syntax error on line 3");
    let e2 = Justfile::parse("  echo\n").unwrap_err();
    assert!(matches!(e2, JustfileError::Syntax { line: 1 }));
    let e3 = Justfile::parse("a:\n[before(\"a\")]\n").unwrap_err();
    assert!(matches!(e3, JustfileError::Syntax { line: 3 }));
    let e4 = Justfile::parse("[before]\na:\n").unwrap_err();
    assert!(matches!(e4, JustfileError::Syntax { line: 1 }));
    let e5 = Justfile::parse("a: b &&\nb:\n[before(\"a\")]\n  x\n").unwrap_err();
    assert!(matches!(e5, JustfileError::Syntax { line: 4 }));
}

#[test]
fn check_reports_duplicates_and_unknown_dependencies() {
    let e = Justfile::parse("a:\nb:\na:\n").unwrap_err();
    assert_eq!(e.message(), "Recipe `a` is defined more than once");
    let e2 = Justfile::parse("a: b c\nb:\n").unwrap_err();
    assert_eq!(e2.message(), "Recipe `a` has unknown dependency `c`");
    let e3 = Justfile::parse("[after(\"zz\")]\na:\n").unwrap_err();
    assert_eq!(e3.message(), "Hook recipe `a` targets unknown recipe `zz`");
    assert_eq!(e3.exit_code(), 1);
}

#[test]
fn interaction_with_dependencies() {
    let text = "[before(\"build\")]\nsetup:\n    @echo 'hook: setup'\n\nbuild: fetch-deps && cleanup\n    @echo 'build'\n\nfetch-deps:\n    @echo 'dep: fetch-deps'\n\ncleanup:\n    @echo 'dep: cleanup'\n";
    let steps = plan_run(text, &["build"]).unwrap();
    assert_eq!(
        commands(&steps),
        vec!["echo 'hook: setup'", "echo 'dep: fetch-deps'", "echo 'build'", "echo 'dep: cleanup'"]
    );
    assert!(steps[0].context.is_some());
    assert!(steps[1].context.is_none());
    assert!(steps[2].context.is_none());
}

#[test]
fn hooks_run_for_dependencies_of_other_recipes() {
    let text = "[before(\"test\")]\nsetup:\n    @echo 'setup'\n\nci: test\n    @echo 'ci done'\n\ntest:\n    @echo 'test'\n";
    let steps = plan_run(text, &["ci"]).unwrap();
    assert_eq!(commands(&steps), vec!["echo 'setup'", "echo 'test'", "echo 'ci done'"]);
    let ctx = steps[0].context.as_ref().unwrap();
    assert_eq!(ctx.target, "test");
}

#[test]
fn multiple_hooks_run_in_file_order() {
    let text = "[before(\"deploy\")]\nlint:\n  l\n[before(\"deploy\")]\ntest:\n  t\n[after(\"deploy\")]\nnotify-slack:\n  n\n[after(\"deploy\")]\nupdate-status:\n  u\ndeploy:\n  d\n";
    let steps = plan_run(text, &["deploy"]).unwrap();
    assert_eq!(commands(&steps), vec!["l", "t", "d", "n", "u"]);
}

#[test]
fn a_hook_of_several_targets_runs_before_each() {
    let text = "[before(\"build\")]\n[before(\"test\")]\ncheck:\n  c\nbuild:\n  b\ntest:\n  t\n";
    let steps = plan_run(text, &["build", "test"]).unwrap();
    assert_eq!(commands(&steps), vec!["c", "b", "c", "t"]);
    assert_eq!(steps[0].context.as_ref().unwrap().target, "build");
    assert_eq!(steps[2].context.as_ref().unwrap().target, "test");
}

#[test]
fn no_hooks_leaves_every_step_without_context() {
    let text = "[before(\"a\")]\nh:\n  h\na: b\n  a\n[after(\"b\")]\nk:\n  k\nb:\n  b\n";
    let steps = plan_run(text, &["--no-hooks", "a"]).unwrap();
    assert_eq!(commands(&steps), vec!["b", "a"]);
    assert!(steps.iter().all(|s| s.context.is_none()));
    let hooked = plan_run(text, &["a"]).unwrap();
    assert_eq!(commands(&hooked), vec!["h", "b", "k", "a"]);
}

#[test]
fn first_recipe_runs_by_default() {
    let steps = plan_run("first:\n  one\nsecond:\n  two\n", &[]).unwrap();
    assert_eq!(commands(&steps), vec!["one"]);
}

#[test]
fn invocation_errors() {
    let e = plan_run("a:\n", &["--bogus"]).unwrap_err();
    assert_eq!(e.message(), "Unknown option `--bogus`");
    let e2 = plan_run("a:\n", &["b"]).unwrap_err();
    assert_eq!(e2.message(), "Justfile does not contain recipe `b`");
    let e3 = plan_run("\n# nothing\n", &[]).unwrap_err();
    assert!(matches!(e3, JustfileError::NoRecipes));
    assert_eq!(e3.message(), "Justfile contains no recipes");
}

#[test]
fn cycles_through_hooks_are_reported() {
    let e = plan_run("[before(\"a\")]\nh: a\na:\n  x\n", &["a"]).unwrap_err();
    assert_eq!(e.message(), "Recipe `a` has circular dependency");
    let e2 = plan_run("a: a\n", &["a"]).unwrap_err();
    assert!(matches!(e2, JustfileError::CircularDependency { .. }));
}

#[test]
fn after_hook_context_carries_status_zero() {
    let jf = Justfile::parse("[after(\"b\")]\na:\n  x\nb:\n  y\n").unwrap();
    let inv = Invocation::from_args(&["b"]).unwrap();
    let steps = plan(&jf, &inv).unwrap();
    assert_eq!(commands(&steps), vec!["y", "x"]);
    let ctx = steps[1].context.as_ref().unwrap();
    assert_eq!(ctx.target, "b");
    assert_eq!(ctx.hook_type, just::hook_context::HookType::After { status: 0 });
    assert_eq!(steps[1].recipe, "a");
}

#[test]
fn continued_lines_join() {
    let text = "[after(\"build\")]\nreport:\n    curl -X POST \"$URL\" \\\n      -d '{}'\n    @echo two\nbuild:\n  b\n";
    let jf = Justfile::parse(text).unwrap();
    let r = &jf.recipes()[0];
    assert_eq!(r.lines.len(), 2);
    assert_eq!(r.lines[0].command, "curl -X POST \"$URL\" -d '{}'");
    assert!(!r.lines[0].quiet);
    assert_eq!(r.lines[1].command, "echo two");
}

#[test]
fn executor_stops_at_the_first_failure() {
    assert!(matches!(next_action(3, 0, StepOutcome::Start), RunAction::Run { index: 0 }));
    assert!(matches!(next_action(3, 1, StepOutcome::Succeeded), RunAction::Run { index: 1 }));
    assert!(matches!(next_action(3, 3, StepOutcome::Succeeded), RunAction::Finish));
    assert!(matches!(next_action(0, 0, StepOutcome::Start), RunAction::Finish));
    assert!(matches!(next_action(3, 1, StepOutcome::Failed { code: Some(4) }), RunAction::Fail { code: 4 }));
    assert!(matches!(next_action(3, 1, StepOutcome::Failed { code: None }), RunAction::Fail { code: 1 }));
    assert_eq!(line_failure_message("build", 2), "Recipe `build` failed on line with exit code 2");
}

#[test]
fn failing_recipe_line_skips_its_after_hooks() {
    let steps = plan_run("[after(\"b\")]\na:\n  after\nb:\n  one\n  two\n", &["b"]).unwrap();
    assert_eq!(commands(&steps), vec!["one", "two", "after"]);
    let outcomes = [StepOutcome::Failed { code: Some(3) }, StepOutcome::Succeeded, StepOutcome::Succeeded];
    let mut done = 0;
    let mut last = StepOutcome::Start;
    let mut ran = Vec::new();
    let end = loop {
        match next_action(steps.len(), done, last) {
            RunAction::Run { index } => {
                ran.push(steps[index].command.clone());
                last = outcomes[index];
                done = index + 1;
            },
            other => break other,
        }
    };
    assert_eq!(ran, vec!["one"]);
    assert!(matches!(end, RunAction::Fail { code: 3 }));
}

#[test]
fn recipe_boundaries() {
    let steps = plan_run("a: b\n  x\n  y\nb:\n  z\n", &["a"]).unwrap();
    assert_eq!(commands(&steps), vec!["z", "x", "y"]);
    assert!(begins_recipe_at(&steps, 0) && ends_recipe_at(&steps, 0));
    assert!(begins_recipe_at(&steps, 1) && !ends_recipe_at(&steps, 1));
    assert!(!begins_recipe_at(&steps, 2) && ends_recipe_at(&steps, 2));
}

#[test]
fn no_hooks_environment_values() {
    assert!(no_hooks_from_env(Some("true")));
    assert!(no_hooks_from_env(Some("TRUE")));
    assert!(no_hooks_from_env(Some("1")));
    assert!(no_hooks_from_env(Some("Yes")));
    assert!(!no_hooks_from_env(Some("false")));
    assert!(!no_hooks_from_env(Some("")));
    assert!(!no_hooks_from_env(None));
    let jf = Justfile::parse("[before(\"b\")]\na:\n  hook\nb:\n  main\n").unwrap();
    let mut inv = Invocation::from_args(&["b"]).unwrap();
    inv.apply_no_hooks_env(Some("true"));
    assert!(inv.no_hooks);
    assert_eq!(commands(&plan(&jf, &inv).unwrap()), vec!["main"]);
}
