use just::hook_context::CommandEnv;
use just::plan::plan_run;

/// The justfile text without the indentation that the test source gives it, and
/// without the blank first and last lines.
fn unindent(text: &str) -> String {
    let mut lines: Vec<&str> = text.split('\n').collect();
    if lines.first().map_or(false, |l| l.trim().is_empty()) {
        lines.remove(0);
    }
    if lines.last().map_or(false, |l| l.trim().is_empty()) {
        lines.pop();
    }
    let indent = lines
        .iter()
        .filter(|l| !l.trim().is_empty())
        .map(|l| l.len() - l.trim_start().len())
        .min()
        .unwrap_or(0);
    let mut out = String::new();
    for line in lines {
        if line.len() >= indent {
            out.push_str(&line[indent..]);
        }
        out.push('\n');
    }
    out
}

/// What `echo` prints for a command line of the tests' justfiles: single-quoted
/// text as it is; double-quoted and bare text with `$NAME`, `${NAME}` and
/// `${NAME:-default}` expanded from the environment.
fn echo(command: &str, env: &CommandEnv) -> String {
    let rest = command.strip_prefix("echo ").expect("the tests' recipes only echo");
    let chars: Vec<char> = rest.chars().collect();
    let mut out = String::new();
    let mut i = 0;
    let mut in_double = false;
    while i < chars.len() {
        let c = chars[i];
        if c == '\'' && !in_double {
            i += 1;
            while i < chars.len() && chars[i] != '\'' {
                out.push(chars[i]);
                i += 1;
            }
            i += 1;
        } else if c == '"' {
            in_double = !in_double;
            i += 1;
        } else if c == '$' {
            i += 1;
            let (name, default) = if i < chars.len() && chars[i] == '{' {
                let close = (i..chars.len()).find(|&k| chars[k] == '}').unwrap();
                let inner: String = chars[i + 1..close].iter().collect();
                i = close + 1;
                match inner.split_once(":-") {
                    Some((n, d)) => (n.to_string(), Some(d.to_string())),
                    None => (inner, None),
                }
            } else {
                let start = i;
                while i < chars.len() && (chars[i].is_ascii_alphanumeric() || chars[i] == '_') {
                    i += 1;
                }
                (chars[start..i].iter().collect(), None)
            };
            match env.get(&name) {
                Some(v) if !v.is_empty() => out.push_str(&v),
                _ => out.push_str(&default.unwrap_or_default()),
            }
        } else {
            out.push(c);
            i += 1;
        }
    }
    out.push('\n');
    out
}

struct Outcome {
    stdout: String,
    stderr: String,
    status: i32,
}

fn run(justfile: &str, args: &[&str]) -> Outcome {
    let text = unindent(justfile);
    match plan_run(&text, args) {
        Ok(steps) => {
            let mut stdout = String::new();
            for step in &steps {
                let mut env = CommandEnv::new();
                if let Some(ctx) = &step.context {
                    ctx.export(&mut env);
                }
                stdout.push_str(&echo(&step.command, &env));
            }
            Outcome { stdout, stderr: String::new(), status: 0 }
        },
        Err(e) => Outcome { stdout: String::new(), stderr: format!("error: {}\n", e.message()), status: e.exit_code() },
    }
}

#[test]
fn before_hook_runs_before_recipe() {
    let o = run(
        "
        [before(\"foo\")]
        setup:
          @echo 'before'

        foo:
          @echo 'main'
      ",
        &["foo"],
    );
    assert_eq!(o.stdout, "before\nmain\n");
    assert_eq!(o.status, 0);
}

#[test]
fn after_hook_runs_after_recipe() {
    let o = run(
        "
        [after(\"foo\")]
        cleanup:
          @echo 'after'

        foo:
          @echo 'main'
      ",
        &["foo"],
    );
    assert_eq!(o.stdout, "main\nafter\n");
    assert_eq!(o.status, 0);
}

#[test]
fn before_and_after_hooks() {
    let o = run(
        "
        [before(\"foo\")]
        setup:
          @echo 'before'

        [after(\"foo\")]
        cleanup:
          @echo 'after'

        foo:
          @echo 'main'
      ",
        &["foo"],
    );
    assert_eq!(o.stdout, "before\nmain\nafter\n");
    assert_eq!(o.status, 0);
}

#[test]
fn no_hooks_flag_skips_hooks() {
    let o = run(
        "
        [before(\"foo\")]
        setup:
          @echo 'before'

        [after(\"foo\")]
        cleanup:
          @echo 'after'

        foo:
          @echo 'main'
      ",
        &["--no-hooks", "foo"],
    );
    assert_eq!(o.stdout, "main\n");
    assert_eq!(o.status, 0);
}

#[test]
fn multiple_before_hooks() {
    let o = run(
        "
        [before(\"foo\")]
        setup-a:
          @echo 'before-a'

        [before(\"foo\")]
        setup-b:
          @echo 'before-b'

        foo:
          @echo 'main'
      ",
        &["foo"],
    );
    assert_eq!(o.stdout, "before-a\nbefore-b\nmain\n");
    assert_eq!(o.status, 0);
}

#[test]
fn hooks_with_dependencies() {
    let o = run(
        "
        [before(\"foo\")]
        setup:
          @echo 'before'

        foo: bar
          @echo 'main'

        bar:
          @echo 'bar'
      ",
        &["foo"],
    );
    assert_eq!(o.stdout, "before\nbar\nmain\n");
    assert_eq!(o.status, 0);
}

#[test]
fn hook_targets_unknown_recipe() {
    let o = run(
        "
        [before(\"nonexistent\")]
        setup:
          @echo 'before'
      ",
        &["setup"],
    );
    assert!(o.stderr.contains("Hook recipe `setup` targets unknown recipe `nonexistent`"));
    assert_eq!(o.status, 1);
}

#[test]
fn hook_recipe_can_be_run_directly() {
    let o = run(
        "
        [before(\"foo\")]
        setup:
          @echo 'setup'

        foo:
          @echo 'main'
      ",
        &["setup"],
    );
    assert_eq!(o.stdout, "setup\n");
    assert_eq!(o.status, 0);
}

#[test]
fn hooks_do_not_run_on_dependency_recipes() {
    let o = run(
        "
        [before(\"bar\")]
        setup:
          @echo 'before-bar'

        foo: bar
          @echo 'foo'

        bar:
          @echo 'bar'
      ",
        &["foo"],
    );
    assert_eq!(o.stdout, "before-bar\nbar\nfoo\n");
    assert_eq!(o.status, 0);
}

#[test]
fn before_hook_receives_target_context() {
    let o = run(
        "
        [before(\"build\")]
        setup:
          @echo \"target=$JUST_HOOK_TARGET type=$JUST_HOOK_TYPE\"

        build:
          @echo 'building'
      ",
        &["build"],
    );
    assert_eq!(o.stdout, "target=build type=before\nbuilding\n");
    assert_eq!(o.status, 0);
}

#[test]
fn after_hook_receives_target_context() {
    let o = run(
        "
        [after(\"build\")]
        cleanup:
          @echo \"target=$JUST_HOOK_TARGET type=$JUST_HOOK_TYPE status=$JUST_HOOK_STATUS\"

        build:
          @echo 'building'
      ",
        &["build"],
    );
    assert_eq!(o.stdout, "building\ntarget=build type=after status=0\n");
    assert_eq!(o.status, 0);
}

#[test]
fn hook_context_not_set_for_direct_invocation() {
    let o = run(
        "
        [before(\"build\")]
        setup:
          @echo \"target=${JUST_HOOK_TARGET:-unset}\"

        build:
          @echo 'building'
      ",
        &["setup"],
    );
    assert_eq!(o.stdout, "target=unset\n");
    assert_eq!(o.status, 0);
}

#[test]
fn hook_on_multiple_targets_receives_correct_context() {
    let o = run(
        "
        [before(\"build\")]
        [before(\"test\")]
        check:
          @echo \"before:$JUST_HOOK_TARGET\"

        build:
          @echo 'building'

        test:
          @echo 'testing'
      ",
        &["build"],
    );
    assert_eq!(o.stdout, "before:build\nbuilding\n");
    assert_eq!(o.status, 0);
}
