//! The decisions of executing a plan: which step runs next, when the run ends,
//! and where a recipe's run begins and ends for the live events.
//!
//! Executing the steps themselves (spawning the shell) lives outside the
//! library: it runs the step that `next_action` names and hands back its outcome.

use vstd::prelude::*;
use vstd::string::StringExecFns;
use crate::decimal::int_decimal;
use crate::plan::{steps_view, Step, StepView};
use crate::text::chars_of;

verus! {

/// What the previous step came to.
#[derive(Clone, Copy, Debug)]
pub enum StepOutcome {
    /// No step has run yet.
    Start,
    Succeeded,
    /// The step's command failed, with its exit code where it has one.
    Failed { code: Option<i32> },
}

/// What the run does next.
#[derive(Clone, Copy, Debug)]
pub enum RunAction {
    /// Run the step at this index.
    Run { index: usize },
    /// All steps succeeded: the run ends well.
    Finish,
    /// A step failed: the run ends with this exit status, and no other step runs.
    Fail { code: i32 },
}

/// The action after `done` of `step_count` steps, the last of which came to `last`:
/// a failure ends the run with the step's exit code (1 where it has none);
/// otherwise the next step runs, or the run finishes once all have run.
pub open spec fn next_action_spec(step_count: nat, done: nat, last: StepOutcome) -> RunAction {
    match last {
        StepOutcome::Failed { code } => RunAction::Fail {
            code: match code {
                Some(c) => c,
                None => 1,
            },
        },
        _ => if done < step_count {
            RunAction::Run { index: done as usize }
        } else {
            RunAction::Finish
        },
    }
}

/// The action after `done` of `step_count` steps, the last of which came to `last`.
pub fn next_action(step_count: usize, done: usize, last: StepOutcome) -> (r: RunAction)
    requires
        done <= step_count,
    ensures
        r == next_action_spec(step_count as nat, done as nat, last),
{
    match last {
        StepOutcome::Failed { code } => RunAction::Fail {
            code: match code {
                Some(c) => c,
                None => 1,
            },
        },
        _ => if done < step_count {
            RunAction::Run { index: done }
        } else {
            RunAction::Finish
        },
    }
}

/// How a run with `step_count` steps proceeds from `done` steps, the last of
/// which came to `last`, where step `k` comes to `outcomes[k]`: the number of
/// steps that run, and how the run ends.
pub open spec fn drive(step_count: nat, outcomes: Seq<StepOutcome>, done: nat, last: StepOutcome) -> (nat, RunAction)
    decreases step_count - done,
{
    match next_action_spec(step_count, done, last) {
        RunAction::Run { index } => if done < step_count && done < outcomes.len() {
            drive(step_count, outcomes, done + 1, outcomes[done as int])
        } else {
            (done, RunAction::Finish)
        },
        a => (done, a),
    }
}

/// The first step from `k` on whose outcome is a failure.
pub open spec fn first_failure_from(outcomes: Seq<StepOutcome>, k: nat) -> Option<nat>
    decreases outcomes.len() - k,
{
    if k >= outcomes.len() {
        None
    } else if outcomes[k as int] is Failed {
        Some(k)
    } else {
        first_failure_from(outcomes, k + 1)
    }
}

/// The exit status of a failed step.
pub open spec fn failure_code(o: StepOutcome) -> i32 {
    match o {
        StepOutcome::Failed { code } => match code {
            Some(c) => c,
            None => 1,
        },
        _ => 1,
    }
}

proof fn lemma_drive_from(step_count: nat, outcomes: Seq<StepOutcome>, done: nat)
    requires
        outcomes.len() == step_count,
        done <= step_count,
        forall|j: int| 0 <= j < step_count ==> !(#[trigger] outcomes[j] is Start),
    ensures
        drive(step_count, outcomes, done, StepOutcome::Succeeded) == match first_failure_from(outcomes, done) {
            Some(i) => (i + 1, RunAction::Fail { code: failure_code(outcomes[i as int]) }),
            None => (step_count, RunAction::Finish),
        },
    decreases step_count - done,
{
    if done < step_count {
        let o = outcomes[done as int];
        assert(next_action_spec(step_count, done, StepOutcome::Succeeded) == RunAction::Run { index: done as usize });
        assert(drive(step_count, outcomes, done, StepOutcome::Succeeded) == drive(step_count, outcomes, done + 1, o));
        if o is Failed {
            assert(first_failure_from(outcomes, done) == Some(done));
            assert(next_action_spec(step_count, done + 1, o) == RunAction::Fail { code: failure_code(o) });
        } else {
            assert(o is Succeeded);
            assert(first_failure_from(outcomes, done) == first_failure_from(outcomes, done + 1));
            lemma_drive_from(step_count, outcomes, done + 1);
        }
    } else {
        assert(first_failure_from(outcomes, done) is None);
        assert(next_action_spec(step_count, done, StepOutcome::Succeeded) == RunAction::Finish);
    }
}

/// A run stops at its first failing step: the steps before it and the failing
/// step run, no step after it runs, and the run ends with the failing step's
/// exit status; where no step fails, all run and the run finishes.
pub proof fn lemma_run_stops_at_first_failure(step_count: nat, outcomes: Seq<StepOutcome>)
    requires
        outcomes.len() == step_count,
        forall|j: int| 0 <= j < step_count ==> !(#[trigger] outcomes[j] is Start),
    ensures
        drive(step_count, outcomes, 0, StepOutcome::Start) == match first_failure_from(outcomes, 0) {
            Some(i) => (i + 1, RunAction::Fail { code: failure_code(outcomes[i as int]) }),
            None => (step_count, RunAction::Finish),
        },
{
    lemma_drive_from(step_count, outcomes, 0);
    assert(next_action_spec(step_count, 0, StepOutcome::Start) == next_action_spec(step_count, 0, StepOutcome::Succeeded));
}

/// The next step to run is always the one after those done: no step is skipped or run twice.
pub proof fn lemma_steps_run_in_order(step_count: nat, done: nat, last: StepOutcome)
    ensures
        next_action_spec(step_count, done, last) matches RunAction::Run { index } ==> index == done as usize && done < step_count,
{
}

/// A failing step at `j` makes the first failure from any earlier `k` come no later than `j`.
pub proof fn lemma_first_failure_before(outcomes: Seq<StepOutcome>, k: nat, j: nat)
    requires
        k <= j < outcomes.len(),
        outcomes[j as int] is Failed,
    ensures
        first_failure_from(outcomes, k) matches Some(f) && k <= f <= j,
    decreases j - k,
{
    if !(outcomes[k as int] is Failed) {
        lemma_first_failure_before(outcomes, k + 1, j);
    }
}

/// Where the step at `j` fails, at most the first `j + 1` steps run.
pub proof fn lemma_failure_bounds_run(step_count: nat, outcomes: Seq<StepOutcome>, j: nat)
    requires
        outcomes.len() == step_count,
        forall|i: int| 0 <= i < step_count ==> !(#[trigger] outcomes[i] is Start),
        j < step_count,
        outcomes[j as int] is Failed,
    ensures
        drive(step_count, outcomes, 0, StepOutcome::Start).0 <= j + 1,
        drive(step_count, outcomes, 0, StepOutcome::Start).1 is Fail,
{
    lemma_run_stops_at_first_failure(step_count, outcomes);
    lemma_first_failure_before(outcomes, 0, j);
}

/// Whether step `i` begins a run of its recipe: it is the first step, or the
/// step before belongs to another recipe.
pub open spec fn begins_recipe(steps: Seq<StepView>, i: int) -> bool {
    i == 0 || steps[i - 1].recipe != steps[i].recipe
}

/// Whether step `i` ends a run of its recipe: it is the last step, or the step
/// after belongs to another recipe.
pub open spec fn ends_recipe(steps: Seq<StepView>, i: int) -> bool {
    i == steps.len() - 1 || steps[i + 1].recipe != steps[i].recipe
}

/// Whether step `i` begins a run of its recipe.
pub fn begins_recipe_at(steps: &Vec<Step>, i: usize) -> (r: bool)
    requires
        i < steps.len(),
    ensures
        r == begins_recipe(steps_view(steps@), i as int),
{
    i == 0 || steps[i - 1].recipe != steps[i].recipe
}

/// Whether step `i` ends a run of its recipe.
pub fn ends_recipe_at(steps: &Vec<Step>, i: usize) -> (r: bool)
    requires
        i < steps.len(),
    ensures
        r == ends_recipe(steps_view(steps@), i as int),
{
    i + 1 == steps.len() || steps[i + 1].recipe != steps[i].recipe
}

/// The message that reports a failed command line.
pub open spec fn failure_message(recipe: Seq<char>, code: i32) -> Seq<char> {
    "Recipe `"@ + recipe + "` failed on line with exit code "@ + int_decimal(code as int)
}

/// The message that reports a failed command line.
pub fn line_failure_message(recipe: &str, code: i32) -> (r: String)
    ensures
        r@ == failure_message(recipe@, code),
{
    let mut r = String::from_str("Recipe `");
    r.append(recipe);
    r.append("` failed on line with exit code ");
    let digits = crate::decimal::i32_to_string(code);
    r.append(digits.as_str());
    r
}

/// The code of a character in lower case, where it is an ASCII letter.
pub open spec fn lower_code(u: u32) -> u32 {
    if 65 <= u && u <= 90 {
        (u + 32) as u32
    } else {
        u
    }
}

/// Whether `v` is `word`, ignoring the case of ASCII letters; `word` is in lower case.
pub open spec fn eq_ignore_case(v: Seq<char>, word: Seq<char>) -> bool {
    v.len() == word.len() && forall|j: int| 0 <= j < v.len() ==> lower_code(#[trigger] v[j] as u32) == word[j] as u32
}

/// Whether a flag's environment value turns the flag on: `1`, `true`, `yes`,
/// `on`, `y` or `t`, in any case of ASCII letters.
pub open spec fn is_truthy(v: Seq<char>) -> bool {
    eq_ignore_case(v, "1"@) || eq_ignore_case(v, "true"@) || eq_ignore_case(v, "yes"@)
        || eq_ignore_case(v, "on"@) || eq_ignore_case(v, "y"@) || eq_ignore_case(v, "t"@)
}

fn eq_ignore_case_exec(a: &Vec<char>, word: &str) -> (r: bool)
    ensures
        r == eq_ignore_case(a@, word@),
{
    let w = chars_of(word);
    if a.len() != w.len() {
        return false;
    }
    let mut i: usize = 0;
    while i < a.len()
        invariant
            i <= a.len(),
            a.len() == w.len(),
            w@ == word@,
            forall|j: int| 0 <= j < i ==> lower_code(#[trigger] a@[j] as u32) == word@[j] as u32,
        decreases a.len() - i,
    {
        let u = a[i] as u32;
        let l = if 65 <= u && u <= 90 { u + 32 } else { u };
        if l != w[i] as u32 {
            assert(lower_code(a@[i as int] as u32) != word@[i as int] as u32);
            return false;
        }
        i = i + 1;
    }
    true
}

/// Whether `--no-hooks` is turned on through the environment, where `value` is
/// that of `JUST_NO_HOOKS`, if set.
pub fn no_hooks_from_env(value: Option<&str>) -> (r: bool)
    ensures
        r == (value matches Some(v) && is_truthy(v@)),
{
    match value {
        None => false,
        Some(v) => {
            let cs = chars_of(v);
            eq_ignore_case_exec(&cs, "1") || eq_ignore_case_exec(&cs, "true") || eq_ignore_case_exec(&cs, "yes")
                || eq_ignore_case_exec(&cs, "on") || eq_ignore_case_exec(&cs, "y") || eq_ignore_case_exec(&cs, "t")
        },
    }
}

} // verus!
