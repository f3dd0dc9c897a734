//! What a run of a justfile executes, and in which order, with its hooks.
//!
//! Running a recipe runs, in order: the recipes that hook in before it, each
//! with the context `before` of the recipe; its dependencies before `&&`; its
//! own command lines; its dependencies after `&&`; and the recipes that hook in
//! after it, each with the context `after` of the recipe and its exit status
//! 0. Hooks of a recipe run in the order of the justfile. A recipe's hooks run
//! also where it runs as a dependency, and a hook recipe is a recipe like any
//! other: its own dependencies and hooks run with it. Run directly, or as a
//! dependency, a recipe has no hook context. With `--no-hooks`, no hook runs.
//!
//! The execution stops at the first command that fails, so the after hooks of
//! a recipe run only where the recipe succeeded.

use vstd::prelude::*;
use vstd::string::StringExecFns;
use crate::hook_context::{HookContext, HookContextView, HookType};
use crate::justfile::{
    has_recipe, recipes_view, HookKind, HookView, Justfile, JustfileError, JustfileErrorView, LineView,
    Recipe, RecipeView,
};
use crate::live_event::strs_view;

verus! {

/// One command line to execute: the recipe it belongs to, the command, whether
/// it is quiet, and the hook context it runs in, if any.
#[derive(Debug)]
pub struct Step {
    pub recipe: String,
    pub command: String,
    pub quiet: bool,
    pub context: Option<HookContext>,
}

pub struct StepView {
    pub recipe: Seq<char>,
    pub command: Seq<char>,
    pub quiet: bool,
    pub context: Option<HookContextView>,
}

/// The value of an optional hook context.
pub open spec fn ctx_view(c: Option<HookContext>) -> Option<HookContextView> {
    match c {
        Some(h) => Some(h@),
        None => None,
    }
}

impl View for Step {
    type V = StepView;

    open spec fn view(&self) -> StepView {
        StepView {
            recipe: self.recipe@,
            command: self.command@,
            quiet: self.quiet,
            context: ctx_view(self.context),
        }
    }
}

/// The values of a list of steps.
pub open spec fn steps_view(v: Seq<Step>) -> Seq<StepView> {
    v.map_values(|s: Step| s@)
}

/// Where the recipe named `name` first stands.
pub open spec fn find_recipe(rs: Seq<RecipeView>, name: Seq<char>) -> Option<int> {
    if exists|i: int| 0 <= i < rs.len() && rs[i].name == name && forall|j: int| 0 <= j < i ==> rs[j].name != name {
        Some(choose|i: int| 0 <= i < rs.len() && rs[i].name == name && forall|j: int| 0 <= j < i ==> rs[j].name != name)
    } else {
        None
    }
}

/// Whether the recipe has a hook of the kind on `target`.
pub open spec fn hooks_into(r: RecipeView, kind: HookKind, target: Seq<char>) -> bool {
    exists|i: int| 0 <= i < r.hooks.len() && r.hooks[i] == (HookView { kind, target })
}

/// The names of the recipes that hook into `target` with the kind, in the order of the justfile.
pub open spec fn hook_recipes(rs: Seq<RecipeView>, target: Seq<char>, kind: HookKind) -> Seq<Seq<char>>
    decreases rs.len(),
{
    if rs.len() == 0 {
        Seq::empty()
    } else {
        hook_recipes(rs.drop_last(), target, kind) + if hooks_into(rs.last(), kind, target) {
            seq![rs.last().name]
        } else {
            Seq::<Seq<char>>::empty()
        }
    }
}

/// The steps of a recipe's own command lines, in the given context.
pub open spec fn line_steps(r: RecipeView, ctx: Option<HookContextView>) -> Seq<StepView> {
    r.lines.map_values(|l: LineView| StepView { recipe: r.name, command: l.command, quiet: l.quiet, context: ctx })
}

/// The context of a hook that runs before `target`.
pub open spec fn before_ctx(target: Seq<char>) -> Option<HookContextView> {
    Some(HookContextView { target, hook_type: HookType::Before })
}

/// The context of a hook that runs after `target`, which succeeded.
pub open spec fn after_ctx(target: Seq<char>) -> Option<HookContextView> {
    Some(HookContextView { target, hook_type: HookType::After { status: 0 } })
}

/// The steps of running the recipe `name` in the context `ctx`; none where no
/// recipe has that name or the run nests deeper than `depth` recipes, which a
/// cycle of dependencies and hooks makes it do.
pub open spec fn run_spec(
    rs: Seq<RecipeView>,
    name: Seq<char>,
    ctx: Option<HookContextView>,
    no_hooks: bool,
    depth: nat,
) -> Option<Seq<StepView>>
    decreases depth, 0nat, 0nat,
{
    if depth == 0 {
        None
    } else {
        match find_recipe(rs, name) {
            None => None,
            Some(i) => {
                let r = rs[i];
                let k = (depth - 1) as nat;
                let before = if no_hooks { Seq::empty() } else { hook_recipes(rs, name, HookKind::Before) };
                let after = if no_hooks { Seq::empty() } else { hook_recipes(rs, name, HookKind::After) };
                match run_all(rs, before, before_ctx(name), no_hooks, k) {
                    None => None,
                    Some(a) => match run_all(rs, r.prior, None, no_hooks, k) {
                        None => None,
                        Some(b) => match run_all(rs, r.subsequent, None, no_hooks, k) {
                            None => None,
                            Some(c) => match run_all(rs, after, after_ctx(name), no_hooks, k) {
                                None => None,
                                Some(d) => Some(a + b + line_steps(r, ctx) + c + d),
                            },
                        },
                    },
                }
            },
        }
    }
}

/// The steps of running the recipes named, one after the other, each in the context `ctx`.
pub open spec fn run_all(
    rs: Seq<RecipeView>,
    names: Seq<Seq<char>>,
    ctx: Option<HookContextView>,
    no_hooks: bool,
    depth: nat,
) -> Option<Seq<StepView>>
    decreases depth, 1nat, names.len(),
{
    if names.len() == 0 {
        Some(Seq::empty())
    } else {
        match run_all(rs, names.drop_last(), ctx, no_hooks, depth) {
            None => None,
            Some(a) => match run_spec(rs, names.last(), ctx, no_hooks, depth) {
                None => None,
                Some(b) => Some(a + b),
            },
        }
    }
}


fn find_recipe_exec(recipes: &Vec<Recipe>, name: &String) -> (r: Option<usize>)
    ensures
        match r {
            Some(i) => find_recipe(recipes_view(recipes@), name@) == Some(i as int) && i < recipes.len(),
            None => find_recipe(recipes_view(recipes@), name@) is None,
        },
{
    let ghost rs = recipes_view(recipes@);
    let mut i: usize = 0;
    while i < recipes.len()
        invariant
            i <= recipes.len(),
            rs == recipes_view(recipes@),
            forall|j: int| 0 <= j < i ==> rs[j].name != name@,
        decreases recipes.len() - i,
    {
        if recipes[i].name == *name {
            assert(rs[i as int].name == name@);
            let ghost k = choose|k: int| 0 <= k < rs.len() && rs[k].name == name@ && forall|j: int| 0 <= j < k ==> rs[j].name != name@;
            assert(k == i) by {
                if k > i {
                    assert(rs[i as int].name != name@);
                }
            }
            return Some(i);
        }
        i = i + 1;
    }
    None
}

fn hooks_into_exec(r: &Recipe, kind: HookKind, target: &String) -> (b: bool)
    ensures
        b == hooks_into(r@, kind, target@),
{
    let mut i: usize = 0;
    while i < r.hooks.len()
        invariant
            i <= r.hooks.len(),
            forall|j: int| 0 <= j < i ==> r@.hooks[j] != (HookView { kind, target: target@ }),
        decreases r.hooks.len() - i,
    {
        if r.hooks[i].kind == kind && r.hooks[i].target == *target {
            assert(r@.hooks[i as int] == (HookView { kind, target: target@ }));
            return true;
        }
        assert(r@.hooks[i as int] == r.hooks@[i as int]@);
        i = i + 1;
    }
    false
}

fn hook_recipes_exec(recipes: &Vec<Recipe>, target: &String, kind: HookKind) -> (r: Vec<String>)
    ensures
        strs_view(r@) == hook_recipes(recipes_view(recipes@), target@, kind),
{
    let ghost rs = recipes_view(recipes@);
    let mut r: Vec<String> = Vec::new();
    let mut i: usize = 0;
    assert(rs.take(0) =~= Seq::<RecipeView>::empty());
    assert(strs_view(r@) =~= Seq::<Seq<char>>::empty());
    while i < recipes.len()
        invariant
            i <= recipes.len(),
            rs == recipes_view(recipes@),
            strs_view(r@) == hook_recipes(rs.take(i as int), target@, kind),
        decreases recipes.len() - i,
    {
        assert(rs.take(i + 1).drop_last() =~= rs.take(i as int));
        assert(rs.take(i + 1).last() == recipes@[i as int]@);
        if hooks_into_exec(&recipes[i], kind, target) {
            let ghost r0 = r@;
            r.push(recipes[i].name.clone());
            assert(strs_view(r@) =~= strs_view(r0) + seq![recipes@[i as int]@.name]);
        } else {
            assert(strs_view(r@) =~= strs_view(r@) + Seq::<Seq<char>>::empty());
        }
        i = i + 1;
    }
    assert(rs.take(i as int) =~= rs);
    r
}

fn clone_ctx(c: &Option<HookContext>) -> (r: Option<HookContext>)
    ensures
        ctx_view(r) == ctx_view(*c),
{
    match c {
        Some(h) => Some(h.clone()),
        None => None,
    }
}

fn push_lines(out: &mut Vec<Step>, r: &Recipe, ctx: &Option<HookContext>)
    ensures
        steps_view(final(out)@) == steps_view(old(out)@) + line_steps(r@, ctx_view(*ctx)),
        final(out)@.len() == old(out)@.len() + r@.lines.len(),
        forall|j: int| 0 <= j < old(out)@.len() ==> #[trigger] final(out)@[j]@ == old(out)@[j]@,
        forall|j: int| 0 <= j < r@.lines.len() ==> {
            let s = #[trigger] final(out)@[old(out)@.len() + j]@;
            &&& s.recipe == r@.name
            &&& s.command == r@.lines[j].command
            &&& s.quiet == r@.lines[j].quiet
            &&& s.context == ctx_view(*ctx)
        },
{
    let ghost base = steps_view(out@);
    let ghost ls = line_steps(r@, ctx_view(*ctx));
    let mut i: usize = 0;
    while i < r.lines.len()
        invariant
            i <= r.lines.len(),
            ls == line_steps(r@, ctx_view(*ctx)),
            steps_view(out@) == base + ls.take(i as int),
        decreases r.lines.len() - i,
    {
        let step = Step {
            recipe: r.name.clone(),
            command: r.lines[i].command.clone(),
            quiet: r.lines[i].quiet,
            context: clone_ctx(ctx),
        };
        let ghost o0 = out@;
        out.push(step);
        assert(step@ == ls[i as int]);
        assert(steps_view(out@) =~= steps_view(o0).push(ls[i as int]));
        assert(ls.take(i + 1) =~= ls.take(i as int).push(ls[i as int]));
        i = i + 1;
    }
    assert(ls.take(i as int) =~= ls);
    proof {
        let n0 = old(out)@.len();
        assert forall|j: int| 0 <= j < n0 implies #[trigger] out@[j]@ == old(out)@[j]@ by {
            assert(steps_view(out@)[j] == steps_view(old(out)@)[j]);
        }
        assert forall|j: int| 0 <= j < r@.lines.len() implies {
            let s = #[trigger] out@[n0 + j]@;
            &&& s.recipe == r@.name
            &&& s.command == r@.lines[j].command
            &&& s.quiet == r@.lines[j].quiet
            &&& s.context == ctx_view(*ctx)
        } by {
            assert(steps_view(out@)[n0 + j] == ls[j]);
        }
    }
}

/// Once running a prefix of the names fails, running all of them fails.
proof fn lemma_run_all_fails(
    rs: Seq<RecipeView>,
    names: Seq<Seq<char>>,
    ctx: Option<HookContextView>,
    no_hooks: bool,
    depth: nat,
    k: int,
)
    requires
        0 <= k <= names.len(),
        run_all(rs, names.take(k), ctx, no_hooks, depth) is None,
    ensures
        run_all(rs, names, ctx, no_hooks, depth) is None,
    decreases names.len() - k,
{
    if k < names.len() {
        assert(names.take(k + 1).drop_last() =~= names.take(k));
        lemma_run_all_fails(rs, names, ctx, no_hooks, depth, k + 1);
    } else {
        assert(names.take(k) =~= names);
    }
}

fn run_recipe(
    recipes: &Vec<Recipe>,
    name: &String,
    ctx: &Option<HookContext>,
    no_hooks: bool,
    depth: usize,
    out: &mut Vec<Step>,
) -> (ok: bool)
    ensures
        ok == run_spec(recipes_view(recipes@), name@, ctx_view(*ctx), no_hooks, depth as nat) is Some,
        ok ==> steps_view(final(out)@) == steps_view(old(out)@)
            + run_spec(recipes_view(recipes@), name@, ctx_view(*ctx), no_hooks, depth as nat)->0,
    decreases depth, 0nat, 0nat,
{
    let ghost rs = recipes_view(recipes@);
    if depth == 0 {
        return false;
    }
    let i = match find_recipe_exec(recipes, name) {
        Some(i) => i,
        None => {
            return false;
        },
    };
    let r = &recipes[i];
    let k = depth - 1;
    let before = if no_hooks {
        Vec::new()
    } else {
        hook_recipes_exec(recipes, name, HookKind::Before)
    };
    let after = if no_hooks {
        Vec::new()
    } else {
        hook_recipes_exec(recipes, name, HookKind::After)
    };
    assert(strs_view(before@) == (if no_hooks { Seq::empty() } else { hook_recipes(rs, name@, HookKind::Before) }));
    assert(strs_view(after@) == (if no_hooks { Seq::empty() } else { hook_recipes(rs, name@, HookKind::After) }));
    let bctx = Some(HookContext::before(name.as_str()));
    assert(ctx_view(bctx) == before_ctx(name@));
    let actx = Some(HookContext::after(name.as_str(), 0));
    assert(ctx_view(actx) == after_ctx(name@));
    let none: Option<HookContext> = None;
    let ghost o0 = steps_view(out@);
    if !run_names(recipes, &before, &bctx, no_hooks, k, out) {
        return false;
    }
    if !run_names(recipes, &r.prior, &none, no_hooks, k, out) {
        return false;
    }
    push_lines(out, r, ctx);
    if !run_names(recipes, &r.subsequent, &none, no_hooks, k, out) {
        return false;
    }
    if !run_names(recipes, &after, &actx, no_hooks, k, out) {
        return false;
    }
    let ghost spec = run_spec(rs, name@, ctx_view(*ctx), no_hooks, depth as nat);
    assert(rs[i as int] == r@);
    assert(steps_view(out@) =~= o0 + spec->0);
    true
}

fn run_names(
    recipes: &Vec<Recipe>,
    names: &Vec<String>,
    ctx: &Option<HookContext>,
    no_hooks: bool,
    depth: usize,
    out: &mut Vec<Step>,
) -> (ok: bool)
    ensures
        ok == run_all(recipes_view(recipes@), strs_view(names@), ctx_view(*ctx), no_hooks, depth as nat) is Some,
        ok ==> steps_view(final(out)@) == steps_view(old(out)@)
            + run_all(recipes_view(recipes@), strs_view(names@), ctx_view(*ctx), no_hooks, depth as nat)->0,
    decreases depth, 1nat, names@.len(),
{
    let ghost rs = recipes_view(recipes@);
    let ghost ns = strs_view(names@);
    let ghost base = steps_view(out@);
    let mut i: usize = 0;
    assert(ns.take(0) =~= Seq::<Seq<char>>::empty());
    assert(base + Seq::<StepView>::empty() =~= base);
    while i < names.len()
        invariant
            i <= names.len(),
            rs == recipes_view(recipes@),
            ns == strs_view(names@),
            run_all(rs, ns.take(i as int), ctx_view(*ctx), no_hooks, depth as nat) is Some,
            steps_view(out@) == base + run_all(rs, ns.take(i as int), ctx_view(*ctx), no_hooks, depth as nat)->0,
        decreases names.len() - i,
    {
        let ghost acc = run_all(rs, ns.take(i as int), ctx_view(*ctx), no_hooks, depth as nat)->0;
        assert(ns.take(i + 1).drop_last() =~= ns.take(i as int));
        assert(ns.take(i + 1).last() == names@[i as int]@);
        let ok = run_recipe(recipes, &names[i], ctx, no_hooks, depth, out);
        if !ok {
            proof { lemma_run_all_fails(rs, ns, ctx_view(*ctx), no_hooks, depth as nat, i + 1); }
            return false;
        }
        assert(steps_view(out@) =~= base + run_all(rs, ns.take(i + 1), ctx_view(*ctx), no_hooks, depth as nat)->0);
        i = i + 1;
    }
    assert(ns.take(i as int) =~= ns);
    true
}


// ---------------------------------------------------------------------------
// Invocations

/// What the command line asks for: whether hooks are skipped, and the recipes to run.
#[derive(Debug)]
pub struct Invocation {
    pub no_hooks: bool,
    pub targets: Vec<String>,
}

pub struct InvocationView {
    pub no_hooks: bool,
    pub targets: Seq<Seq<char>>,
}

impl View for Invocation {
    type V = InvocationView;

    open spec fn view(&self) -> InvocationView {
        InvocationView { no_hooks: self.no_hooks, targets: strs_view(self.targets@) }
    }
}

/// What the arguments ask for: `--no-hooks` skips hooks, any other argument that
/// starts with `-` is an unknown option, and the rest name recipes, in order.
pub open spec fn invocation_of(args: Seq<Seq<char>>) -> Result<InvocationView, JustfileErrorView>
    decreases args.len(),
{
    if args.len() == 0 {
        Ok(InvocationView { no_hooks: false, targets: Seq::empty() })
    } else {
        match invocation_of(args.drop_last()) {
            Err(e) => Err(e),
            Ok(inv) => {
                let a = args.last();
                if a == "--no-hooks"@ {
                    Ok(InvocationView { no_hooks: true, ..inv })
                } else if a.len() > 0 && a[0] == '-' {
                    Err(JustfileErrorView::UnknownOption { option: a })
                } else {
                    Ok(InvocationView { targets: inv.targets.push(a), ..inv })
                }
            },
        }
    }
}

/// Once an argument is refused, the whole list is refused for it.
proof fn lemma_invocation_fails(args: Seq<Seq<char>>, k: int)
    requires
        0 <= k <= args.len(),
        invocation_of(args.take(k)) is Err,
    ensures
        invocation_of(args) == invocation_of(args.take(k)),
    decreases args.len() - k,
{
    if k < args.len() {
        assert(args.take(k + 1).drop_last() =~= args.take(k));
        lemma_invocation_fails(args, k + 1);
    } else {
        assert(args.take(k) =~= args);
    }
}

impl Invocation {
    /// Turns `--no-hooks` on where `value`, the value of `JUST_NO_HOOKS` if set, says so.
    pub fn apply_no_hooks_env(&mut self, value: Option<&str>)
        ensures
            final(self)@ == (InvocationView {
                no_hooks: old(self)@.no_hooks || (value matches Some(v) && crate::execute::is_truthy(v@)),
                ..old(self)@
            }),
    {
        if crate::execute::no_hooks_from_env(value) {
            self.no_hooks = true;
        }
    }

    /// Reads the command line's arguments.
    pub fn from_args(args: &[&str]) -> (r: Result<Invocation, JustfileError>)
        ensures
            match r {
                Ok(inv) => invocation_of(args@.map_values(|a: &str| a@)) == Ok::<InvocationView, JustfileErrorView>(inv@),
                Err(e) => invocation_of(args@.map_values(|a: &str| a@)) == Err::<InvocationView, JustfileErrorView>(e@),
            },
    {
        let ghost av = args@.map_values(|a: &str| a@);
        let mut inv = Invocation { no_hooks: false, targets: Vec::new() };
        let flag = String::from_str("--no-hooks");
        let mut i: usize = 0;
        assert(av.take(0) =~= Seq::<Seq<char>>::empty());
        assert(inv@.targets =~= Seq::<Seq<char>>::empty());
        while i < args.len()
            invariant
                i <= args@.len(),
                av == args@.map_values(|a: &str| a@),
                flag@ == "--no-hooks"@,
                invocation_of(av.take(i as int)) == Ok::<InvocationView, JustfileErrorView>(inv@),
            decreases args@.len() - i,
        {
            assert(av.take(i + 1).drop_last() =~= av.take(i as int));
            assert(av.take(i + 1).last() == args@[i as int]@);
            let a = String::from_str(args[i]);
            if a == flag {
                inv.no_hooks = true;
            } else if args[i].unicode_len() > 0 && args[i].get_char(0) == '-' {
                proof { lemma_invocation_fails(av, i + 1); }
                return Err(JustfileError::UnknownOption { option: a });
            } else {
                let ghost t0 = inv@.targets;
                inv.targets.push(a);
                assert(inv@.targets =~= t0.push(a@));
            }
            i = i + 1;
        }
        assert(av.take(i as int) =~= av);
        Ok(inv)
    }
}

// ---------------------------------------------------------------------------
// Plans

/// The steps of running the named recipes one after the other, each directly;
/// a circular dependency for the first that nests deeper than `depth` recipes.
pub open spec fn plan_all(rs: Seq<RecipeView>, targets: Seq<Seq<char>>, no_hooks: bool, depth: nat) -> Result<Seq<StepView>, JustfileErrorView>
    decreases targets.len(),
{
    if targets.len() == 0 {
        Ok(Seq::empty())
    } else {
        match plan_all(rs, targets.drop_last(), no_hooks, depth) {
            Err(e) => Err(e),
            Ok(a) => match run_spec(rs, targets.last(), None, no_hooks, depth) {
                None => Err(JustfileErrorView::CircularDependency { recipe: targets.last() }),
                Some(b) => Ok(a + b),
            },
        }
    }
}

/// The recipes that a run starts from: those named, or else the first recipe of the justfile.
pub open spec fn start_recipes(rs: Seq<RecipeView>, targets: Seq<Seq<char>>) -> Seq<Seq<char>> {
    if targets.len() == 0 && rs.len() > 0 {
        seq![rs[0].name]
    } else {
        targets
    }
}

/// What a run executes: every named recipe must exist; then each runs in turn.
/// Nesting deeper than the number of recipes can only come of a cycle.
pub open spec fn plan_spec(rs: Seq<RecipeView>, inv: InvocationView) -> Result<Seq<StepView>, JustfileErrorView> {
    if rs.len() == 0 {
        Err(JustfileErrorView::NoRecipes)
    } else {
        let ts = start_recipes(rs, inv.targets);
        match crate::justfile::first_missing(rs, ts) {
            Some(n) => Err(JustfileErrorView::UnknownRecipe { name: n }),
            None => plan_all(rs, ts, inv.no_hooks, rs.len()),
        }
    }
}

/// Once a prefix of the targets fails, the whole plan fails the same way.
proof fn lemma_plan_all_fails(rs: Seq<RecipeView>, ts: Seq<Seq<char>>, no_hooks: bool, depth: nat, k: int)
    requires
        0 <= k <= ts.len(),
        plan_all(rs, ts.take(k), no_hooks, depth) is Err,
    ensures
        plan_all(rs, ts, no_hooks, depth) == plan_all(rs, ts.take(k), no_hooks, depth),
    decreases ts.len() - k,
{
    if k < ts.len() {
        assert(ts.take(k + 1).drop_last() =~= ts.take(k));
        lemma_plan_all_fails(rs, ts, no_hooks, depth, k + 1);
    } else {
        assert(ts.take(k) =~= ts);
    }
}

fn first_missing_recipe(recipes: &Vec<Recipe>, names: &Vec<String>) -> (r: Option<String>)
    ensures
        crate::live_event::opt_str_view(r) == crate::justfile::first_missing(recipes_view(recipes@), strs_view(names@)),
{
    let ghost rs = recipes_view(recipes@);
    let ghost ns = strs_view(names@);
    let mut i: usize = 0;
    assert(ns.take(0) =~= Seq::<Seq<char>>::empty());
    while i < names.len()
        invariant
            i <= names.len(),
            rs == recipes_view(recipes@),
            ns == strs_view(names@),
            crate::justfile::first_missing(rs, ns.take(i as int)) is None,
        decreases names.len() - i,
    {
        assert(ns.take(i + 1).drop_last() =~= ns.take(i as int));
        assert(ns.take(i + 1).last() == names@[i as int]@);
        if find_recipe_exec(recipes, &names[i]).is_none() {
            assert(!has_recipe(rs, names@[i as int]@)) by {
                if has_recipe(rs, names@[i as int]@) {
                    let w = choose|w: int| 0 <= w < rs.len() && rs[w].name == names@[i as int]@;
                    lemma_find_some(rs, names@[i as int]@, w);
                }
            }
            proof { lemma_missing_prefix(rs, ns, i + 1); }
            return Some(names[i].clone());
        }
        i = i + 1;
    }
    assert(ns.take(i as int) =~= ns);
    None
}

/// Where some recipe has the name, `find_recipe` finds one.
proof fn lemma_find_some(rs: Seq<RecipeView>, name: Seq<char>, w: int)
    requires
        0 <= w < rs.len(),
        rs[w].name == name,
    ensures
        find_recipe(rs, name) is Some,
    decreases w,
{
    if exists|j: int| 0 <= j < w && rs[j].name == name {
        let j = choose|j: int| 0 <= j < w && rs[j].name == name;
        lemma_find_some(rs, name, j);
    } else {
        assert(0 <= w < rs.len() && rs[w].name == name && forall|j: int| 0 <= j < w ==> rs[j].name != name);
    }
}

proof fn lemma_missing_prefix(rs: Seq<RecipeView>, ns: Seq<Seq<char>>, k: int)
    requires
        0 <= k <= ns.len(),
        crate::justfile::first_missing(rs, ns.take(k)) is Some,
    ensures
        crate::justfile::first_missing(rs, ns) == crate::justfile::first_missing(rs, ns.take(k)),
    decreases ns.len() - k,
{
    if k < ns.len() {
        assert(ns.take(k + 1).drop_last() =~= ns.take(k));
        lemma_missing_prefix(rs, ns, k + 1);
    } else {
        assert(ns.take(k) =~= ns);
    }
}

/// The steps that a run of the justfile executes, in order.
pub fn plan(justfile: &Justfile, inv: &Invocation) -> (r: Result<Vec<Step>, JustfileError>)
    ensures
        match r {
            Ok(steps) => plan_spec(justfile@, inv@) == Ok::<Seq<StepView>, JustfileErrorView>(steps_view(steps@)),
            Err(e) => plan_spec(justfile@, inv@) == Err::<Seq<StepView>, JustfileErrorView>(e@),
        },
{
    let recipes = justfile.recipes();
    let ghost rs = recipes_view(recipes@);
    if recipes.len() == 0 {
        return Err(JustfileError::NoRecipes);
    }
    let targets: Vec<String> = if inv.targets.len() == 0 {
        let mut t: Vec<String> = Vec::new();
        t.push(recipes[0].name.clone());
        assert(strs_view(t@) =~= seq![rs[0].name]);
        t
    } else {
        let mut t: Vec<String> = Vec::new();
        let mut i: usize = 0;
        while i < inv.targets.len()
            invariant
                i <= inv.targets.len(),
                strs_view(t@) == strs_view(inv.targets@).take(i as int),
            decreases inv.targets.len() - i,
        {
            let ghost t0 = t@;
            t.push(inv.targets[i].clone());
            assert(strs_view(t@) =~= strs_view(t0).push(inv.targets@[i as int]@));
            assert(strs_view(inv.targets@).take(i + 1) =~= strs_view(inv.targets@).take(i as int).push(inv.targets@[i as int]@));
            i = i + 1;
        }
        assert(strs_view(inv.targets@).take(i as int) =~= strs_view(inv.targets@));
        t
    };
    let ghost ts = strs_view(targets@);
    assert(ts == start_recipes(rs, inv@.targets));
    match first_missing_recipe(recipes, &targets) {
        Some(n) => {
            return Err(JustfileError::UnknownRecipe { name: n });
        },
        None => {},
    }
    let depth = recipes.len();
    let none: Option<HookContext> = None;
    let mut out: Vec<Step> = Vec::new();
    let mut i: usize = 0;
    assert(ts.take(0) =~= Seq::<Seq<char>>::empty());
    assert(steps_view(out@) =~= Seq::<StepView>::empty());
    while i < targets.len()
        invariant
            i <= targets.len(),
            rs == recipes_view(recipes@),
            ts == strs_view(targets@),
            depth == rs.len(),
            rs == justfile@,
            rs.len() > 0,
            ts == start_recipes(rs, inv@.targets),
            crate::justfile::first_missing(rs, ts) is None,
            ctx_view(none) is None,
            plan_all(rs, ts.take(i as int), inv.no_hooks, depth as nat) == Ok::<Seq<StepView>, JustfileErrorView>(steps_view(out@)),
        decreases targets.len() - i,
    {
        assert(ts.take(i + 1).drop_last() =~= ts.take(i as int));
        assert(ts.take(i + 1).last() == targets@[i as int]@);
        let ghost o0 = steps_view(out@);
        if !run_recipe(recipes, &targets[i], &none, inv.no_hooks, depth, &mut out) {
            let rec = targets[i].clone();
            assert(run_spec(rs, ts[i as int], None, inv.no_hooks, depth as nat) is None);
            assert(plan_all(rs, ts.take(i + 1), inv.no_hooks, depth as nat)
                == Err::<Seq<StepView>, JustfileErrorView>(JustfileErrorView::CircularDependency { recipe: rec@ }));
            proof { lemma_plan_all_fails(rs, ts, inv.no_hooks, depth as nat, i + 1); }
            return Err(JustfileError::CircularDependency { recipe: rec });
        }
        i = i + 1;
    }
    assert(ts.take(i as int) =~= ts);
    Ok(out)
}

/// What running the justfile `source` with the arguments `args` executes, in order.
pub fn plan_run(source: &str, args: &[&str]) -> (r: Result<Vec<Step>, JustfileError>)
    requires
        source@.len() < usize::MAX,
    ensures
        match r {
            Ok(steps) => run_result(source@, args@.map_values(|a: &str| a@)) == Ok::<Seq<StepView>, JustfileErrorView>(steps_view(steps@)),
            Err(e) => run_result(source@, args@.map_values(|a: &str| a@)) == Err::<Seq<StepView>, JustfileErrorView>(e@),
        },
{
    let justfile = match Justfile::parse(source) {
        Ok(j) => j,
        Err(e) => {
            return Err(e);
        },
    };
    let inv = match Invocation::from_args(args) {
        Ok(i) => i,
        Err(e) => {
            return Err(e);
        },
    };
    plan(&justfile, &inv)
}

/// What running the justfile `source` with the arguments `args` executes: the
/// justfile is read and checked first, then the arguments, then the plan is made.
pub open spec fn run_result(source: Seq<char>, args: Seq<Seq<char>>) -> Result<Seq<StepView>, JustfileErrorView> {
    match crate::justfile::parse_spec(source) {
        Err(e) => Err(e),
        Ok(rs) => match invocation_of(args) {
            Err(e) => Err(e),
            Ok(inv) => plan_spec(rs, inv),
        },
    }
}


// ---------------------------------------------------------------------------
// Laws

/// The kind of hook that a hook context stands for.
pub open spec fn kind_of(t: HookType) -> HookKind {
    match t {
        HookType::Before => HookKind::Before,
        HookType::After { .. } => HookKind::After,
    }
}

/// A context that a recipe may run in: none, or that of a target the recipe hooks into.
pub open spec fn context_allowed(rs: Seq<RecipeView>, name: Seq<char>, ctx: Option<HookContextView>) -> bool {
    match ctx {
        None => true,
        Some(c) => (exists|i: int| 0 <= i < rs.len() && rs[i].name == name && hooks_into(rs[i], kind_of(c.hook_type), c.target))
            && (c.hook_type matches HookType::After { status } ==> status == 0),
    }
}

/// Each name that `hook_recipes` lists is a recipe that hooks into the target with the kind.
proof fn lemma_hook_recipes_hook(rs: Seq<RecipeView>, target: Seq<char>, kind: HookKind, j: int)
    requires
        0 <= j < hook_recipes(rs, target, kind).len(),
    ensures
        exists|i: int| 0 <= i < rs.len() && rs[i].name == hook_recipes(rs, target, kind)[j] && hooks_into(rs[i], kind, target),
    decreases rs.len(),
{
    let h = hook_recipes(rs, target, kind);
    let p = hook_recipes(rs.drop_last(), target, kind);
    if j < p.len() {
        assert(h[j] == p[j]);
        lemma_hook_recipes_hook(rs.drop_last(), target, kind, j);
        let i = choose|i: int| 0 <= i < rs.drop_last().len() && rs.drop_last()[i].name == p[j] && hooks_into(rs.drop_last()[i], kind, target);
        assert(rs[i] == rs.drop_last()[i]);
    } else {
        assert(h[j] == rs.last().name);
        assert(rs[rs.len() - 1] == rs.last());
    }
}

/// Every step that carries a hook context belongs to a recipe that hooks into
/// the context's target with the context's kind; an after hook's context carries
/// the status 0. A recipe run directly or as a dependency has no context.
pub proof fn lemma_contexts_are_hooks(
    rs: Seq<RecipeView>,
    name: Seq<char>,
    ctx: Option<HookContextView>,
    no_hooks: bool,
    depth: nat,
)
    requires
        context_allowed(rs, name, ctx),
    ensures
        run_spec(rs, name, ctx, no_hooks, depth) matches Some(steps) ==> forall|k: int|
            0 <= k < steps.len() ==> context_allowed(rs, #[trigger] steps[k].recipe, steps[k].context),
    decreases depth, 0nat, 0nat,
{
    if depth > 0 {
        match find_recipe(rs, name) {
            None => {},
            Some(i) => {
                let r = rs[i];
                let k = (depth - 1) as nat;
                let before = if no_hooks { Seq::empty() } else { hook_recipes(rs, name, HookKind::Before) };
                let after = if no_hooks { Seq::empty() } else { hook_recipes(rs, name, HookKind::After) };
                assert forall|j: int| 0 <= j < before.len() implies context_allowed(rs, #[trigger] before[j], before_ctx(name)) by {
                    lemma_hook_recipes_hook(rs, name, HookKind::Before, j);
                }
                assert forall|j: int| 0 <= j < after.len() implies context_allowed(rs, #[trigger] after[j], after_ctx(name)) by {
                    lemma_hook_recipes_hook(rs, name, HookKind::After, j);
                }
                lemma_all_contexts_are_hooks(rs, before, before_ctx(name), no_hooks, k);
                lemma_all_contexts_are_hooks(rs, r.prior, None, no_hooks, k);
                lemma_all_contexts_are_hooks(rs, r.subsequent, None, no_hooks, k);
                lemma_all_contexts_are_hooks(rs, after, after_ctx(name), no_hooks, k);
                if let Some(steps) = run_spec(rs, name, ctx, no_hooks, depth) {
                    let a = run_all(rs, before, before_ctx(name), no_hooks, k)->0;
                    let b = run_all(rs, r.prior, None, no_hooks, k)->0;
                    let l = line_steps(r, ctx);
                    let c = run_all(rs, r.subsequent, None, no_hooks, k)->0;
                    let d = run_all(rs, after, after_ctx(name), no_hooks, k)->0;
                    assert(steps == a + b + l + c + d);
                    assert(r.name == name);
                    assert forall|q: int| 0 <= q < steps.len() implies context_allowed(rs, #[trigger] steps[q].recipe, steps[q].context) by {
                        if q < a.len() {
                            assert(steps[q] == a[q]);
                        } else if q < a.len() + b.len() {
                            assert(steps[q] == b[q - a.len()]);
                        } else if q < a.len() + b.len() + l.len() {
                            assert(steps[q] == l[q - a.len() - b.len()]);
                        } else if q < a.len() + b.len() + l.len() + c.len() {
                            assert(steps[q] == c[q - a.len() - b.len() - l.len()]);
                        } else {
                            assert(steps[q] == d[q - a.len() - b.len() - l.len() - c.len()]);
                        }
                    }
                }
            },
        }
    }
}

/// The same, for recipes run one after the other in a context each may run in.
pub proof fn lemma_all_contexts_are_hooks(
    rs: Seq<RecipeView>,
    names: Seq<Seq<char>>,
    ctx: Option<HookContextView>,
    no_hooks: bool,
    depth: nat,
)
    requires
        forall|j: int| 0 <= j < names.len() ==> context_allowed(rs, #[trigger] names[j], ctx),
    ensures
        run_all(rs, names, ctx, no_hooks, depth) matches Some(steps) ==> forall|k: int|
            0 <= k < steps.len() ==> context_allowed(rs, #[trigger] steps[k].recipe, steps[k].context),
    decreases depth, 1nat, names.len(),
{
    if names.len() > 0 {
        assert forall|j: int| 0 <= j < names.drop_last().len() implies context_allowed(rs, #[trigger] names.drop_last()[j], ctx) by {
            assert(names.drop_last()[j] == names[j]);
        }
        lemma_all_contexts_are_hooks(rs, names.drop_last(), ctx, no_hooks, depth);
        assert(context_allowed(rs, names[names.len() - 1], ctx));
        lemma_contexts_are_hooks(rs, names.last(), ctx, no_hooks, depth);
        if let Some(steps) = run_all(rs, names, ctx, no_hooks, depth) {
            let a = run_all(rs, names.drop_last(), ctx, no_hooks, depth)->0;
            let b = run_spec(rs, names.last(), ctx, no_hooks, depth)->0;
            assert forall|q: int| 0 <= q < steps.len() implies context_allowed(rs, #[trigger] steps[q].recipe, steps[q].context) by {
                if q < a.len() {
                    assert(steps[q] == a[q]);
                } else {
                    assert(steps[q] == b[q - a.len()]);
                }
            }
        }
    }
}

/// With `--no-hooks`, no step runs in a context other than the one the run began in.
pub proof fn lemma_no_hooks_no_context(rs: Seq<RecipeView>, name: Seq<char>, ctx: Option<HookContextView>, depth: nat)
    ensures
        run_spec(rs, name, ctx, true, depth) matches Some(steps) ==> forall|k: int|
            0 <= k < steps.len() ==> #[trigger] steps[k].context == ctx || steps[k].context is None,
    decreases depth, 0nat, 0nat,
{
    if depth > 0 {
        match find_recipe(rs, name) {
            None => {},
            Some(i) => {
                let r = rs[i];
                let k = (depth - 1) as nat;
                let e = Seq::<Seq<char>>::empty();
                assert(run_all(rs, e, before_ctx(name), true, k) == Some(Seq::<StepView>::empty()));
                assert(run_all(rs, e, after_ctx(name), true, k) == Some(Seq::<StepView>::empty()));
                lemma_no_hooks_all(rs, r.prior, k);
                lemma_no_hooks_all(rs, r.subsequent, k);
                if let Some(steps) = run_spec(rs, name, ctx, true, depth) {
                    let b = run_all(rs, r.prior, None, true, k)->0;
                    let l = line_steps(r, ctx);
                    let c = run_all(rs, r.subsequent, None, true, k)->0;
                    assert(steps == Seq::<StepView>::empty() + b + l + c + Seq::<StepView>::empty());
                    assert forall|q: int| 0 <= q < steps.len() implies #[trigger] steps[q].context == ctx || steps[q].context is None by {
                        if q < b.len() {
                            assert(steps[q] == b[q]);
                        } else if q < b.len() + l.len() {
                            assert(steps[q] == l[q - b.len()]);
                        } else {
                            assert(steps[q] == c[q - b.len() - l.len()]);
                        }
                    }
                }
            },
        }
    }
}

/// With `--no-hooks`, recipes run as dependencies run in no context at all.
pub proof fn lemma_no_hooks_all(rs: Seq<RecipeView>, names: Seq<Seq<char>>, depth: nat)
    ensures
        run_all(rs, names, None, true, depth) matches Some(steps) ==> forall|k: int|
            0 <= k < steps.len() ==> (#[trigger] steps[k].context) is None,
    decreases depth, 1nat, names.len(),
{
    if names.len() > 0 {
        lemma_no_hooks_all(rs, names.drop_last(), depth);
        lemma_no_hooks_context_none(rs, names.last(), depth);
        if let Some(steps) = run_all(rs, names, None, true, depth) {
            let a = run_all(rs, names.drop_last(), None, true, depth)->0;
            let b = run_spec(rs, names.last(), None, true, depth)->0;
            assert forall|q: int| 0 <= q < steps.len() implies (#[trigger] steps[q].context) is None by {
                if q < a.len() {
                    assert(steps[q] == a[q]);
                } else {
                    assert(steps[q] == b[q - a.len()]);
                }
            }
        }
    }
}

/// With `--no-hooks`, a recipe run in no context runs all its steps in no context.
pub proof fn lemma_no_hooks_context_none(rs: Seq<RecipeView>, name: Seq<char>, depth: nat)
    ensures
        run_spec(rs, name, None, true, depth) matches Some(steps) ==> forall|k: int|
            0 <= k < steps.len() ==> (#[trigger] steps[k].context) is None,
    decreases depth, 0nat, 1nat,
{
    lemma_no_hooks_no_context(rs, name, None, depth);
}


/// A recipe that hooks into the target is listed among its hooks.
proof fn lemma_hook_listed(rs: Seq<RecipeView>, target: Seq<char>, kind: HookKind, a: int)
    requires
        0 <= a < rs.len(),
        hooks_into(rs[a], kind, target),
    ensures
        exists|p: int| 0 <= p < hook_recipes(rs, target, kind).len() && hook_recipes(rs, target, kind)[p] == rs[a].name,
    decreases rs.len(),
{
    let h = hook_recipes(rs, target, kind);
    let pre = hook_recipes(rs.drop_last(), target, kind);
    if a == rs.len() - 1 {
        assert(h[pre.len() as int] == rs[a].name);
    } else {
        assert(rs.drop_last()[a] == rs[a]);
        lemma_hook_listed(rs.drop_last(), target, kind, a);
        let p = choose|p: int| 0 <= p < pre.len() && pre[p] == rs[a].name;
        assert(h[p] == pre[p]);
    }
}

/// Hooks of one kind into one target run in the order of the justfile: where
/// two recipes hook into it, the earlier recipe is listed before the later.
pub proof fn lemma_hooks_in_file_order(rs: Seq<RecipeView>, target: Seq<char>, kind: HookKind, a: int, b: int)
    requires
        0 <= a < b < rs.len(),
        hooks_into(rs[a], kind, target),
        hooks_into(rs[b], kind, target),
    ensures
        exists|p: int, q: int| 0 <= p < q < hook_recipes(rs, target, kind).len()
            && hook_recipes(rs, target, kind)[p] == rs[a].name
            && hook_recipes(rs, target, kind)[q] == rs[b].name,
    decreases rs.len(),
{
    let h = hook_recipes(rs, target, kind);
    let pre = hook_recipes(rs.drop_last(), target, kind);
    assert(rs.drop_last()[a] == rs[a]);
    if b == rs.len() - 1 {
        lemma_hook_listed(rs.drop_last(), target, kind, a);
        let p = choose|p: int| 0 <= p < pre.len() && pre[p] == rs[a].name;
        assert(h[p] == pre[p]);
        assert(h[pre.len() as int] == rs[b].name);
    } else {
        assert(rs.drop_last()[b] == rs[b]);
        lemma_hooks_in_file_order(rs.drop_last(), target, kind, a, b);
        let (p, q) = choose|p: int, q: int| 0 <= p < q < pre.len() && pre[p] == rs[a].name && pre[q] == rs[b].name;
        assert(h[p] == pre[p] && h[q] == pre[q]);
    }
}

/// How a recipe's run is laid out: the runs of its before hooks, of its prior
/// dependencies, its own lines, the runs of its subsequent dependencies, and last
/// the runs of its after hooks. So its after hooks follow all its own lines,
/// which, with `lemma_failed_line_skips_after_hooks`, keeps them from running
/// where one of its lines fails.
pub proof fn lemma_run_layout(rs: Seq<RecipeView>, name: Seq<char>, ctx: Option<HookContextView>, no_hooks: bool, depth: nat)
    ensures
        run_spec(rs, name, ctx, no_hooks, depth) matches Some(steps) ==> ({
            let r = rs[find_recipe(rs, name)->0];
            let k = (depth - 1) as nat;
            let before = if no_hooks { Seq::empty() } else { hook_recipes(rs, name, HookKind::Before) };
            let after = if no_hooks { Seq::empty() } else { hook_recipes(rs, name, HookKind::After) };
            &&& depth > 0
            &&& find_recipe(rs, name) is Some
            &&& steps == run_all(rs, before, before_ctx(name), no_hooks, k)->0
                + run_all(rs, r.prior, None, no_hooks, k)->0
                + line_steps(r, ctx)
                + run_all(rs, r.subsequent, None, no_hooks, k)->0
                + run_all(rs, after, after_ctx(name), no_hooks, k)->0
        }),
{
}

/// A recipe's own command lines run in the order written, each as a step of that
/// recipe with its command, in the context the recipe runs in, and quiet exactly
/// where the line was written quiet (with `@`): a quiet line is not echoed, any
/// other line is. They come right after the runs of its before hooks and of its
/// prior dependencies.
pub proof fn lemma_own_lines_keep_quiet(
    rs: Seq<RecipeView>,
    name: Seq<char>,
    ctx: Option<HookContextView>,
    no_hooks: bool,
    depth: nat,
)
    requires
        run_spec(rs, name, ctx, no_hooks, depth) is Some,
    ensures
        ({
            let steps = run_spec(rs, name, ctx, no_hooks, depth)->0;
            let r = rs[find_recipe(rs, name)->0];
            let k = (depth - 1) as nat;
            let before = if no_hooks { Seq::empty() } else { hook_recipes(rs, name, HookKind::Before) };
            let off = run_all(rs, before, before_ctx(name), no_hooks, k)->0.len()
                + run_all(rs, r.prior, None, no_hooks, k)->0.len();
            &&& off + r.lines.len() <= steps.len()
            &&& forall|j: int| 0 <= j < r.lines.len() ==> {
                let st = #[trigger] steps[off + j];
                &&& st.recipe == r.name
                &&& st.command == r.lines[j].command
                &&& st.quiet == r.lines[j].quiet
                &&& st.context == ctx
            }
        }),
{
    lemma_run_layout(rs, name, ctx, no_hooks, depth);
    let steps = run_spec(rs, name, ctx, no_hooks, depth)->0;
    let r = rs[find_recipe(rs, name)->0];
    let k = (depth - 1) as nat;
    let before = if no_hooks { Seq::empty() } else { hook_recipes(rs, name, HookKind::Before) };
    let after = if no_hooks { Seq::empty() } else { hook_recipes(rs, name, HookKind::After) };
    let a = run_all(rs, before, before_ctx(name), no_hooks, k)->0;
    let b = run_all(rs, r.prior, None, no_hooks, k)->0;
    let c = run_all(rs, r.subsequent, None, no_hooks, k)->0;
    let d = run_all(rs, after, after_ctx(name), no_hooks, k)->0;
    let ls = line_steps(r, ctx);
    assert(steps == a + b + ls + c + d);
    let off = a.len() + b.len();
    assert forall|j: int| 0 <= j < r.lines.len() implies {
        let st = #[trigger] steps[off + j];
        &&& st.recipe == r.name
        &&& st.command == r.lines[j].command
        &&& st.quiet == r.lines[j].quiet
        &&& st.context == ctx
    } by {
        assert(steps[off + j] == (a + b + ls)[off + j]);
        assert((a + b + ls)[off + j] == ls[j]);
    }
}

/// Where one of a recipe's own lines fails, none of the steps of its after hooks runs.
pub proof fn lemma_failed_line_skips_after_hooks(
    rs: Seq<RecipeView>,
    name: Seq<char>,
    ctx: Option<HookContextView>,
    no_hooks: bool,
    depth: nat,
    outcomes: Seq<crate::execute::StepOutcome>,
    line: nat,
)
    requires
        run_spec(rs, name, ctx, no_hooks, depth) is Some,
        outcomes.len() == run_spec(rs, name, ctx, no_hooks, depth)->0.len(),
        forall|i: int| 0 <= i < outcomes.len() ==> !(#[trigger] outcomes[i] is Start),
        line < rs[find_recipe(rs, name)->0].lines.len(),
        ({
            let r = rs[find_recipe(rs, name)->0];
            let k = (depth - 1) as nat;
            let before = if no_hooks { Seq::empty() } else { hook_recipes(rs, name, HookKind::Before) };
            outcomes[(run_all(rs, before, before_ctx(name), no_hooks, k)->0.len() + run_all(rs, r.prior, None, no_hooks, k)->0.len() + line) as int] is Failed
        }),
    ensures
        ({
            let r = rs[find_recipe(rs, name)->0];
            let k = (depth - 1) as nat;
            let before = if no_hooks { Seq::empty() } else { hook_recipes(rs, name, HookKind::Before) };
            let steps = run_spec(rs, name, ctx, no_hooks, depth)->0;
            let after_start = steps.len() - run_all(rs, if no_hooks { Seq::empty() } else { hook_recipes(rs, name, HookKind::After) }, after_ctx(name), no_hooks, k)->0.len();
            &&& crate::execute::drive(steps.len(), outcomes, 0, crate::execute::StepOutcome::Start).0 <= after_start
            &&& crate::execute::drive(steps.len(), outcomes, 0, crate::execute::StepOutcome::Start).1 is Fail
        }),
{
    lemma_run_layout(rs, name, ctx, no_hooks, depth);
    let r = rs[find_recipe(rs, name)->0];
    let k = (depth - 1) as nat;
    let before = if no_hooks { Seq::empty() } else { hook_recipes(rs, name, HookKind::Before) };
    let a = run_all(rs, before, before_ctx(name), no_hooks, k)->0;
    let b = run_all(rs, r.prior, None, no_hooks, k)->0;
    let steps = run_spec(rs, name, ctx, no_hooks, depth)->0;
    let j = (a.len() + b.len() + line) as nat;
    crate::execute::lemma_failure_bounds_run(steps.len(), outcomes, j);
}

} // verus!
