//! The spans that a run's events make, for export as an OpenTelemetry trace.
//!
//! A run is one trace. The run itself is the root span; each recipe is a span
//! under the root, and each command line of a recipe is a span under the
//! recipe's. Span and trace identifiers are plain integers here (a span id of
//! zero means "no parent"), and times are milliseconds since the Unix epoch.

use vstd::prelude::*;
use vstd::string::StringExecFns;
use crate::decimal::{i32_to_string, int_decimal};
use crate::live_event::{now_ms, LiveEvent, LiveEventView};
use crate::clock::{epoch_plus_millis, time_at_millis};

verus! {

/// The outcome a span reports.
#[derive(Debug)]
pub enum SpanStatus {
    Success,
    Error(String),
}

pub enum SpanStatusView {
    Success,
    Error(Seq<char>),
}

impl View for SpanStatus {
    type V = SpanStatusView;

    open spec fn view(&self) -> SpanStatusView {
        match self {
            SpanStatus::Success => SpanStatusView::Success,
            SpanStatus::Error(m) => SpanStatusView::Error(m@),
        }
    }
}

/// The kind of a span: the run is the server span, recipes and commands are internal.
#[derive(Clone, Copy, Debug, PartialEq, Eq, Structural)]
pub enum SpanKind {
    Internal,
    Server,
}

/// The value of a span attribute.
#[derive(Debug)]
pub enum AttrValue {
    Str(String),
    Bool(bool),
    Int(i64),
}

pub enum AttrValueView {
    Str(Seq<char>),
    Bool(bool),
    Int(i64),
}

impl View for AttrValue {
    type V = AttrValueView;

    open spec fn view(&self) -> AttrValueView {
        match self {
            AttrValue::Str(s) => AttrValueView::Str(s@),
            AttrValue::Bool(b) => AttrValueView::Bool(*b),
            AttrValue::Int(i) => AttrValueView::Int(*i),
        }
    }
}

/// A key and its value, attached to a span.
#[derive(Debug)]
pub struct Attribute {
    pub key: String,
    pub value: AttrValue,
}

pub struct AttributeView {
    pub key: Seq<char>,
    pub value: AttrValueView,
}

impl View for Attribute {
    type V = AttributeView;

    open spec fn view(&self) -> AttributeView {
        AttributeView { key: self.key@, value: self.value@ }
    }
}

impl Clone for Attribute {
    fn clone(&self) -> (r: Self)
        ensures
            r@ == self@,
    {
        let value = match &self.value {
            AttrValue::Str(s) => AttrValue::Str(s.clone()),
            AttrValue::Bool(b) => AttrValue::Bool(*b),
            AttrValue::Int(i) => AttrValue::Int(*i),
        };
        Attribute { key: self.key.clone(), value }
    }
}

/// The values of a list of attributes.
pub open spec fn attrs_view(v: Seq<Attribute>) -> Seq<AttributeView> {
    v.map_values(|a: Attribute| a@)
}

/// A finished span, ready to be exported.
#[derive(Debug)]
pub struct SpanRecord {
    pub trace_id: u128,
    pub span_id: u64,
    pub parent_span_id: u64,
    pub name: String,
    pub start_ms: u64,
    pub duration_ms: u64,
    pub status: SpanStatus,
    pub attributes: Vec<Attribute>,
    pub kind: SpanKind,
}

pub struct SpanView {
    pub trace_id: u128,
    pub span_id: u64,
    pub parent_span_id: u64,
    pub name: Seq<char>,
    pub start_ms: u64,
    pub duration_ms: u64,
    pub status: SpanStatusView,
    pub attributes: Seq<AttributeView>,
    pub kind: SpanKind,
}

impl View for SpanRecord {
    type V = SpanView;

    open spec fn view(&self) -> SpanView {
        SpanView {
            trace_id: self.trace_id,
            span_id: self.span_id,
            parent_span_id: self.parent_span_id,
            name: self.name@,
            start_ms: self.start_ms,
            duration_ms: self.duration_ms,
            status: self.status@,
            attributes: attrs_view(self.attributes@),
            kind: self.kind,
        }
    }
}

/// The values of a list of spans.
pub open spec fn spans_view(v: Seq<SpanRecord>) -> Seq<SpanView> {
    v.map_values(|s: SpanRecord| s@)
}

/// A command line of a recipe that has started.
#[derive(Debug)]
struct CommandSpan {
    command: String,
    span_id: u64,
    start_ms: u64,
}

pub struct CommandSpanView {
    pub command: Seq<char>,
    pub span_id: u64,
    pub start_ms: u64,
}

impl View for CommandSpan {
    type V = CommandSpanView;

    closed spec fn view(&self) -> CommandSpanView {
        CommandSpanView { command: self.command@, span_id: self.span_id, start_ms: self.start_ms }
    }
}

/// A recipe that has started and not yet completed.
#[derive(Debug)]
struct RecipeSpan {
    command_spans: Vec<CommandSpan>,
    span_id: u64,
    start_ms: u64,
}

pub struct RecipeSpanView {
    pub command_spans: Seq<CommandSpanView>,
    pub span_id: u64,
    pub start_ms: u64,
}

impl View for RecipeSpan {
    type V = RecipeSpanView;

    closed spec fn view(&self) -> RecipeSpanView {
        RecipeSpanView {
            command_spans: self.command_spans@.map_values(|c: CommandSpan| c@),
            span_id: self.span_id,
            start_ms: self.start_ms,
        }
    }
}

/// What the exporter knows of a run.
pub struct OtelView {
    /// Spans finished and not yet taken for export, oldest first.
    pub pending: Seq<SpanView>,
    /// The recipes that have started and not completed, by name.
    pub recipes: Seq<(Seq<char>, RecipeSpanView)>,
    pub root_span_id: u64,
    pub run_start_ms: u64,
    pub session_attrs: Seq<AttributeView>,
    pub trace_id: u128,
}

/// The exporter's state for one run.
#[derive(Debug)]
pub struct OtelState {
    pending_spans: Vec<SpanRecord>,
    recipe_spans: Vec<(String, RecipeSpan)>,
    root_span_id: u64,
    run_start_ms: u64,
    session_attrs: Vec<Attribute>,
    trace_id: u128,
}

impl View for OtelState {
    type V = OtelView;

    closed spec fn view(&self) -> OtelView {
        OtelView {
            pending: spans_view(self.pending_spans@),
            recipes: self.recipe_spans@.map_values(|p: (String, RecipeSpan)| (p.0@, p.1@)),
            root_span_id: self.root_span_id,
            run_start_ms: self.run_start_ms,
            session_attrs: attrs_view(self.session_attrs@),
            trace_id: self.trace_id,
        }
    }
}

/// No recipe name occurs twice among the open recipes.
pub open spec fn names_distinct(recipes: Seq<(Seq<char>, RecipeSpanView)>) -> bool {
    forall|i: int, j: int|
        0 <= i < recipes.len() && 0 <= j < recipes.len() && i != j ==> recipes[i].0 != recipes[j].0
}

/// Where the open recipe `name` stands, if it is open.
pub open spec fn index_of(recipes: Seq<(Seq<char>, RecipeSpanView)>, name: Seq<char>) -> Option<int> {
    if exists|i: int| 0 <= i < recipes.len() && recipes[i].0 == name {
        Some(choose|i: int| 0 <= i < recipes.len() && recipes[i].0 == name)
    } else {
        None
    }
}

/// The open recipe `name`, if it is open.
pub open spec fn lookup(recipes: Seq<(Seq<char>, RecipeSpanView)>, name: Seq<char>) -> Option<RecipeSpanView> {
    match index_of(recipes, name) {
        Some(i) => Some(recipes[i].1),
        None => None,
    }
}

/// `recipes` with `name` open as `span`, replacing what was open under that name.
pub open spec fn insert_recipe(
    recipes: Seq<(Seq<char>, RecipeSpanView)>,
    name: Seq<char>,
    span: RecipeSpanView,
) -> Seq<(Seq<char>, RecipeSpanView)> {
    match index_of(recipes, name) {
        Some(i) => recipes.update(i, (name, span)),
        None => recipes.push((name, span)),
    }
}

/// `recipes` without `name`.
pub open spec fn remove_recipe(recipes: Seq<(Seq<char>, RecipeSpanView)>, name: Seq<char>) -> Seq<(Seq<char>, RecipeSpanView)> {
    match index_of(recipes, name) {
        Some(i) => recipes.remove(i),
        None => recipes,
    }
}

impl OtelState {
    /// The state's own consistency: each open recipe is open once.
    pub open spec fn wf(&self) -> bool {
        names_distinct(self@.recipes)
    }

    /// The state at the start of a run with the given trace and root span, started at `run_start_ms`.
    pub fn new(trace_id: u128, root_span_id: u64, run_start_ms: u64) -> (r: OtelState)
        ensures
            r.wf(),
            r@.pending == Seq::<SpanView>::empty(),
            r@.recipes == Seq::<(Seq<char>, RecipeSpanView)>::empty(),
            r@.root_span_id == root_span_id,
            r@.run_start_ms == run_start_ms,
            r@.session_attrs == Seq::<AttributeView>::empty(),
            r@.trace_id == trace_id,
    {
        let r = OtelState {
            pending_spans: Vec::new(),
            recipe_spans: Vec::new(),
            root_span_id,
            run_start_ms,
            session_attrs: Vec::new(),
            trace_id,
        };
        assert(r@.pending =~= Seq::<SpanView>::empty());
        assert(r@.recipes =~= Seq::<(Seq<char>, RecipeSpanView)>::empty());
        assert(r@.session_attrs =~= Seq::<AttributeView>::empty());
        r
    }

    fn find_recipe(&self, name: &String) -> (r: Option<usize>)
        requires
            self.wf(),
        ensures
            match r {
                Some(i) => index_of(self@.recipes, name@) == Some(i as int) && i < self.recipe_spans.len(),
                None => index_of(self@.recipes, name@) is None,
            },
    {
        let ghost recs = self@.recipes;
        let mut i: usize = 0;
        while i < self.recipe_spans.len()
            invariant
                i <= self.recipe_spans.len(),
                recs == self@.recipes,
                names_distinct(recs),
                recs.len() == self.recipe_spans.len(),
                forall|j: int| 0 <= j < i ==> recs[j].0 != name@,
            decreases self.recipe_spans.len() - i,
        {
            assert(recs[i as int].0 == self.recipe_spans@[i as int].0@);
            if self.recipe_spans[i].0 == *name {
                assert(recs[i as int].0 == name@);
                let ghost k = choose|k: int| 0 <= k < recs.len() && recs[k].0 == name@;
                assert(k == i);
                return Some(i);
            }
            i = i + 1;
        }
        None
    }
}


/// An attribute with a string value.
pub open spec fn str_attr(key: Seq<char>, value: Seq<char>) -> AttributeView {
    AttributeView { key, value: AttrValueView::Str(value) }
}

/// The attributes that describe a session, in the order the run span carries them.
pub open spec fn metadata_attrs(
    command_line: Seq<char>,
    working_dir: Seq<char>,
    git_branch: Option<Seq<char>>,
    git_commit: Option<Seq<char>>,
    git_dirty: bool,
) -> Seq<AttributeView> {
    seq![str_attr("just.command"@, command_line), str_attr("just.working_dir"@, working_dir)]
        + (match git_branch {
        Some(b) => seq![str_attr("vcs.branch"@, b)],
        None => Seq::<AttributeView>::empty(),
    }) + (match git_commit {
        Some(c) => seq![str_attr("vcs.commit"@, c)],
        None => Seq::<AttributeView>::empty(),
    }) + seq![AttributeView { key: "vcs.dirty"@, value: AttrValueView::Bool(git_dirty) }]
}

/// The span of the last command line of the open recipe `recipe`, which completed;
/// none where the recipe is not open or has run no line.
pub open spec fn line_span(
    s: OtelView,
    recipe: Seq<char>,
    success: bool,
    code: Option<i32>,
    duration_ms: u64,
) -> Option<SpanView> {
    match lookup(s.recipes, recipe) {
        Some(rs) => if rs.command_spans.len() == 0 {
            None
        } else {
            let cs = rs.command_spans.last();
            Some(SpanView {
                trace_id: s.trace_id,
                span_id: cs.span_id,
                parent_span_id: rs.span_id,
                name: "$ "@ + cs.command,
                start_ms: cs.start_ms,
                duration_ms,
                status: if success {
                    SpanStatusView::Success
                } else {
                    SpanStatusView::Error("exit code "@ + int_decimal(
                        match code {
                            Some(c) => c as int,
                            None => -1,
                        },
                    ))
                },
                attributes: seq![str_attr("just.recipe"@, recipe)] + match code {
                    Some(c) => seq![AttributeView { key: "process.exit.code"@, value: AttrValueView::Int(c as i64) }],
                    None => Seq::<AttributeView>::empty(),
                },
                kind: SpanKind::Internal,
            })
        },
        None => None,
    }
}

/// The span of the open recipe `name`, which completed; none where it is not open.
pub open spec fn recipe_span(
    s: OtelView,
    name: Seq<char>,
    success: bool,
    error_message: Option<Seq<char>>,
    duration_ms: u64,
) -> Option<SpanView> {
    match lookup(s.recipes, name) {
        Some(rs) => Some(SpanView {
            trace_id: s.trace_id,
            span_id: rs.span_id,
            parent_span_id: s.root_span_id,
            name: "recipe "@ + name,
            start_ms: rs.start_ms,
            duration_ms,
            status: if success {
                SpanStatusView::Success
            } else {
                SpanStatusView::Error(
                    match error_message {
                        Some(m) => m,
                        None => "failed"@,
                    },
                )
            },
            attributes: seq![str_attr("just.recipe"@, name)],
            kind: SpanKind::Internal,
        }),
        None => None,
    }
}

/// The root span of the run, which completed.
pub open spec fn run_span(s: OtelView, success: bool, duration_ms: u64) -> SpanView {
    SpanView {
        trace_id: s.trace_id,
        span_id: s.root_span_id,
        parent_span_id: 0,
        name: "just run"@,
        start_ms: s.run_start_ms,
        duration_ms,
        status: if success {
            SpanStatusView::Success
        } else {
            SpanStatusView::Error("run failed"@)
        },
        attributes: s.session_attrs.push(AttributeView { key: "just.success"@, value: AttrValueView::Bool(success) }),
        kind: SpanKind::Server,
    }
}

/// `pending` with the span, where there is one, added at its end.
pub open spec fn push_opt(pending: Seq<SpanView>, span: Option<SpanView>) -> Seq<SpanView> {
    match span {
        Some(sp) => pending.push(sp),
        None => pending,
    }
}

/// What one event does to the exporter's state; `fresh` is the span id that a
/// newly opened recipe or command line receives.
pub open spec fn otel_step(s: OtelView, e: LiveEventView, fresh: u64) -> OtelView {
    match e {
        LiveEventView::RunStarted { timestamp_ms } => OtelView { run_start_ms: timestamp_ms, ..s },
        LiveEventView::SessionMetadata { command_line, git_branch, git_commit, git_dirty, working_dir, .. } =>
            OtelView {
                session_attrs: metadata_attrs(command_line, working_dir, git_branch, git_commit, git_dirty),
                ..s
            },
        LiveEventView::RecipeStarted { name, timestamp_ms, .. } => OtelView {
            recipes: insert_recipe(
                s.recipes,
                name,
                RecipeSpanView { command_spans: Seq::empty(), span_id: fresh, start_ms: timestamp_ms },
            ),
            ..s
        },
        LiveEventView::RecipeLine { recipe, command, timestamp_ms } => match index_of(s.recipes, recipe) {
            Some(i) => {
                let rs = s.recipes[i].1;
                OtelView {
                    recipes: s.recipes.update(
                        i,
                        (
                            recipe,
                            RecipeSpanView {
                                command_spans: rs.command_spans.push(
                                    CommandSpanView { command, span_id: fresh, start_ms: timestamp_ms },
                                ),
                                ..rs
                            },
                        ),
                    ),
                    ..s
                }
            },
            None => s,
        },
        LiveEventView::RecipeLineCompleted { recipe, success, code, duration_ms, .. } => OtelView {
            pending: push_opt(s.pending, line_span(s, recipe, success, code, duration_ms)),
            ..s
        },
        LiveEventView::RecipeCompleted { name, success, error_message, duration_ms, .. } => OtelView {
            pending: push_opt(s.pending, recipe_span(s, name, success, error_message, duration_ms)),
            recipes: remove_recipe(s.recipes, name),
            ..s
        },
        LiveEventView::RunCompleted { success, duration_ms, .. } => OtelView {
            pending: s.pending.push(run_span(s, success, duration_ms)),
            ..s
        },
    }
}


/// Opening a recipe under a name keeps the open recipes' names distinct.
proof fn lemma_insert_distinct(recipes: Seq<(Seq<char>, RecipeSpanView)>, name: Seq<char>, span: RecipeSpanView)
    requires
        names_distinct(recipes),
    ensures
        names_distinct(insert_recipe(recipes, name, span)),
{
    let r = insert_recipe(recipes, name, span);
    match index_of(recipes, name) {
        Some(i) => {
            assert forall|a: int, b: int| 0 <= a < r.len() && 0 <= b < r.len() && a != b implies r[a].0 != r[b].0 by {
                if a == i || b == i {
                } else {
                    assert(r[a] == recipes[a] && r[b] == recipes[b]);
                }
            }
        },
        None => {
            assert forall|a: int, b: int| 0 <= a < r.len() && 0 <= b < r.len() && a != b implies r[a].0 != r[b].0 by {
                if a == recipes.len() as int {
                    assert(recipes[b].0 != name);
                } else if b == recipes.len() as int {
                    assert(recipes[a].0 != name);
                } else {
                }
            }
        },
    }
}

/// Closing a recipe keeps the open recipes' names distinct.
proof fn lemma_remove_distinct(recipes: Seq<(Seq<char>, RecipeSpanView)>, name: Seq<char>)
    requires
        names_distinct(recipes),
    ensures
        names_distinct(remove_recipe(recipes, name)),
{
    let r = remove_recipe(recipes, name);
    match index_of(recipes, name) {
        Some(i) => {
            assert forall|a: int, b: int| 0 <= a < r.len() && 0 <= b < r.len() && a != b implies r[a].0 != r[b].0 by {
                let a2 = if a < i { a } else { a + 1 };
                let b2 = if b < i { b } else { b + 1 };
                assert(r[a] == recipes[a2] && r[b] == recipes[b2]);
            }
        },
        None => {},
    }
}

impl OtelState {
    fn open_recipe(&mut self, name: String, span_id: u64, start_ms: u64)
        requires
            old(self).wf(),
        ensures
            final(self).wf(),
            final(self)@ == (OtelView {
                recipes: insert_recipe(
                    old(self)@.recipes,
                    name@,
                    RecipeSpanView { command_spans: Seq::empty(), span_id, start_ms },
                ),
                ..old(self)@
            }),
    {
        let ghost span = RecipeSpanView { command_spans: Seq::empty(), span_id, start_ms };
        let ghost name_v = name@;
        proof { lemma_insert_distinct(old(self)@.recipes, name@, span); }
        let rs = RecipeSpan { command_spans: Vec::new(), span_id, start_ms };
        assert(rs@.command_spans =~= Seq::<CommandSpanView>::empty());
        match self.find_recipe(&name) {
            Some(i) => {
                self.recipe_spans.set(i, (name, rs));
            },
            None => {
                self.recipe_spans.push((name, rs));
            },
        }
        assert(self@.recipes =~= insert_recipe(old(self)@.recipes, name_v, span));
    }

    fn open_line(&mut self, recipe: String, command: String, span_id: u64, start_ms: u64)
        requires
            old(self).wf(),
        ensures
            final(self).wf(),
            final(self)@ == otel_step(
                old(self)@,
                LiveEventView::RecipeLine { recipe: recipe@, command: command@, timestamp_ms: start_ms },
                span_id,
            ),
    {
        let ghost recipe_v = recipe@;
        let ghost command_v = command@;
        match self.find_recipe(&recipe) {
            Some(i) => {
                let ghost recs = old(self)@.recipes;
                let (key, mut rs) = self.recipe_spans.remove(i);
                rs.command_spans.push(CommandSpan { command, span_id, start_ms });
                self.recipe_spans.insert(i, (key, rs));
                let ghost new_rs = RecipeSpanView {
                    command_spans: recs[i as int].1.command_spans.push(
                        CommandSpanView { command: command_v, span_id, start_ms },
                    ),
                    ..recs[i as int].1
                };
                assert(rs@.command_spans =~= new_rs.command_spans);
                assert(self@.recipes =~= recs.update(i as int, (recipe_v, new_rs)));
                assert forall|a: int, b: int|
                    0 <= a < self@.recipes.len() && 0 <= b < self@.recipes.len() && a != b
                    implies self@.recipes[a].0 != self@.recipes[b].0 by {
                    assert(self@.recipes[a].0 == recs[a].0);
                    assert(self@.recipes[b].0 == recs[b].0);
                }
            },
            None => {},
        }
    }

    /// A span of this run, from the given parts.
    pub fn build_span(
        &self,
        name: String,
        span_id: u64,
        parent_span_id: u64,
        start_ms: u64,
        duration_ms: u64,
        status: SpanStatus,
        attributes: Vec<Attribute>,
        kind: SpanKind,
    ) -> (r: SpanRecord)
        ensures
            r@ == (SpanView {
                trace_id: self@.trace_id,
                span_id,
                parent_span_id,
                name: name@,
                start_ms,
                duration_ms,
                status: status@,
                attributes: attrs_view(attributes@),
                kind,
            }),
    {
        SpanRecord {
            trace_id: self.trace_id,
            span_id,
            parent_span_id,
            name,
            start_ms,
            duration_ms,
            status,
            attributes,
            kind,
        }
    }
}


impl OtelState {
    fn complete_line(&mut self, recipe: String, success: bool, code: Option<i32>, duration_ms: u64)
        requires
            old(self).wf(),
        ensures
            final(self).wf(),
            final(self)@ == (OtelView {
                pending: push_opt(old(self)@.pending, line_span(old(self)@, recipe@, success, code, duration_ms)),
                ..old(self)@
            }),
    {
        let ghost recipe_v = recipe@;
        match self.find_recipe(&recipe) {
            Some(i) => {
                let n = self.recipe_spans[i].1.command_spans.len();
                if n > 0 {
                    let ghost rs = self@.recipes[i as int].1;
                    assert(rs.command_spans.last() == self.recipe_spans@[i as int].1.command_spans@[n - 1]@);
                    let mut name = String::from_str("$ ");
                    name.append(self.recipe_spans[i].1.command_spans[n - 1].command.as_str());
                    let cs_id = self.recipe_spans[i].1.command_spans[n - 1].span_id;
                    let cs_start = self.recipe_spans[i].1.command_spans[n - 1].start_ms;
                    let rs_id = self.recipe_spans[i].1.span_id;
                    let status = if success {
                        SpanStatus::Success
                    } else {
                        let mut m = String::from_str("exit code ");
                        let c: i32 = match code {
                            Some(c) => c,
                            None => -1,
                        };
                        let digits = i32_to_string(c);
                        m.append(digits.as_str());
                        SpanStatus::Error(m)
                    };
                    let mut attrs: Vec<Attribute> = Vec::new();
                    attrs.push(Attribute { key: String::from_str("just.recipe"), value: AttrValue::Str(recipe) });
                    match code {
                        Some(c) => {
                            attrs.push(
                                Attribute { key: String::from_str("process.exit.code"), value: AttrValue::Int(c as i64) },
                            );
                        },
                        None => {},
                    }
                    let span = self.build_span(name, cs_id, rs_id, cs_start, duration_ms, status, attrs, SpanKind::Internal);
                    let ghost expected = line_span(old(self)@, recipe_v, success, code, duration_ms);
                    assert(span@.attributes =~= expected->0.attributes);
                    assert(span@ == expected->0);
                    self.pending_spans.push(span);
                    assert(self@.pending =~= old(self)@.pending.push(expected->0));
                    assert(self@.recipes =~= old(self)@.recipes);
                    assert(self@.session_attrs =~= old(self)@.session_attrs);
                }
            },
            None => {},
        }
    }

    fn complete_recipe(
        &mut self,
        name: String,
        success: bool,
        error_message: Option<String>,
        duration_ms: u64,
    )
        requires
            old(self).wf(),
        ensures
            final(self).wf(),
            final(self)@ == (OtelView {
                pending: push_opt(
                    old(self)@.pending,
                    recipe_span(old(self)@, name@, success, crate::live_event::opt_str_view(error_message), duration_ms),
                ),
                recipes: remove_recipe(old(self)@.recipes, name@),
                ..old(self)@
            }),
    {
        let ghost name_v = name@;
        proof { lemma_remove_distinct(old(self)@.recipes, name@); }
        match self.find_recipe(&name) {
            Some(i) => {
                let rs_id = self.recipe_spans[i].1.span_id;
                let rs_start = self.recipe_spans[i].1.start_ms;
                let mut span_name = String::from_str("recipe ");
                span_name.append(name.as_str());
                let status = if success {
                    SpanStatus::Success
                } else {
                    match error_message {
                        Some(m) => SpanStatus::Error(m),
                        None => SpanStatus::Error(String::from_str("failed")),
                    }
                };
                let mut attrs: Vec<Attribute> = Vec::new();
                attrs.push(Attribute { key: String::from_str("just.recipe"), value: AttrValue::Str(name) });
                let root = self.root_span_id;
                let span = self.build_span(span_name, rs_id, root, rs_start, duration_ms, status, attrs, SpanKind::Internal);
                let ghost expected = recipe_span(
                    old(self)@,
                    name_v,
                    success,
                    crate::live_event::opt_str_view(error_message),
                    duration_ms,
                );
                assert(span@.attributes =~= expected->0.attributes);
                assert(span@ == expected->0);
                self.pending_spans.push(span);
                self.recipe_spans.remove(i);
                assert(self@.pending =~= old(self)@.pending.push(expected->0));
                assert(self@.recipes =~= old(self)@.recipes.remove(i as int));
                assert(self@.session_attrs =~= old(self)@.session_attrs);
            },
            None => {},
        }
    }

    fn complete_run(&mut self, success: bool, duration_ms: u64)
        requires
            old(self).wf(),
        ensures
            final(self).wf(),
            final(self)@ == (OtelView {
                pending: old(self)@.pending.push(run_span(old(self)@, success, duration_ms)),
                ..old(self)@
            }),
    {
        let mut attrs: Vec<Attribute> = Vec::new();
        let mut k: usize = 0;
        while k < self.session_attrs.len()
            invariant
                k <= self.session_attrs.len(),
                attrs_view(attrs@) == attrs_view(self.session_attrs@).take(k as int),
            decreases self.session_attrs.len() - k,
        {
            let c = self.session_attrs[k].clone();
            let ghost before = attrs@;
            attrs.push(c);
            assert(attrs@ == before.push(c));
            assert(attrs_view(before).len() == before.len());
            assert(attrs_view(self.session_attrs@).take(k as int).len() == k);
            assert(before.len() == k);
            assert(attrs_view(attrs@).len() == k + 1);
            assert forall|j: int| 0 <= j < k + 1 implies #[trigger] attrs_view(attrs@)[j] == attrs_view(self.session_attrs@)[j] by {
                if j < k {
                    assert(attrs_view(attrs@)[j] == attrs_view(before)[j]);
                }
            }
            assert(attrs_view(attrs@) =~= attrs_view(self.session_attrs@).take(k + 1));
            k = k + 1;
        }
        assert(attrs_view(self.session_attrs@).take(k as int) =~= attrs_view(self.session_attrs@));
        attrs.push(Attribute { key: String::from_str("just.success"), value: AttrValue::Bool(success) });
        let status = if success {
            SpanStatus::Success
        } else {
            SpanStatus::Error(String::from_str("run failed"))
        };
        let root = self.root_span_id;
        let start = self.run_start_ms;
        let span = self.build_span(String::from_str("just run"), root, 0, start, duration_ms, status, attrs, SpanKind::Server);
        let ghost expected = run_span(old(self)@, success, duration_ms);
        assert(span@.attributes =~= expected.attributes);
        self.pending_spans.push(span);
        assert(self@.pending =~= old(self)@.pending.push(expected));
        assert(self@.recipes =~= old(self)@.recipes);
        assert(self@.session_attrs =~= old(self)@.session_attrs);
    }

    fn set_session(
        &mut self,
        command_line: String,
        working_dir: String,
        git_branch: Option<String>,
        git_commit: Option<String>,
        git_dirty: bool,
    )
        requires
            old(self).wf(),
        ensures
            final(self).wf(),
            final(self)@ == (OtelView {
                session_attrs: metadata_attrs(
                    command_line@,
                    working_dir@,
                    crate::live_event::opt_str_view(git_branch),
                    crate::live_event::opt_str_view(git_commit),
                    git_dirty,
                ),
                ..old(self)@
            }),
    {
        let ghost expected = metadata_attrs(
            command_line@,
            working_dir@,
            crate::live_event::opt_str_view(git_branch),
            crate::live_event::opt_str_view(git_commit),
            git_dirty,
        );
        let mut attrs: Vec<Attribute> = Vec::new();
        attrs.push(Attribute { key: String::from_str("just.command"), value: AttrValue::Str(command_line) });
        attrs.push(Attribute { key: String::from_str("just.working_dir"), value: AttrValue::Str(working_dir) });
        match git_branch {
            Some(b) => {
                attrs.push(Attribute { key: String::from_str("vcs.branch"), value: AttrValue::Str(b) });
            },
            None => {},
        }
        match git_commit {
            Some(c) => {
                attrs.push(Attribute { key: String::from_str("vcs.commit"), value: AttrValue::Str(c) });
            },
            None => {},
        }
        attrs.push(Attribute { key: String::from_str("vcs.dirty"), value: AttrValue::Bool(git_dirty) });
        self.session_attrs = attrs;
        assert(self@.session_attrs =~= expected);
        assert(self@.pending =~= old(self)@.pending);
        assert(self@.recipes =~= old(self)@.recipes);
    }

    /// Takes in one event of the run; `fresh_span_id` is the id that a recipe or
    /// command line that the event opens receives.
    pub fn handle_event_with_id(&mut self, event: LiveEvent, fresh_span_id: u64)
        requires
            old(self).wf(),
        ensures
            final(self).wf(),
            final(self)@ == otel_step(old(self)@, event@, fresh_span_id),
    {
        let ghost e = event@;
        match event {
            LiveEvent::RunStarted { timestamp_ms } => {
                self.run_start_ms = timestamp_ms;
                assert(self@.pending =~= old(self)@.pending);
                assert(self@.recipes =~= old(self)@.recipes);
                assert(self@.session_attrs =~= old(self)@.session_attrs);
            },
            LiveEvent::SessionMetadata { command_line, git_branch, git_commit, git_dirty, working_dir, .. } => {
                self.set_session(command_line, working_dir, git_branch, git_commit, git_dirty);
            },
            LiveEvent::RecipeStarted { name, timestamp_ms, .. } => {
                self.open_recipe(name, fresh_span_id, timestamp_ms);
            },
            LiveEvent::RecipeLine { recipe, command, timestamp_ms } => {
                self.open_line(recipe, command, fresh_span_id, timestamp_ms);
            },
            LiveEvent::RecipeLineCompleted { recipe, success, code, duration_ms, .. } => {
                self.complete_line(recipe, success, code, duration_ms);
            },
            LiveEvent::RecipeCompleted { name, success, error_message, duration_ms, .. } => {
                self.complete_recipe(name, success, error_message, duration_ms);
            },
            LiveEvent::RunCompleted { success, duration_ms, .. } => {
                self.complete_run(success, duration_ms);
            },
        }
    }

    /// Takes the finished spans out for export, oldest first.
    pub fn take_pending(&mut self) -> (r: Vec<SpanRecord>)
        requires
            old(self).wf(),
        ensures
            final(self).wf(),
            spans_view(r@) == old(self)@.pending,
            final(self)@ == (OtelView { pending: Seq::empty(), ..old(self)@ }),
    {
        let mut r: Vec<SpanRecord> = Vec::new();
        std::mem::swap(&mut r, &mut self.pending_spans);
        assert(self@.pending =~= Seq::<SpanView>::empty());
        assert(self@.recipes =~= old(self)@.recipes);
        assert(self@.session_attrs =~= old(self)@.session_attrs);
        r
    }
}


/// The time `ms` milliseconds after the Unix epoch; none where the platform
/// cannot represent it.
pub fn ts_to_systime(ms: u64) -> (r: Option<std::time::SystemTime>)
    ensures
        r == time_at_millis(ms),
{
    epoch_plus_millis(ms)
}

/// A random span id, from 8 random bytes of `rand::random` read big-endian,
/// as `SpanId::from_bytes` reads them. Nothing is stated of it: it is random.
#[verifier::external_body]
fn new_span_id() -> u64 {
    u64::from_be_bytes(rand::random::<[u8; 8]>())
}

/// A random trace id, from 16 random bytes of `rand::random` read big-endian,
/// as `TraceId::from_bytes` reads them. Nothing is stated of it: it is random.
#[verifier::external_body]
fn new_trace_id() -> u128 {
    u128::from_be_bytes(rand::random::<[u8; 16]>())
}

impl OtelState {
    /// The state at the start of a run: a random trace id and root span id,
    /// and the run's start read from the clock.
    pub fn begin() -> (r: OtelState)
        ensures
            r.wf(),
            r@.pending == Seq::<SpanView>::empty(),
            r@.recipes == Seq::<(Seq<char>, RecipeSpanView)>::empty(),
            r@.session_attrs == Seq::<AttributeView>::empty(),
    {
        let trace_id = new_trace_id();
        let root = new_span_id();
        let start = now_ms();
        OtelState::new(trace_id, root, start)
    }

    /// Takes in one event of the run, giving a recipe or command line that it
    /// opens a random span id.
    pub fn handle_event(&mut self, event: LiveEvent)
        requires
            old(self).wf(),
        ensures
            final(self).wf(),
            exists|fresh: u64| final(self)@ == otel_step(old(self)@, event@, fresh),
    {
        let fresh = new_span_id();
        self.handle_event_with_id(event, fresh);
    }
}


/// An event never changes the run's trace id or root span id.
pub proof fn lemma_step_keeps_ids(s: OtelView, e: LiveEventView, fresh: u64)
    ensures
        otel_step(s, e, fresh).trace_id == s.trace_id,
        otel_step(s, e, fresh).root_span_id == s.root_span_id,
{
}

/// An event never takes back a finished span: the spans pending before it stay
/// pending, in order, and it adds at most one, which belongs to the run's trace.
pub proof fn lemma_step_only_appends(s: OtelView, e: LiveEventView, fresh: u64)
    ensures
        otel_step(s, e, fresh).pending.len() <= s.pending.len() + 1,
        s.pending.len() <= otel_step(s, e, fresh).pending.len(),
        otel_step(s, e, fresh).pending.subrange(0, s.pending.len() as int) == s.pending,
        forall|i: int|
            s.pending.len() <= i < otel_step(s, e, fresh).pending.len()
                ==> #[trigger] otel_step(s, e, fresh).pending[i].trace_id == s.trace_id,
{
    let t = otel_step(s, e, fresh);
    assert(t.pending.subrange(0, s.pending.len() as int) =~= s.pending);
}

/// Each open recipe stays open under one name only.
pub proof fn lemma_step_keeps_names_distinct(s: OtelView, e: LiveEventView, fresh: u64)
    requires
        names_distinct(s.recipes),
    ensures
        names_distinct(otel_step(s, e, fresh).recipes),
{
    match e {
        LiveEventView::RecipeStarted { name, timestamp_ms, .. } => {
            lemma_insert_distinct(
                s.recipes,
                name,
                RecipeSpanView { command_spans: Seq::empty(), span_id: fresh, start_ms: timestamp_ms },
            );
        },
        LiveEventView::RecipeCompleted { name, .. } => {
            lemma_remove_distinct(s.recipes, name);
        },
        LiveEventView::RecipeLine { recipe, command, timestamp_ms } => {
            let t = otel_step(s, e, fresh);
            match index_of(s.recipes, recipe) {
                Some(i) => {
                    assert forall|a: int, b: int| 0 <= a < t.recipes.len() && 0 <= b < t.recipes.len() && a != b
                        implies t.recipes[a].0 != t.recipes[b].0 by {
                        assert(t.recipes[a].0 == s.recipes[a].0);
                        assert(t.recipes[b].0 == s.recipes[b].0);
                    }
                },
                None => {},
            }
        },
        _ => {},
    }
}

/// A recipe that starts is open under its name, with no command line yet,
/// the given span id, and its start time.
pub proof fn lemma_started_recipe_is_open(
    s: OtelView,
    name: Seq<char>,
    doc: Option<Seq<char>>,
    is_dependency: bool,
    timestamp_ms: u64,
    fresh: u64,
)
    requires
        names_distinct(s.recipes),
    ensures
        lookup(
            otel_step(s, LiveEventView::RecipeStarted { name, doc, is_dependency, timestamp_ms }, fresh).recipes,
            name,
        ) == Some(RecipeSpanView { command_spans: Seq::empty(), span_id: fresh, start_ms: timestamp_ms }),
{
    let span = RecipeSpanView { command_spans: Seq::empty(), span_id: fresh, start_ms: timestamp_ms };
    let t = insert_recipe(s.recipes, name, span);
    lemma_insert_distinct(s.recipes, name, span);
    match index_of(s.recipes, name) {
        Some(i) => {
            assert(t[i].0 == name);
        },
        None => {
            assert(t[s.recipes.len() as int].0 == name);
        },
    }
    let k = choose|k: int| 0 <= k < t.len() && t[k].0 == name;
    match index_of(s.recipes, name) {
        Some(i) => {
            assert(k == i);
        },
        None => {
            assert(k == s.recipes.len());
        },
    }
}

/// A recipe that completes is no longer open, and the span it gives, if any,
/// is its own open span, a child of the run's root span: named `recipe ` and
/// its name, from its start, with the status success where it succeeded and
/// else an error with its message (`failed` where it has none).
pub proof fn lemma_completed_recipe_is_closed(
    s: OtelView,
    name: Seq<char>,
    success: bool,
    error_message: Option<Seq<char>>,
    duration_ms: u64,
    timestamp_ms: u64,
    fresh: u64,
)
    requires
        names_distinct(s.recipes),
    ensures
        ({
            let t = otel_step(
                s,
                LiveEventView::RecipeCompleted { name, success, error_message, duration_ms, timestamp_ms },
                fresh,
            );
            &&& lookup(t.recipes, name) is None
            &&& match lookup(s.recipes, name) {
                Some(rs) => t.pending == s.pending.push(recipe_span(s, name, success, error_message, duration_ms)->0)
                    && t.pending.last().span_id == rs.span_id
                    && t.pending.last().parent_span_id == s.root_span_id
                    && t.pending.last().name == "recipe "@ + name
                    && t.pending.last().start_ms == rs.start_ms
                    && t.pending.last().duration_ms == duration_ms
                    && t.pending.last().trace_id == s.trace_id
                    && (success ==> t.pending.last().status == SpanStatusView::Success)
                    && (!success ==> t.pending.last().status == SpanStatusView::Error(
                        match error_message {
                            Some(m) => m,
                            None => "failed"@,
                        },
                    )),
                None => t.pending == s.pending,
            }
        }),
{
    let t = remove_recipe(s.recipes, name);
    match index_of(s.recipes, name) {
        Some(i) => {
            assert forall|k: int| 0 <= k < t.len() implies t[k].0 != name by {
                let k2 = if k < i { k } else { k + 1 };
                assert(t[k] == s.recipes[k2]);
            }
        },
        None => {},
    }
}

/// A command line that completes gives the span of the most recently opened
/// command line of its recipe, where the recipe is open and has opened one: that
/// line's span id, name (`$ ` and its command) and start, a child of the recipe's
/// span in the run's trace. A line that succeeded has the status success; only a
/// line that failed has an error, `exit code` and its exit code (-1 where it has
/// none). It carries the recipe's name and, where there is one, the exit code as
/// attributes. Where the recipe is not open or has opened no line, no span is
/// given. The open recipes stay as they are.
pub proof fn lemma_completed_line_span(
    s: OtelView,
    recipe: Seq<char>,
    command: Seq<char>,
    success: bool,
    code: Option<i32>,
    duration_ms: u64,
    timestamp_ms: u64,
    fresh: u64,
)
    ensures
        ({
            let t = otel_step(
                s,
                LiveEventView::RecipeLineCompleted { recipe, command, success, code, duration_ms, timestamp_ms },
                fresh,
            );
            &&& t.recipes == s.recipes
            &&& match lookup(s.recipes, recipe) {
                Some(rs) => if rs.command_spans.len() > 0 {
                    let sp = t.pending.last();
                    let cs = rs.command_spans[rs.command_spans.len() - 1];
                    &&& t.pending.len() == s.pending.len() + 1
                    &&& t.pending.drop_last() == s.pending
                    &&& sp.span_id == cs.span_id
                    &&& sp.name == "$ "@ + cs.command
                    &&& sp.start_ms == cs.start_ms
                    &&& sp.parent_span_id == rs.span_id
                    &&& sp.trace_id == s.trace_id
                    &&& sp.duration_ms == duration_ms
                    &&& sp.kind == SpanKind::Internal
                    &&& sp.attributes == seq![str_attr("just.recipe"@, recipe)] + match code {
                        Some(c) => seq![AttributeView { key: "process.exit.code"@, value: AttrValueView::Int(c as i64) }],
                        None => Seq::<AttributeView>::empty(),
                    }
                    &&& (success ==> sp.status == SpanStatusView::Success)
                    &&& (!success ==> sp.status == SpanStatusView::Error(
                        "exit code "@ + int_decimal(
                            match code {
                                Some(c) => c as int,
                                None => -1,
                            },
                        ),
                    ))
                } else {
                    t.pending == s.pending
                },
                None => t.pending == s.pending,
            }
        }),
{
    let t = otel_step(
        s,
        LiveEventView::RecipeLineCompleted { recipe, command, success, code, duration_ms, timestamp_ms },
        fresh,
    );
    if line_span(s, recipe, success, code, duration_ms) is Some {
        assert(t.pending.drop_last() =~= s.pending);
    }
}

/// A command line that starts and then completes gives one span, and it is that
/// line's: the id the line received, `$ ` and its command as name, its start,
/// and success where it succeeded; the lines that the recipe ran before it do
/// not stand in for it.
pub proof fn lemma_line_then_completion(
    s: OtelView,
    recipe: Seq<char>,
    command: Seq<char>,
    start_ms: u64,
    line_id: u64,
    reported_command: Seq<char>,
    success: bool,
    code: Option<i32>,
    duration_ms: u64,
    end_ms: u64,
    fresh: u64,
)
    requires
        names_distinct(s.recipes),
        lookup(s.recipes, recipe) is Some,
    ensures
        ({
            let s1 = otel_step(s, LiveEventView::RecipeLine { recipe, command, timestamp_ms: start_ms }, line_id);
            let s2 = otel_step(
                s1,
                LiveEventView::RecipeLineCompleted {
                    recipe,
                    command: reported_command,
                    success,
                    code,
                    duration_ms,
                    timestamp_ms: end_ms,
                },
                fresh,
            );
            let sp = s2.pending.last();
            &&& s2.pending.len() == s.pending.len() + 1
            &&& s2.pending.drop_last() == s.pending
            &&& sp.span_id == line_id
            &&& sp.name == "$ "@ + command
            &&& sp.start_ms == start_ms
            &&& sp.parent_span_id == lookup(s.recipes, recipe)->0.span_id
            &&& sp.duration_ms == duration_ms
            &&& (success ==> sp.status == SpanStatusView::Success)
        }),
{
    let e1 = LiveEventView::RecipeLine { recipe, command, timestamp_ms: start_ms };
    let s1 = otel_step(s, e1, line_id);
    lemma_step_keeps_names_distinct(s, e1, line_id);
    let i = index_of(s.recipes, recipe)->0;
    let rs = s.recipes[i].1;
    let cs = CommandSpanView { command, span_id: line_id, start_ms };
    let rs1 = RecipeSpanView { command_spans: rs.command_spans.push(cs), ..rs };
    assert(s1.recipes == s.recipes.update(i, (recipe, rs1)));
    assert(s1.recipes[i].0 == recipe);
    let k = choose|k: int| 0 <= k < s1.recipes.len() && s1.recipes[k].0 == recipe;
    assert(k == i);
    assert(lookup(s1.recipes, recipe) == Some(rs1));
    lemma_completed_line_span(s1, recipe, reported_command, success, code, duration_ms, end_ms, fresh);
    assert(rs1.command_spans[rs1.command_spans.len() - 1] == cs);
}

/// The run's completion gives the root span: the run's own span id, no parent,
/// the server kind, and the session's attributes followed by the run's success.
pub proof fn lemma_run_completed_gives_root(
    s: OtelView,
    success: bool,
    duration_ms: u64,
    timestamp_ms: u64,
    fresh: u64,
)
    ensures
        ({
            let t = otel_step(s, LiveEventView::RunCompleted { success, duration_ms, timestamp_ms }, fresh);
            &&& t.pending.len() == s.pending.len() + 1
            &&& t.pending.last().span_id == s.root_span_id
            &&& t.pending.last().parent_span_id == 0
            &&& t.pending.last().kind == SpanKind::Server
            &&& t.pending.last().start_ms == s.run_start_ms
            &&& t.pending.last().attributes.drop_last() == s.session_attrs
            &&& t.recipes == s.recipes
        }),
{
    let t = otel_step(s, LiveEventView::RunCompleted { success, duration_ms, timestamp_ms }, fresh);
    assert(t.pending.last().attributes.drop_last() =~= s.session_attrs);
}

impl OtelState {
    /// Takes in one message of the run's event stream: its event, or none where
    /// the message could not be read, which is skipped. Returns the spans to
    /// export, and whether the exporter stops: once the run has completed.
    pub fn take_in(&mut self, event: Option<LiveEvent>) -> (r: (Vec<SpanRecord>, bool))
        requires
            old(self).wf(),
        ensures
            final(self).wf(),
            match event {
                None => r.0@.len() == 0 && !r.1 && final(self)@ == old(self)@,
                Some(e) => r.1 == (e@ is RunCompleted) && exists|fresh: u64| {
                    &&& spans_view(r.0@) == otel_step(old(self)@, e@, fresh).pending
                    &&& final(self)@ == (OtelView { pending: Seq::empty(), ..otel_step(old(self)@, e@, fresh) })
                },
            },
    {
        match event {
            None => (Vec::new(), false),
            Some(e) => {
                let stop = match &e {
                    LiveEvent::RunCompleted { .. } => true,
                    _ => false,
                };
                self.handle_event(e);
                let spans = self.take_pending();
                (spans, stop)
            },
        }
    }
}

} // verus!
