//! The events that a run of `just` reports to live viewers and trace exporters,
//! and the state that decides whether they are reported.

use vstd::prelude::*;
use vstd::string::StringExecFns;
use crate::text::{from_utf8_lossy, str_trim, trim, utf8_lossy};
use crate::clock::{duration_millis, since_unix_epoch, system_time_now, truncate_millis};

verus! {

/// The value of an optional string.
pub open spec fn opt_str_view(o: Option<String>) -> Option<Seq<char>> {
    match o {
        Some(s) => Some(s@),
        None => None,
    }
}

/// The values of a list of strings.
pub open spec fn strs_view(v: Seq<String>) -> Seq<Seq<char>> {
    v.map_values(|s: String| s@)
}

/// A recipe of the justfile, as a session reports it.
#[derive(Clone, Debug)]
pub struct RecipeNode {
    pub dependencies: Vec<String>,
    pub doc: Option<String>,
    pub name: String,
}

pub struct RecipeNodeView {
    pub dependencies: Seq<Seq<char>>,
    pub doc: Option<Seq<char>>,
    pub name: Seq<char>,
}

impl View for RecipeNode {
    type V = RecipeNodeView;

    open spec fn view(&self) -> RecipeNodeView {
        RecipeNodeView {
            dependencies: strs_view(self.dependencies@),
            doc: opt_str_view(self.doc),
            name: self.name@,
        }
    }
}

/// Something that happened during a run. Times are milliseconds since the Unix epoch.
#[derive(Clone, Debug)]
pub enum LiveEvent {
    RecipeCompleted {
        name: String,
        success: bool,
        error_message: Option<String>,
        duration_ms: u64,
        timestamp_ms: u64,
    },
    RecipeLine {
        recipe: String,
        command: String,
        timestamp_ms: u64,
    },
    RecipeLineCompleted {
        recipe: String,
        command: String,
        success: bool,
        code: Option<i32>,
        duration_ms: u64,
        timestamp_ms: u64,
    },
    RecipeStarted {
        name: String,
        doc: Option<String>,
        is_dependency: bool,
        timestamp_ms: u64,
    },
    RunCompleted {
        success: bool,
        duration_ms: u64,
        timestamp_ms: u64,
    },
    RunStarted {
        timestamp_ms: u64,
    },
    SessionMetadata {
        command_line: String,
        git_branch: Option<String>,
        git_commit: Option<String>,
        git_dirty: bool,
        recipes: Vec<RecipeNode>,
        timestamp_ms: u64,
        working_dir: String,
    },
}

pub enum LiveEventView {
    RecipeCompleted {
        name: Seq<char>,
        success: bool,
        error_message: Option<Seq<char>>,
        duration_ms: u64,
        timestamp_ms: u64,
    },
    RecipeLine {
        recipe: Seq<char>,
        command: Seq<char>,
        timestamp_ms: u64,
    },
    RecipeLineCompleted {
        recipe: Seq<char>,
        command: Seq<char>,
        success: bool,
        code: Option<i32>,
        duration_ms: u64,
        timestamp_ms: u64,
    },
    RecipeStarted {
        name: Seq<char>,
        doc: Option<Seq<char>>,
        is_dependency: bool,
        timestamp_ms: u64,
    },
    RunCompleted {
        success: bool,
        duration_ms: u64,
        timestamp_ms: u64,
    },
    RunStarted {
        timestamp_ms: u64,
    },
    SessionMetadata {
        command_line: Seq<char>,
        git_branch: Option<Seq<char>>,
        git_commit: Option<Seq<char>>,
        git_dirty: bool,
        recipes: Seq<RecipeNodeView>,
        timestamp_ms: u64,
        working_dir: Seq<char>,
    },
}

impl View for LiveEvent {
    type V = LiveEventView;

    open spec fn view(&self) -> LiveEventView {
        match self {
            LiveEvent::RecipeCompleted { name, success, error_message, duration_ms, timestamp_ms } =>
                LiveEventView::RecipeCompleted {
                    name: name@,
                    success: *success,
                    error_message: opt_str_view(*error_message),
                    duration_ms: *duration_ms,
                    timestamp_ms: *timestamp_ms,
                },
            LiveEvent::RecipeLine { recipe, command, timestamp_ms } => LiveEventView::RecipeLine {
                recipe: recipe@,
                command: command@,
                timestamp_ms: *timestamp_ms,
            },
            LiveEvent::RecipeLineCompleted { recipe, command, success, code, duration_ms, timestamp_ms } =>
                LiveEventView::RecipeLineCompleted {
                    recipe: recipe@,
                    command: command@,
                    success: *success,
                    code: *code,
                    duration_ms: *duration_ms,
                    timestamp_ms: *timestamp_ms,
                },
            LiveEvent::RecipeStarted { name, doc, is_dependency, timestamp_ms } =>
                LiveEventView::RecipeStarted {
                    name: name@,
                    doc: opt_str_view(*doc),
                    is_dependency: *is_dependency,
                    timestamp_ms: *timestamp_ms,
                },
            LiveEvent::RunCompleted { success, duration_ms, timestamp_ms } =>
                LiveEventView::RunCompleted {
                    success: *success,
                    duration_ms: *duration_ms,
                    timestamp_ms: *timestamp_ms,
                },
            LiveEvent::RunStarted { timestamp_ms } => LiveEventView::RunStarted {
                timestamp_ms: *timestamp_ms,
            },
            LiveEvent::SessionMetadata {
                command_line,
                git_branch,
                git_commit,
                git_dirty,
                recipes,
                timestamp_ms,
                working_dir,
            } => LiveEventView::SessionMetadata {
                command_line: command_line@,
                git_branch: opt_str_view(*git_branch),
                git_commit: opt_str_view(*git_commit),
                git_dirty: *git_dirty,
                recipes: recipes@.map_values(|r: RecipeNode| r@),
                timestamp_ms: *timestamp_ms,
                working_dir: working_dir@,
            },
        }
    }
}


/// The milliseconds since the Unix epoch that a clock reading gives, as a `u64`:
/// the low 64 bits of the whole milliseconds, and zero for a reading before the epoch.
pub open spec fn millis_of(reading: Option<u128>) -> u64 {
    match reading {
        Some(ms) => (ms % 0x1_0000_0000_0000_0000) as u64,
        None => 0,
    }
}

/// The milliseconds since the Unix epoch of a clock reading, given as the whole
/// milliseconds past the epoch, or none for a reading before it.
pub fn millis_since_epoch(reading: Option<u128>) -> (r: u64)
    ensures
        r == millis_of(reading),
{
    match reading {
        Some(ms) => truncate_millis(ms),
        None => 0,
    }
}

/// The clock's reading in milliseconds since the Unix epoch, its low 64 bits;
/// zero where the clock stands before the epoch.
pub fn now_ms() -> (r: u64)
    ensures
        exists|reading: Option<u128>| r == millis_of(reading),
{
    let now = system_time_now();
    let reading = match since_unix_epoch(&now) {
        Some(d) => Some(duration_millis(&d)),
        None => None,
    };
    millis_since_epoch(reading)
}

/// Whether events are reported, since when, and the command line of the run.
#[derive(Debug)]
pub struct LiveState {
    enabled: bool,
    run_start_ms: Option<u64>,
    command_line: Option<String>,
}

pub struct LiveStateView {
    pub enabled: bool,
    pub run_start_ms: Option<u64>,
    pub command_line: Option<Seq<char>>,
}

impl View for LiveState {
    type V = LiveStateView;

    closed spec fn view(&self) -> LiveStateView {
        LiveStateView {
            enabled: self.enabled,
            run_start_ms: self.run_start_ms,
            command_line: opt_str_view(self.command_line),
        }
    }
}

/// The milliseconds that have passed since the run started, as a monotonic
/// clock reads `now_ms`; zero before the start is recorded, and zero where the
/// reading lies before the start.
pub open spec fn elapsed_ms(state: LiveStateView, now_ms: u64) -> u64 {
    match state.run_start_ms {
        Some(start) => if now_ms >= start { (now_ms - start) as u64 } else { 0 },
        None => 0,
    }
}

/// The command line recorded for the run; empty before one is recorded.
pub open spec fn command_line_of(state: LiveStateView) -> Seq<char> {
    match state.command_line {
        Some(c) => c,
        None => Seq::empty(),
    }
}

impl LiveState {
    /// Events are not reported, no run has started, and no command line is recorded.
    pub fn new() -> (r: LiveState)
        ensures
            r@ == (LiveStateView { enabled: false, run_start_ms: None, command_line: None }),
    {
        LiveState { enabled: false, run_start_ms: None, command_line: None }
    }

    /// A sender for the events is in place: events are reported from now on,
    /// and the run counts as started at `now_ms` on the monotonic clock.
    pub fn set_sender(&mut self, now_ms: u64)
        ensures
            final(self)@ == (LiveStateView { enabled: true, run_start_ms: Some(now_ms), ..old(self)@ }),
    {
        self.enabled = true;
        self.run_start_ms = Some(now_ms);
    }

    /// Records the run's command line.
    pub fn set_command_line(&mut self, cmd: String)
        ensures
            final(self)@ == (LiveStateView { command_line: Some(cmd@), ..old(self)@ }),
    {
        self.command_line = Some(cmd);
    }

    /// The recorded command line, or the empty string.
    pub fn command_line(&self) -> (r: String)
        ensures
            r@ == command_line_of(self@),
    {
        match &self.command_line {
            Some(c) => c.clone(),
            None => String::new(),
        }
    }

    /// Whether events are reported.
    pub fn is_enabled(&self) -> (r: bool)
        ensures
            r == self@.enabled,
    {
        self.enabled
    }

    /// The milliseconds since the run started, given the monotonic clock's reading `now_ms`.
    pub fn run_elapsed_ms(&self, now_ms: u64) -> (r: u64)
        ensures
            r == elapsed_ms(self@, now_ms),
    {
        match self.run_start_ms {
            Some(start) => if now_ms >= start { now_ms - start } else { 0 },
            None => 0,
        }
    }
}

/// A command line recorded is the one read back.
pub proof fn lemma_command_line_read_back(state: LiveStateView, cmd: Seq<char>)
    ensures
        command_line_of(LiveStateView { command_line: Some(cmd), ..state }) == cmd,
{
}

/// Before a sender is set, no time has passed; once it is set at `start`, the
/// time passed at `now` is `now - start`, for any later reading.
pub proof fn lemma_elapsed_from_sender(state: LiveStateView, start: u64, now: u64)
    requires
        start <= now,
    ensures
        elapsed_ms(LiveStateView { run_start_ms: None, ..state }, now) == 0,
        elapsed_ms(LiveStateView { enabled: true, run_start_ms: Some(start), ..state }, now) == now - start,
{
}

/// What a finished command reported: whether it succeeded and what it wrote to stdout.
#[derive(Debug)]
pub struct CommandOutput {
    pub success: bool,
    pub stdout: Vec<u8>,
}

/// The text that git's answer gives: none where git could not be run or failed,
/// else its output, decoded lossily and trimmed.
pub open spec fn git_text(output: Option<(bool, Seq<u8>)>) -> Option<Seq<char>> {
    match output {
        Some((success, stdout)) => if success { Some(trim(utf8_lossy(stdout))) } else { None },
        None => None,
    }
}

/// The plain values of a command's answer.
pub open spec fn output_view(output: Option<CommandOutput>) -> Option<(bool, Seq<u8>)> {
    match output {
        Some(o) => Some((o.success, o.stdout@)),
        None => None,
    }
}

/// The text of one git command's answer; `output` is `None` where git could not be run.
pub fn git_cmd(output: Option<CommandOutput>) -> (r: Option<String>)
    ensures
        opt_str_view(r) == git_text(output_view(output)),
{
    match output {
        Some(o) => if o.success {
            let text = from_utf8_lossy(o.stdout.as_slice());
            let trimmed = str_trim(text.as_str());
            Some(String::from_str(trimmed))
        } else {
            None
        },
        None => None,
    }
}

/// The branch, the commit and whether the work tree is dirty, from the answers of
/// `git rev-parse --abbrev-ref HEAD`, `git rev-parse --short HEAD` and
/// `git status --porcelain --untracked-files=no`. The tree is dirty where the
/// status command succeeded with some non-blank output.
pub fn git_info(
    branch: Option<CommandOutput>,
    commit: Option<CommandOutput>,
    status: Option<CommandOutput>,
) -> (r: (Option<String>, Option<String>, bool))
    ensures
        opt_str_view(r.0) == git_text(output_view(branch)),
        opt_str_view(r.1) == git_text(output_view(commit)),
        r.2 == (git_text(output_view(status)) matches Some(s) && s.len() > 0),
{
    let b = git_cmd(branch);
    let c = git_cmd(commit);
    let s = git_cmd(status);
    let dirty = match &s {
        Some(text) => text.as_str().unicode_len() > 0,
        None => false,
    };
    (b, c, dirty)
}

} // verus!
