use just::run::{keep_alive_notice, run_setup, LiveTarget};
use just::decimal::i32_to_string;
use just::hook_context::{CommandEnv, HookContext, HookType};
use just::live_client::{publish_message, publish_url};
use just::live_event::{git_info, millis_since_epoch, now_ms, CommandOutput, LiveEvent, LiveState};
use just::live_server::{
    all_events, forward_event, update_session_status, wrap_event, PublishConnection, SessionInfo,
};
use just::otel_exporter::{ts_to_systime, AttrValue, OtelState, SpanKind, SpanStatus};

#[test]
fn decimal_text_of_integers() {
    assert_eq!(i32_to_string(0), "0");
    assert_eq!(i32_to_string(7), "7");
    assert_eq!(i32_to_string(-1), "-1");
    assert_eq!(i32_to_string(1234567), "1234567");
    assert_eq!(i32_to_string(i32::MIN), i32::MIN.to_string());
    assert_eq!(i32_to_string(i32::MAX), i32::MAX.to_string());
}

#[test]
fn before_context_exports_target_and_type() {
    let ctx = HookContext::before("deploy");
    assert_eq!(ctx.hook_type, HookType::Before);
    let mut env = CommandEnv::new();
    ctx.export(&mut env);
    assert_eq!(env.get("JUST_HOOK_TARGET"), Some("deploy".to_string()));
    assert_eq!(env.get("JUST_HOOK_TYPE"), Some("before".to_string()));
    assert_eq!(env.get("JUST_HOOK_STATUS"), None);
    assert_eq!(env.vars().len(), 2);
}

#[test]
fn after_context_exports_status() {
    let ctx = HookContext::after("test", 3);
    let mut env = CommandEnv::new();
    env.env("JUST_HOOK_TYPE", "stale");
    ctx.export(&mut env);
    assert_eq!(env.get("JUST_HOOK_TARGET"), Some("test".to_string()));
    assert_eq!(env.get("JUST_HOOK_TYPE"), Some("after".to_string()));
    assert_eq!(env.get("JUST_HOOK_STATUS"), Some("3".to_string()));
    let negative = HookContext::after("test", -2);
    let mut env2 = CommandEnv::new();
    negative.export(&mut env2);
    assert_eq!(env2.get("JUST_HOOK_STATUS"), Some("-2".to_string()));
}

#[test]
fn later_assignment_wins() {
    let mut env = CommandEnv::new();
    env.env("A", "1");
    env.env("B", "2");
    env.env("A", "3");
    assert_eq!(env.get("A"), Some("3".to_string()));
    assert_eq!(env.get("B"), Some("2".to_string()));
    assert_eq!(env.get("C"), None);
}

#[test]
fn publish_url_from_http_addresses() {
    assert_eq!(publish_url("http://127.0.0.1:3000"), "ws://127.0.0.1:3000/api/publish");
    assert_eq!(publish_url("http://127.0.0.1:3000///"), "ws://127.0.0.1:3000/api/publish");
    assert_eq!(publish_url("https://live.example.com/"), "wss://live.example.com/api/publish");
    assert_eq!(publish_url("example.com"), "example.com/api/publish");
}

#[test]
fn wrap_event_quotes_and_escapes() {
    let w = wrap_event("s-1", "my \"proj\"\n\u{1}", "{\"type\":\"run_started\"}");
    assert_eq!(
        w,
        "{\"session_id\":\"s-1\",\"project\":\"my \\\"proj\\\"\\n\\u0001\",\"event\":{\"type\":\"run_started\"}}"
    );
    let value: serde_json::Value = serde_json::from_str(&w).unwrap();
    assert_eq!(value["project"], "my \"proj\"\n\u{1}");
}

fn session(status: &str) -> SessionInfo {
    let mut s = SessionInfo::new("id".to_string(), "proj".to_string());
    s.status = status.to_string();
    s
}

#[test]
fn session_status_follows_events() {
    let mut s = session("failed");
    update_session_status(&mut s, "{\"type\":\"run_started\",\"timestamp_ms\":1}");
    assert_eq!(s.status, "running");
    update_session_status(&mut s, "{\"type\":\"run_completed\",\"success\":true}");
    assert_eq!(s.status, "completed");
    update_session_status(&mut s, "{\"type\":\"run_completed\",\"success\":false}");
    assert_eq!(s.status, "failed");
    let mut t = session("running");
    update_session_status(&mut t, "{\"type\":\"run_completed\"}");
    assert_eq!(t.status, "failed");
    let mut u = session("running");
    update_session_status(&mut u, "{\"type\":\"recipe_started\"}");
    assert_eq!(u.status, "running");
    update_session_status(&mut u, "not json");
    assert_eq!(u.status, "running");
    update_session_status(&mut u, "[1,2]");
    assert_eq!(u.status, "running");
    update_session_status(&mut u, "{\"type\":\"run_completed\",\"success\":\"true\"}");
    assert_eq!(u.status, "failed");
}

#[test]
fn publish_connection_registers_one_session() {
    let mut sessions: Vec<SessionInfo> = Vec::new();
    let mut conn = PublishConnection::new();
    let first = "{\"session_id\":\"abc\",\"project\":\"web\",\"event\":{\"type\":\"run_started\"}}";
    assert_eq!(conn.on_message(&mut sessions, first), Some(first.to_string()));
    assert_eq!(sessions.len(), 1);
    assert_eq!(sessions[0].session_id, "abc");
    assert_eq!(sessions[0].project, "web");
    assert_eq!(sessions[0].status, "running");
    assert_eq!(sessions[0].events, vec![first.to_string()]);
    let second = "{\"session_id\":\"abc\",\"project\":\"web\",\"event\":{\"type\":\"run_completed\",\"success\":true}}";
    assert_eq!(conn.on_message(&mut sessions, second), Some(second.to_string()));
    assert_eq!(sessions.len(), 1);
    assert_eq!(sessions[0].events.len(), 2);
    assert_eq!(sessions[0].status, "completed");
    assert_eq!(conn.on_message(&mut sessions, "garbage"), None);
    assert_eq!(sessions[0].events.len(), 2);
    assert_eq!(conn.on_close(&mut sessions), None);
    assert_eq!(sessions[0].status, "completed");
}

#[test]
fn publish_connection_defaults_to_unknown() {
    let mut sessions: Vec<SessionInfo> = Vec::new();
    let mut conn = PublishConnection::new();
    let msg = "{\"event\":{\"type\":\"recipe_started\"}}";
    assert_eq!(conn.on_message(&mut sessions, msg), Some(msg.to_string()));
    assert_eq!(sessions.len(), 1);
    assert_eq!(sessions[0].session_id, "unknown");
    assert_eq!(sessions[0].project, "unknown");
}

#[test]
fn closing_a_running_session_disconnects_it() {
    let mut sessions: Vec<SessionInfo> = Vec::new();
    let mut conn = PublishConnection::new();
    conn.on_message(&mut sessions, "{\"session_id\":\"s\",\"project\":\"p\"}");
    let broadcast = conn.on_close(&mut sessions);
    assert_eq!(sessions[0].status, "disconnected");
    assert_eq!(
        broadcast,
        Some(
            "{\"session_id\":\"s\",\"project\":\"p\",\"event\":{\"type\":\"run_completed\",\"success\":false,\"duration_ms\":0,\"timestamp_ms\":0}}"
                .to_string()
        )
    );
    let silent = PublishConnection::new();
    assert_eq!(silent.on_close(&mut sessions), None);
}

#[test]
fn embedded_server_forwards_to_its_session() {
    let mut sessions = vec![SessionInfo::new("local".to_string(), "proj".to_string())];
    let w = forward_event(&mut sessions, "local", "proj", "{\"type\":\"run_completed\",\"success\":false}");
    assert_eq!(w, "{\"session_id\":\"local\",\"project\":\"proj\",\"event\":{\"type\":\"run_completed\",\"success\":false}}");
    assert_eq!(sessions[0].events, vec![w.clone()]);
    assert_eq!(sessions[0].status, "failed");
    let mut none: Vec<SessionInfo> = Vec::new();
    let w2 = forward_event(&mut none, "x", "y", "{}");
    assert_eq!(w2, "{\"session_id\":\"x\",\"project\":\"y\",\"event\":{}}");
    assert!(none.is_empty());
}

#[test]
fn replay_sends_all_events_in_order() {
    let mut a = SessionInfo::new("a".to_string(), "p".to_string());
    a.events = vec!["1".to_string(), "2".to_string()];
    let mut b = SessionInfo::new("b".to_string(), "p".to_string());
    b.events = vec!["3".to_string()];
    assert_eq!(all_events(&vec![a, b]), vec!["1".to_string(), "2".to_string(), "3".to_string()]);
}

#[test]
fn live_state_records_command_line_and_start() {
    let mut state = LiveState::new();
    assert!(!state.is_enabled());
    assert_eq!(state.command_line(), "");
    assert_eq!(state.run_elapsed_ms(500), 0);
    state.set_command_line("just build".to_string());
    assert_eq!(state.command_line(), "just build");
    state.set_sender(1000);
    assert!(state.is_enabled());
    assert_eq!(state.run_elapsed_ms(1250), 250);
    assert_eq!(state.run_elapsed_ms(900), 0);
}

#[test]
fn clock_reads_after_epoch() {
    assert!(now_ms() > 1_600_000_000_000);
    let t = ts_to_systime(1500).unwrap();
    assert_eq!(t.duration_since(std::time::UNIX_EPOCH).unwrap().as_millis(), 1500);
}

fn output(success: bool, stdout: &[u8]) -> Option<CommandOutput> {
    Some(CommandOutput { success, stdout: stdout.to_vec() })
}

#[test]
fn git_info_trims_and_decodes() {
    let (branch, commit, dirty) = git_info(output(true, b"main\n"), output(true, b"  abc1234 \r\n"), output(true, b" M src/lib.rs\n"));
    assert_eq!(branch, Some("main".to_string()));
    assert_eq!(commit, Some("abc1234".to_string()));
    assert!(dirty);
    let (b2, c2, d2) = git_info(None, output(false, b"fatal"), output(true, b"\n"));
    assert_eq!(b2, None);
    assert_eq!(c2, None);
    assert!(!d2);
    let (b3, _, d3) = git_info(output(true, b"f\xffx\n"), None, None);
    assert_eq!(b3, Some("f\u{FFFD}x".to_string()));
    assert!(!d3);
}

fn started(name: &str, ts: u64) -> LiveEvent {
    LiveEvent::RecipeStarted { name: name.to_string(), doc: None, is_dependency: false, timestamp_ms: ts }
}

#[test]
fn otel_spans_nest_recipes_and_lines_under_the_run() {
    let mut state = OtelState::new(77, 1, 100);
    state.handle_event_with_id(LiveEvent::RunStarted { timestamp_ms: 1000 }, 9);
    state.handle_event_with_id(
        LiveEvent::SessionMetadata {
            command_line: "just build".to_string(),
            git_branch: Some("main".to_string()),
            git_commit: None,
            git_dirty: true,
            recipes: Vec::new(),
            timestamp_ms: 1000,
            working_dir: "/w".to_string(),
        },
        9,
    );
    state.handle_event_with_id(started("build", 1010), 20);
    state.handle_event_with_id(
        LiveEvent::RecipeLine { recipe: "build".to_string(), command: "cargo build".to_string(), timestamp_ms: 1020 },
        30,
    );
    state.handle_event_with_id(
        LiveEvent::RecipeLineCompleted {
            recipe: "build".to_string(),
            command: "cargo build".to_string(),
            success: false,
            code: Some(101),
            duration_ms: 5,
            timestamp_ms: 1025,
        },
        31,
    );
    state.handle_event_with_id(
        LiveEvent::RecipeCompleted {
            name: "build".to_string(),
            success: false,
            error_message: None,
            duration_ms: 20,
            timestamp_ms: 1030,
        },
        32,
    );
    state.handle_event_with_id(LiveEvent::RunCompleted { success: false, duration_ms: 40, timestamp_ms: 1040 }, 33);
    let spans = state.take_pending();
    assert_eq!(spans.len(), 3);

    let line = &spans[0];
    assert_eq!(line.name, "$ cargo build");
    assert_eq!((line.trace_id, line.span_id, line.parent_span_id), (77, 30, 20));
    assert_eq!((line.start_ms, line.duration_ms), (1020, 5));
    assert!(matches!(&line.status, SpanStatus::Error(m) if m == "exit code 101"));
    assert_eq!(line.attributes.len(), 2);
    assert_eq!(line.attributes[0].key, "just.recipe");
    assert!(matches!(&line.attributes[1].value, AttrValue::Int(101)));
    assert_eq!(line.kind, SpanKind::Internal);

    let recipe = &spans[1];
    assert_eq!(recipe.name, "recipe build");
    assert_eq!((recipe.span_id, recipe.parent_span_id, recipe.start_ms, recipe.duration_ms), (20, 1, 1010, 20));
    assert!(matches!(&recipe.status, SpanStatus::Error(m) if m == "failed"));

    let run = &spans[2];
    assert_eq!(run.name, "just run");
    assert_eq!((run.span_id, run.parent_span_id, run.start_ms, run.duration_ms), (1, 0, 1000, 40));
    assert_eq!(run.kind, SpanKind::Server);
    assert!(matches!(&run.status, SpanStatus::Error(m) if m == "run failed"));
    let keys: Vec<&str> = run.attributes.iter().map(|a| a.key.as_str()).collect();
    assert_eq!(keys, vec!["just.command", "just.working_dir", "vcs.branch", "vcs.dirty", "just.success"]);
    assert!(matches!(&run.attributes[4].value, AttrValue::Bool(false)));

    assert!(state.take_pending().is_empty());
}

#[test]
fn otel_ignores_unknown_recipes_and_reports_missing_codes() {
    let mut state = OtelState::new(5, 2, 0);
    state.handle_event_with_id(
        LiveEvent::RecipeCompleted {
            name: "ghost".to_string(),
            success: true,
            error_message: None,
            duration_ms: 1,
            timestamp_ms: 1,
        },
        3,
    );
    state.handle_event_with_id(
        LiveEvent::RecipeLine { recipe: "ghost".to_string(), command: "x".to_string(), timestamp_ms: 1 },
        4,
    );
    assert!(state.take_pending().is_empty());
    state.handle_event_with_id(started("a", 10), 11);
    state.handle_event_with_id(
        LiveEvent::RecipeLineCompleted {
            recipe: "a".to_string(),
            command: "x".to_string(),
            success: true,
            code: None,
            duration_ms: 1,
            timestamp_ms: 11,
        },
        12,
    );
    assert!(state.take_pending().is_empty());
    state.handle_event_with_id(
        LiveEvent::RecipeLine { recipe: "a".to_string(), command: "false".to_string(), timestamp_ms: 12 },
        13,
    );
    state.handle_event_with_id(
        LiveEvent::RecipeLineCompleted {
            recipe: "a".to_string(),
            command: "false".to_string(),
            success: false,
            code: None,
            duration_ms: 2,
            timestamp_ms: 14,
        },
        14,
    );
    state.handle_event_with_id(
        LiveEvent::RecipeCompleted {
            name: "a".to_string(),
            success: true,
            error_message: None,
            duration_ms: 5,
            timestamp_ms: 15,
        },
        15,
    );
    let spans = state.take_pending();
    assert_eq!(spans.len(), 2);
    assert!(matches!(&spans[0].status, SpanStatus::Error(m) if m == "exit code -1"));
    assert_eq!(spans[0].attributes.len(), 1);
    assert!(matches!(spans[1].status, SpanStatus::Success));
    state.handle_event_with_id(
        LiveEvent::RecipeCompleted {
            name: "a".to_string(),
            success: true,
            error_message: None,
            duration_ms: 5,
            timestamp_ms: 16,
        },
        16,
    );
    assert!(state.take_pending().is_empty());
}

#[test]
fn otel_restarted_recipe_gets_new_span() {
    let mut state = OtelState::new(5, 2, 0);
    state.handle_event_with_id(started("a", 10), 11);
    state.handle_event_with_id(started("a", 20), 21);
    state.handle_event_with_id(
        LiveEvent::RecipeCompleted {
            name: "a".to_string(),
            success: false,
            error_message: Some("boom".to_string()),
            duration_ms: 5,
            timestamp_ms: 25,
        },
        0,
    );
    let spans = state.take_pending();
    assert_eq!(spans.len(), 1);
    assert_eq!((spans[0].span_id, spans[0].start_ms), (21, 20));
    assert!(matches!(&spans[0].status, SpanStatus::Error(m) if m == "boom"));
}

#[test]
fn otel_random_ids_differ() {
    let mut state = OtelState::begin();
    state.handle_event(started("a", 1));
    state.handle_event(LiveEvent::RecipeCompleted {
        name: "a".to_string(),
        success: true,
        error_message: None,
        duration_ms: 1,
        timestamp_ms: 2,
    });
    state.handle_event(LiveEvent::RunCompleted { success: true, duration_ms: 3, timestamp_ms: 4 });
    let spans = state.take_pending();
    assert_eq!(spans.len(), 2);
    let (recipe, run) = (&spans[0], &spans[1]);
    assert_eq!(run.parent_span_id, 0);
    assert_eq!(recipe.parent_span_id, run.span_id);
    assert_ne!(recipe.span_id, run.span_id);
    assert_eq!(recipe.trace_id, run.trace_id);
    let other = OtelState::begin();
    let mut other = other;
    other.handle_event(LiveEvent::RunCompleted { success: true, duration_ms: 3, timestamp_ms: 4 });
    let other_spans = other.take_pending();
    assert_ne!(other_spans[0].trace_id, run.trace_id);
    assert!(matches!(run.status, SpanStatus::Success));
}

#[test]
fn exporter_takes_in_events_and_stops_after_the_run() {
    let mut state = OtelState::new(1, 2, 0);
    let (spans, stop) = state.take_in(None);
    assert!(spans.is_empty() && !stop);
    let (spans, stop) = state.take_in(Some(started("a", 5)));
    assert!(spans.is_empty() && !stop);
    let (spans, stop) = state.take_in(Some(LiveEvent::RunCompleted { success: true, duration_ms: 9, timestamp_ms: 9 }));
    assert_eq!(spans.len(), 1);
    assert_eq!(spans[0].name, "just run");
    assert!(stop);
}

#[test]
fn build_span_is_a_function_of_its_parts() {
    let state = OtelState::new(42, 1, 0);
    let a = state.build_span("n".to_string(), 5, 1, 10, 3, SpanStatus::Success, Vec::new(), SpanKind::Internal);
    let b = state.build_span("n".to_string(), 5, 1, 10, 3, SpanStatus::Success, Vec::new(), SpanKind::Internal);
    assert_eq!((a.trace_id, a.span_id, a.parent_span_id, a.start_ms, a.duration_ms), (42, 5, 1, 10, 3));
    assert_eq!((b.trace_id, b.span_id, b.name.as_str()), (a.trace_id, a.span_id, a.name.as_str()));
}

#[test]
fn clock_readings_give_milliseconds() {
    assert_eq!(millis_since_epoch(None), 0);
    assert_eq!(millis_since_epoch(Some(1234)), 1234);
    assert_eq!(millis_since_epoch(Some((1u128 << 64) + 7)), 7);
}

#[test]
fn publish_message_matches_serde_json_objects() {
    let event = "{ \"type\" : \"run_started\", \"timestamp_ms\": 3 }";
    let msg = publish_message("s\"1", "proj", event);
    let mut map = serde_json::Map::new();
    map.insert("session_id".to_string(), serde_json::Value::String("s\"1".to_string()));
    map.insert("project".to_string(), serde_json::Value::String("proj".to_string()));
    map.insert("event".to_string(), serde_json::from_str::<serde_json::Value>(event).unwrap());
    assert_eq!(msg, serde_json::Value::Object(map).to_string());
    assert_eq!(msg, "{\"event\":{\"timestamp_ms\":3,\"type\":\"run_started\"},\"project\":\"proj\",\"session_id\":\"s\\\"1\"}");
    assert_eq!(publish_message("a", "b", "not json"), "{\"event\":null,\"project\":\"b\",\"session_id\":\"a\"}");
}


#[test]
fn run_setup_follows_flags_and_url() {
    let off = run_setup(false, false, Some("http://x".to_string()));
    assert!(!off.broadcast && !off.otel && !off.keep_alive);
    assert!(matches!(off.live, LiveTarget::Off));
    assert_eq!(off.linger_ms, 500);
    let remote = run_setup(true, false, Some("http://x".to_string()));
    assert!(remote.broadcast && !remote.keep_alive);
    assert!(matches!(&remote.live, LiveTarget::Remote(u) if u == "http://x"));
    let embedded = run_setup(true, true, None);
    assert!(matches!(embedded.live, LiveTarget::Embedded));
    assert!(embedded.keep_alive);
    assert_eq!(embedded.linger_ms, 1000);
    let otel_only = run_setup(false, true, None);
    assert!(otel_only.broadcast && otel_only.otel && !otel_only.keep_alive);
    assert_eq!(keep_alive_notice(true), "Recipes complete. Visualization server still running. Press Ctrl+C to exit.");
    assert_eq!(keep_alive_notice(false), "Recipes failed. Visualization server still running. Press Ctrl+C to exit.");
}
