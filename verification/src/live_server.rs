//! The sessions that a live server keeps, and what its messages do to them.
//!
//! A session is one run of `just` that publishes its events: the events it
//! sent, its project, its id and its status (`running`, `completed`, `failed`
//! or `disconnected`). The server's sockets and tasks live outside the library;
//! each message they receive is handed to the functions here, which decide what
//! the sessions become and what is broadcast to viewers.

use vstd::prelude::*;
use vstd::string::StringExecFns;
use crate::json::{
    get_str, json_parse, json_quoted, json_string, member, member_text, member_to_string, parse_json,
    str_member, JsonDocView, JsonMember, JsonMemberView,
};
use crate::live_event::opt_str_view;

verus! {

/// A session, as the server keeps it.
#[derive(Debug)]
pub struct SessionInfo {
    pub events: Vec<String>,
    pub project: String,
    pub session_id: String,
    pub status: String,
}

pub struct SessionView {
    pub events: Seq<Seq<char>>,
    pub project: Seq<char>,
    pub session_id: Seq<char>,
    pub status: Seq<char>,
}

impl View for SessionInfo {
    type V = SessionView;

    open spec fn view(&self) -> SessionView {
        SessionView {
            events: self.events@.map_values(|e: String| e@),
            project: self.project@,
            session_id: self.session_id@,
            status: self.status@,
        }
    }
}

/// The values of a list of sessions.
pub open spec fn sessions_view(v: Seq<SessionInfo>) -> Seq<SessionView> {
    v.map_values(|s: SessionInfo| s@)
}

/// A session that has just begun: no events yet, and running.
pub open spec fn new_session_view(session_id: Seq<char>, project: Seq<char>) -> SessionView {
    SessionView { events: Seq::empty(), project, session_id, status: "running"@ }
}

impl SessionInfo {
    /// A session that has just begun: no events yet, and running.
    pub fn new(session_id: String, project: String) -> (r: SessionInfo)
        ensures
            r@ == new_session_view(session_id@, project@),
    {
        let r = SessionInfo {
            events: Vec::new(),
            project,
            session_id,
            status: String::from_str("running"),
        };
        assert(r@.events =~= Seq::<Seq<char>>::empty());
        r
    }
}

/// The status that a session has after an event whose JSON is `event`: `running`
/// after a `run_started` event; `completed` or `failed` after a `run_completed`
/// event, as its `success` member is `true` or not; else unchanged.
pub open spec fn status_after(status: Seq<char>, event: Option<JsonDocView>) -> Seq<char> {
    match str_member(event, "type"@) {
        Some(t) => if t == "run_started"@ {
            "running"@
        } else if t == "run_completed"@ {
            if member(event, "success"@) == Some(JsonMemberView::Bool(true)) {
                "completed"@
            } else {
                "failed"@
            }
        } else {
            status
        },
        None => status,
    }
}

/// Brings a session's status up to date with one of its events, given as JSON text.
pub fn update_session_status(session: &mut SessionInfo, event_json: &str)
    ensures
        final(session)@ == (SessionView {
            status: status_after(old(session)@.status, json_parse(event_json@)),
            ..old(session)@
        }),
{
    let parsed = parse_json(event_json);
    match &parsed {
        Some(doc) => {
            match get_str(doc, "type") {
                Some(t) => {
                    if t == String::from_str("run_started") {
                        session.status = String::from_str("running");
                    } else if t == String::from_str("run_completed") {
                        let success = match doc.get("success") {
                            Some(JsonMember::Bool(b)) => *b,
                            _ => false,
                        };
                        session.status = if success {
                            String::from_str("completed")
                        } else {
                            String::from_str("failed")
                        };
                    }
                },
                None => {},
            }
        },
        None => {},
    }
}

/// The message that carries a session's event to viewers: a JSON object with the
/// session id, the project and the event, in that order.
pub open spec fn wrapped_event(session_id: Seq<char>, project: Seq<char>, event_json: Seq<char>) -> Seq<char> {
    "{\"session_id\":"@ + json_quoted(session_id) + ",\"project\":"@ + json_quoted(project) + ",\"event\":"@
        + event_json + "}"@
}

/// Wraps an event of a session for the viewers.
pub fn wrap_event(session_id: &str, project: &str, event_json: &str) -> (r: String)
    ensures
        r@ == wrapped_event(session_id@, project@, event_json@),
{
    let mut r = String::from_str("{\"session_id\":");
    let sid = json_string(session_id);
    r.append(sid.as_str());
    r.append(",\"project\":");
    let p = json_string(project);
    r.append(p.as_str());
    r.append(",\"event\":");
    r.append(event_json);
    r.append("}");
    r
}

/// The first session with the id `session_id`, if there is one.
pub open spec fn first_session(ss: Seq<SessionView>, session_id: Seq<char>) -> Option<int> {
    if exists|i: int| 0 <= i < ss.len() && ss[i].session_id == session_id
        && forall|j: int| 0 <= j < i ==> ss[j].session_id != session_id {
        Some(choose|i: int| 0 <= i < ss.len() && ss[i].session_id == session_id
            && forall|j: int| 0 <= j < i ==> ss[j].session_id != session_id)
    } else {
        None
    }
}

fn find_session(sessions: &Vec<SessionInfo>, session_id: &String) -> (r: Option<usize>)
    ensures
        match r {
            Some(i) => first_session(sessions_view(sessions@), session_id@) == Some(i as int)
                && i < sessions.len(),
            None => first_session(sessions_view(sessions@), session_id@) is None,
        },
{
    let ghost ss = sessions_view(sessions@);
    let mut i: usize = 0;
    while i < sessions.len()
        invariant
            i <= sessions.len(),
            ss == sessions_view(sessions@),
            forall|j: int| 0 <= j < i ==> ss[j].session_id != session_id@,
        decreases sessions.len() - i,
    {
        if sessions[i].session_id == *session_id {
            assert(ss[i as int].session_id == session_id@);
            let ghost k = choose|k: int| 0 <= k < ss.len() && ss[k].session_id == session_id@
                && forall|j: int| 0 <= j < k ==> ss[j].session_id != session_id@;
            assert(k == i) by {
                if k < i {
                } else if k > i {
                    assert(ss[i as int].session_id != session_id@);
                }
            }
            return Some(i);
        }
        i = i + 1;
    }
    None
}

/// `s`, or `unknown` where there is none.
pub open spec fn or_unknown(s: Option<Seq<char>>) -> Seq<char> {
    match s {
        Some(v) => v,
        None => "unknown"@,
    }
}

/// A session with one more event, whose status follows that event's JSON, if any.
pub open spec fn with_event(s: SessionView, text: Seq<char>, event: Option<JsonMemberView>) -> SessionView {
    SessionView {
        events: s.events.push(text),
        status: match event {
            Some(m) => status_after(s.status, json_parse(member_text(m))),
            None => s.status,
        },
        ..s
    }
}

/// The session id that a publishing connection registers with a message.
pub open spec fn publish_registered(registered: Option<Seq<char>>, text: Seq<char>) -> Option<Seq<char>> {
    let doc = json_parse(text);
    if doc is Some && registered is None {
        Some(or_unknown(str_member(doc, "session_id"@)))
    } else {
        registered
    }
}

/// The sessions after a publishing connection, which registered `registered`,
/// receives the text message `text`. A message that is not JSON changes nothing.
/// The connection's first JSON message begins a session with the message's
/// session id and project (`unknown` where either is missing). The message is
/// then added to the first session with its session id, whose status follows the
/// message's `event` member.
pub open spec fn publish_sessions(registered: Option<Seq<char>>, ss: Seq<SessionView>, text: Seq<char>) -> Seq<SessionView> {
    let doc = json_parse(text);
    if doc is None {
        ss
    } else {
        let sid = or_unknown(str_member(doc, "session_id"@));
        let project = or_unknown(str_member(doc, "project"@));
        let ss1 = if registered is None { ss.push(new_session_view(sid, project)) } else { ss };
        match first_session(ss1, sid) {
            Some(i) => ss1.update(i, with_event(ss1[i], text, member(doc, "event"@))),
            None => ss1,
        }
    }
}

/// The event of a session whose publisher went away while it was running.
pub open spec fn disconnect_event() -> Seq<char> {
    "{\"type\":\"run_completed\",\"success\":false,\"duration_ms\":0,\"timestamp_ms\":0}"@
}

/// The sessions after a publishing connection closes: its session, if it still
/// runs, is marked `disconnected`.
pub open spec fn close_sessions(registered: Option<Seq<char>>, ss: Seq<SessionView>) -> Seq<SessionView> {
    match registered {
        Some(sid) => match first_session(ss, sid) {
            Some(i) => if ss[i].status == "running"@ {
                ss.update(i, SessionView { status: "disconnected"@, ..ss[i] })
            } else {
                ss
            },
            None => ss,
        },
        None => ss,
    }
}

/// What the server broadcasts when a publishing connection closes: the
/// disconnection of its session, where it still ran.
pub open spec fn close_broadcast(registered: Option<Seq<char>>, ss: Seq<SessionView>) -> Option<Seq<char>> {
    match registered {
        Some(sid) => match first_session(ss, sid) {
            Some(i) => if ss[i].status == "running"@ {
                Some(wrapped_event(sid, ss[i].project, disconnect_event()))
            } else {
                None
            },
            None => None,
        },
        None => None,
    }
}

/// One publishing connection: the session id it registered with its first message.
#[derive(Debug)]
pub struct PublishConnection {
    session_id: Option<String>,
}

impl View for PublishConnection {
    type V = Option<Seq<char>>;

    closed spec fn view(&self) -> Option<Seq<char>> {
        opt_str_view(self.session_id)
    }
}

impl PublishConnection {
    /// A connection that has received nothing yet.
    pub fn new() -> (r: PublishConnection)
        ensures
            r@ is None,
    {
        PublishConnection { session_id: None }
    }

    /// Takes in a text message of the connection. Returns the text to broadcast
    /// to viewers: the message itself, or nothing where it is not JSON.
    pub fn on_message(&mut self, sessions: &mut Vec<SessionInfo>, text: &str) -> (r: Option<String>)
        ensures
            final(self)@ == publish_registered(old(self)@, text@),
            sessions_view(final(sessions)@) == publish_sessions(old(self)@, sessions_view(old(sessions)@), text@),
            opt_str_view(r) == (if json_parse(text@) is Some { Some(text@) } else { None::<Seq<char>> }),
    {
        let ghost ss0 = sessions_view(sessions@);
        let parsed = parse_json(text);
        let doc = match parsed {
            Some(d) => d,
            None => {
                return None;
            },
        };
        let ghost docv = json_parse(text@);
        let sid = match get_str(&doc, "session_id") {
            Some(s) => s,
            None => String::from_str("unknown"),
        };
        let project = match get_str(&doc, "project") {
            Some(p) => p,
            None => String::from_str("unknown"),
        };
        let ghost sidv = sid@;
        if self.session_id.is_none() {
            self.session_id = Some(sid.clone());
            sessions.push(SessionInfo::new(sid.clone(), project));
        }
        let ghost ss1 = sessions_view(sessions@);
        assert(ss1 =~= (if old(self)@ is None { ss0.push(new_session_view(sidv, or_unknown(str_member(docv, "project"@)))) } else { ss0 }));
        match find_session(sessions, &sid) {
            Some(i) => {
                let mut session = sessions.remove(i);
                let ghost s0 = session@;
                session.events.push(String::from_str(text));
                match doc.get("event") {
                    Some(event) => {
                        let event_str = member_to_string(event);
                        update_session_status(&mut session, event_str.as_str());
                    },
                    None => {},
                }
                assert(session@.events =~= s0.events.push(text@));
                assert(session@ == with_event(ss1[i as int], text@, member(docv, "event"@)));
                sessions.insert(i, session);
                assert(sessions_view(sessions@) =~= ss1.update(i as int, with_event(ss1[i as int], text@, member(docv, "event"@))));
            },
            None => {},
        }
        Some(String::from_str(text))
    }

    /// The connection closed. Returns the text to broadcast to viewers, if any.
    pub fn on_close(&self, sessions: &mut Vec<SessionInfo>) -> (r: Option<String>)
        ensures
            sessions_view(final(sessions)@) == close_sessions(self@, sessions_view(old(sessions)@)),
            opt_str_view(r) == close_broadcast(self@, sessions_view(old(sessions)@)),
    {
        let ghost ss0 = sessions_view(sessions@);
        match &self.session_id {
            Some(sid) => match find_session(sessions, sid) {
                Some(i) => {
                    if sessions[i].status == String::from_str("running") {
                        let mut session = sessions.remove(i);
                        session.status = String::from_str("disconnected");
                        let wrapped = wrap_event(
                            sid.as_str(),
                            session.project.as_str(),
                            "{\"type\":\"run_completed\",\"success\":false,\"duration_ms\":0,\"timestamp_ms\":0}",
                        );
                        sessions.insert(i, session);
                        assert(sessions_view(sessions@) =~= ss0.update(
                            i as int,
                            SessionView { status: "disconnected"@, ..ss0[i as int] },
                        ));
                        Some(wrapped)
                    } else {
                        None
                    }
                },
                None => None,
            },
            None => None,
        }
    }
}


/// The sessions after the embedded server forwards a local event: the first
/// session, where there is one, gets the wrapped event, and its status follows
/// the event.
pub open spec fn forward_sessions(
    ss: Seq<SessionView>,
    session_id: Seq<char>,
    project: Seq<char>,
    event_json: Seq<char>,
) -> Seq<SessionView> {
    if ss.len() > 0 {
        ss.update(
            0,
            SessionView {
                events: ss[0].events.push(wrapped_event(session_id, project, event_json)),
                status: status_after(ss[0].status, json_parse(event_json)),
                ..ss[0]
            },
        )
    } else {
        ss
    }
}

/// Forwards an event of the local run to the embedded server's session; returns
/// the wrapped event, which is broadcast to viewers.
pub fn forward_event(sessions: &mut Vec<SessionInfo>, session_id: &str, project: &str, event_json: &str) -> (r: String)
    ensures
        r@ == wrapped_event(session_id@, project@, event_json@),
        sessions_view(final(sessions)@) == forward_sessions(sessions_view(old(sessions)@), session_id@, project@, event_json@),
{
    let wrapped = wrap_event(session_id, project, event_json);
    let ghost ss0 = sessions_view(sessions@);
    if sessions.len() > 0 {
        let mut session = sessions.remove(0);
        let ghost s0 = session@;
        session.events.push(wrapped.clone());
        update_session_status(&mut session, event_json);
        assert(session@.events =~= s0.events.push(wrapped@));
        sessions.insert(0, session);
        assert(sessions_view(sessions@) =~= forward_sessions(ss0, session_id@, project@, event_json@));
    }
    wrapped
}

/// All events of all sessions, session after session, each in the order received.
pub open spec fn all_events_of(ss: Seq<SessionView>) -> Seq<Seq<char>>
    decreases ss.len(),
{
    if ss.len() == 0 {
        Seq::empty()
    } else {
        all_events_of(ss.drop_last()) + ss.last().events
    }
}

/// The events that a new viewer is sent first: all events of all sessions.
pub fn all_events(sessions: &Vec<SessionInfo>) -> (r: Vec<String>)
    ensures
        r@.map_values(|e: String| e@) == all_events_of(sessions_view(sessions@)),
{
    let ghost ss = sessions_view(sessions@);
    let mut r: Vec<String> = Vec::new();
    let mut i: usize = 0;
    while i < sessions.len()
        invariant
            i <= sessions.len(),
            ss == sessions_view(sessions@),
            r@.map_values(|e: String| e@) == all_events_of(ss.take(i as int)),
        decreases sessions.len() - i,
    {
        let ghost before = r@.map_values(|e: String| e@);
        let events = &sessions[i].events;
        let mut k: usize = 0;
        while k < events.len()
            invariant
                k <= events.len(),
                i < sessions.len(),
                ss == sessions_view(sessions@),
                ss.len() == sessions.len(),
                events@.map_values(|e: String| e@) == ss[i as int].events,
                r@.map_values(|e: String| e@) == before + ss[i as int].events.take(k as int),
            decreases events.len() - k,
        {
            let e = events[k].clone();
            assert(e@ == ss[i as int].events[k as int]);
            let ghost pre = r@;
            r.push(e);
            assert(r@ == pre.push(e));
            assert(r@.map_values(|e: String| e@) =~= pre.map_values(|e: String| e@).push(e@));
            assert(r@.map_values(|e: String| e@) =~= before + ss[i as int].events.take(k + 1));
            k = k + 1;
        }
        assert(ss[i as int].events.take(k as int) =~= ss[i as int].events);
        assert(ss.take(i + 1).drop_last() =~= ss.take(i as int));
        i = i + 1;
    }
    assert(ss.take(i as int) =~= ss);
    r
}

/// A session's status after an event is its old status, or `running`,
/// `completed` or `failed`.
pub proof fn lemma_status_values(status: Seq<char>, event: Option<JsonDocView>)
    ensures
        ({
            let t = status_after(status, event);
            t == status || t == "running"@ || t == "completed"@ || t == "failed"@
        }),
{
}

/// A message that is not JSON changes neither the sessions nor what the
/// connection registered.
pub proof fn lemma_non_json_ignored(registered: Option<Seq<char>>, ss: Seq<SessionView>, text: Seq<char>)
    requires
        json_parse(text) is None,
    ensures
        publish_sessions(registered, ss, text) == ss,
        publish_registered(registered, text) == registered,
{
}

/// A connection begins exactly one session: with its first JSON message, which
/// the new session then holds as its only event, and with none after.
pub proof fn lemma_one_session_per_connection(registered: Option<Seq<char>>, ss: Seq<SessionView>, text: Seq<char>)
    requires
        json_parse(text) is Some,
    ensures
        registered is None ==> publish_sessions(registered, ss, text).len() == ss.len() + 1,
        registered is Some ==> publish_sessions(registered, ss, text).len() == ss.len(),
        registered is Some ==> publish_registered(registered, text) == registered,
        registered is None ==> publish_registered(registered, text) is Some,
{
}

/// A JSON message is recorded, at the end of its events, by the first session
/// that has the message's session id.
pub proof fn lemma_message_recorded(registered: Option<Seq<char>>, ss: Seq<SessionView>, text: Seq<char>)
    requires
        json_parse(text) is Some,
    ensures
        ({
            let sid = or_unknown(str_member(json_parse(text), "session_id"@));
            let t = publish_sessions(registered, ss, text);
            let ss1 = if registered is None {
                ss.push(new_session_view(sid, or_unknown(str_member(json_parse(text), "project"@))))
            } else {
                ss
            };
            match first_session(ss1, sid) {
                Some(i) => t[i].events == ss1[i].events.push(text) && t[i].session_id == sid,
                None => t == ss1,
            }
        }),
{
}

/// When a connection closes, only its own session can change, and only from
/// `running` to `disconnected`; a disconnection is broadcast exactly then.
pub proof fn lemma_close_marks_disconnected(registered: Option<Seq<char>>, ss: Seq<SessionView>)
    ensures
        close_sessions(registered, ss).len() == ss.len(),
        forall|i: int| 0 <= i < ss.len() && close_sessions(registered, ss)[i] != ss[i] ==> {
            &&& registered == Some(ss[i].session_id)
            &&& first_session(ss, ss[i].session_id) == Some(i)
            &&& ss[i].status == "running"@
            &&& close_sessions(registered, ss)[i] == (SessionView { status: "disconnected"@, ..ss[i] })
        },
        (close_broadcast(registered, ss) is Some) == (close_sessions(registered, ss) != ss),
{
    match registered {
        Some(sid) => match first_session(ss, sid) {
            Some(i) => {
                if ss[i].status == "running"@ {
                    let t = close_sessions(registered, ss);
                    assert(t[i].status != ss[i].status) by {
                        reveal_strlit("running");
                        reveal_strlit("disconnected");
                        assert("running"@[0] != "disconnected"@[0]);
                    }
                    assert(t != ss);
                }
            },
            None => {},
        },
        None => {},
    }
}

} // verus!
