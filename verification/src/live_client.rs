//! Where a run publishes its live events to a central server.

use vstd::prelude::*;
use vstd::string::StringExecFns;
use crate::json::{json_quoted, json_string, json_value_text, value_text};
use crate::text::{replace_first, replace_first_exec, trim_end_char, trim_end_matches_char};

verus! {

/// The WebSocket address to publish to, from the server's HTTP address: trailing
/// slashes dropped, the first `http://` made `ws://`, then the first `https://`
/// made `wss://`, and `/api/publish` appended.
pub open spec fn publish_url_of(server_url: Seq<char>) -> Seq<char> {
    replace_first(
        replace_first(trim_end_char(server_url, '/'), "http://"@, "ws://"@),
        "https://"@,
        "wss://"@,
    ) + "/api/publish"@
}

/// The WebSocket address to publish to, from the server's HTTP address.
pub fn publish_url(server_url: &str) -> (r: String)
    ensures
        r@ == publish_url_of(server_url@),
{
    let trimmed = trim_end_matches_char(server_url, '/');
    let ws = replace_first_exec(trimmed, "http://", "ws://");
    let mut r = replace_first_exec(ws.as_str(), "https://", "wss://");
    r.append("/api/publish");
    r
}

/// The message that carries an event to the central server: a JSON object with
/// the event (as `serde_json` reads and writes it back, `null` where it is not
/// JSON), the project and the session id, members in the order `serde_json`'s
/// `Map` keeps them, which is the order of their names.
pub open spec fn publish_message_of(session_id: Seq<char>, project: Seq<char>, event: Seq<char>) -> Seq<char> {
    "{\"event\":"@ + event + ",\"project\":"@ + json_quoted(project) + ",\"session_id\":"@
        + json_quoted(session_id) + "}"@
}

/// The message that carries an event of the session to the central server.
pub fn publish_message(session_id: &str, project: &str, event_json: &str) -> (r: String)
    ensures
        r@ == publish_message_of(session_id@, project@, json_value_text(event_json@)),
{
    let mut r = String::from_str("{\"event\":");
    let event = value_text(event_json);
    r.append(event.as_str());
    r.append(",\"project\":");
    let p = json_string(project);
    r.append(p.as_str());
    r.append(",\"session_id\":");
    let sid = json_string(session_id);
    r.append(sid.as_str());
    r.append("}");
    r
}

} // verus!
