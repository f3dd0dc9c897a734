//! The decisions a run of `just` makes about reporting its events.

use vstd::prelude::*;
use vstd::string::StringExecFns;
use crate::live_event::opt_str_view;

verus! {

/// Where live events go.
#[derive(Debug)]
pub enum LiveTarget {
    /// Nowhere: live visualization is off.
    Off,
    /// To the central server at this address (`JUST_LIVE_URL`).
    Remote(String),
    /// To a server embedded in the run.
    Embedded,
}

/// How a run reports its events.
#[derive(Debug)]
pub struct RunSetup {
    /// Whether events are broadcast at all.
    pub broadcast: bool,
    pub live: LiveTarget,
    /// Whether spans are exported over OTLP.
    pub otel: bool,
    /// How long the run waits, once done, for its final event to be delivered.
    pub linger_ms: u64,
    /// Whether the run keeps its embedded server up once done.
    pub keep_alive: bool,
}

/// The setup for the flags `--live` and `--otel`, where `live_url` is the value
/// of `JUST_LIVE_URL`, if set: events are broadcast where either flag is given;
/// live events go to the central server where its address is set, else to an
/// embedded server, which stays up once the run is done; the run waits one
/// second for the exporter, else half a second.
pub fn run_setup(live: bool, otel: bool, live_url: Option<String>) -> (r: RunSetup)
    ensures
        r.broadcast == (live || otel),
        r.otel == otel,
        match r.live {
            LiveTarget::Off => !live,
            LiveTarget::Remote(url) => live && opt_str_view(live_url) == Some(url@),
            LiveTarget::Embedded => live && live_url is None,
        },
        r.linger_ms == (if otel { 1000u64 } else { 500u64 }),
        r.keep_alive == (live && live_url is None),
{
    let keep_alive = live && live_url.is_none();
    let target = if !live {
        LiveTarget::Off
    } else {
        match live_url {
            Some(url) => LiveTarget::Remote(url),
            None => LiveTarget::Embedded,
        }
    };
    RunSetup {
        broadcast: live || otel,
        live: target,
        otel,
        linger_ms: if otel { 1000 } else { 500 },
        keep_alive,
    }
}

/// What the run says when it keeps its embedded server up.
pub fn keep_alive_notice(success: bool) -> (r: String)
    ensures
        r@ == (if success {
            "Recipes complete. Visualization server still running. Press Ctrl+C to exit."@
        } else {
            "Recipes failed. Visualization server still running. Press Ctrl+C to exit."@
        }),
{
    if success {
        String::from_str("Recipes complete. Visualization server still running. Press Ctrl+C to exit.")
    } else {
        String::from_str("Recipes failed. Visualization server still running. Press Ctrl+C to exit.")
    }
}

} // verus!
