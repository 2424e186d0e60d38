//! The preview server's decisions: which requests open the live-reload
//! stream, what the stream does on each event, and which responses get the
//! reload script.
use vstd::prelude::*;
use vstd::string::StringSliceAdditionalSpecFns;
use crate::text::{chars_equal, chars_of, occurs_at, occurs_at_exec};

verus! {

/// Path the injected script connects to for rebuild notifications.
pub const LIVERELOAD_PATH: &'static str = "/__squid/livereload";

/// Injected into every served HTML page; reloads the browser when the
/// watcher finishes a rebuild.
pub const RELOAD_SCRIPT: &'static str = "\n<script>(() => { new EventSource('/__squid/livereload').onmessage = () => location.reload(); })();</script>\n";

/// Whether a request for `path` opens the live-reload stream.
pub fn is_livereload_path(path: &str) -> (res: bool)
    ensures
        res == (path@ == LIVERELOAD_PATH@),
{
    let p = chars_of(path);
    let l = chars_of(LIVERELOAD_PATH);
    chars_equal(&p, &l)
}

/// Whether a response with this `Content-Type` is an HTML page.
pub fn is_html_content_type(content_type: Option<&str>) -> (res: bool)
    ensures
        res == match content_type {
            Some(t) => occurs_at(t@, 0, "text/html"@),
            None => false,
        },
{
    match content_type {
        Some(t) => {
            let cs = chars_of(t);
            let prefix = chars_of("text/html");
            occurs_at_exec(&cs, 0, &prefix)
        },
        None => false,
    }
}

/// The body of a served file: HTML pages get the reload script appended.
pub fn with_reload_script(body: Vec<u8>, is_html: bool) -> (res: Vec<u8>)
    ensures
        res@ == if is_html {
            body@ + RELOAD_SCRIPT.spec_bytes()
        } else {
            body@
        },
{
    if !is_html {
        return body;
    }
    let mut out = body;
    let script = RELOAD_SCRIPT.as_bytes();
    let ghost start = out@;
    let mut i: usize = 0;
    while i < script.len()
        invariant
            i <= script@.len(),
            script@ == RELOAD_SCRIPT.spec_bytes(),
            out@ == start + script@.take(i as int),
        decreases script@.len() - i,
    {
        out.push(script[i]);
        i = i + 1;
        assert(out@ =~= start + script@.take(i as int));
    }
    assert(script@.take(script@.len() as int) =~= script@);
    out
}

/// What the live-reload stream receives from the rebuild channel.
pub enum StreamEvent {
    /// The site was rebuilt.
    Rebuilt,
    /// The stream fell behind and missed some rebuilds.
    Lagged,
    /// The channel was closed.
    Closed,
}

/// What the live-reload stream does next.
pub enum StreamAction {
    /// Send a reload message to the browser.
    SendReload,
    /// Wait for the next event.
    Wait,
    /// End the stream.
    Stop,
}

/// What the stream does on an event: reload on a rebuild, keep waiting when
/// it lagged (only the latest rebuild matters), stop when the channel closed.
pub fn on_stream_event(event: &StreamEvent) -> (res: StreamAction)
    ensures
        res == match *event {
            StreamEvent::Rebuilt => StreamAction::SendReload,
            StreamEvent::Lagged => StreamAction::Wait,
            StreamEvent::Closed => StreamAction::Stop,
        },
{
    match event {
        StreamEvent::Rebuilt => StreamAction::SendReload,
        StreamEvent::Lagged => StreamAction::Wait,
        StreamEvent::Closed => StreamAction::Stop,
    }
}

/// What the stream does after sending to the browser: keep waiting when the
/// browser took the message, stop when it went away.
pub fn after_send(delivered: bool) -> (res: StreamAction)
    ensures
        res == if delivered {
            StreamAction::Wait
        } else {
            StreamAction::Stop
        },
{
    if delivered {
        StreamAction::Wait
    } else {
        StreamAction::Stop
    }
}

} // verus!
