//! Decisions of the HTTP handler's hooks that do not touch the wire: error status of a
//! failed proxy attempt, forwarded-for headers, response headers, log files and lines,
//! and the log sink's flushing.
use vstd::prelude::*;
use vstd::string::*;
use crate::text::{chars_of, decimal, push_decimal, string_of};
use crate::error_pages::{join, join_path};
use crate::config::headers_view;

verus! {

/// A line for the log sink and the file it goes to.
#[derive(Debug, Clone)]
pub struct LogEntry {
    pub file_path: String,
    pub line: String,
}

/// Where a proxying failure came from.
#[derive(Debug, Clone, Copy, PartialEq, Eq, Structural)]
pub enum FailureKind {
    /// The failure carries an HTTP status of its own.
    HttpStatus(u16),
    Upstream,
    Downstream,
    Other,
}

/// The status to answer a failed proxy attempt with; 0 means write nothing (the client
/// side failed).
pub fn fail_status(kind: FailureKind) -> (r: u16)
    ensures
        r == match kind {
            FailureKind::HttpStatus(c) => c,
            FailureKind::Upstream => 502u16,
            FailureKind::Downstream => 0u16,
            FailureKind::Other => 500u16,
        },
{
    match kind {
        FailureKind::HttpStatus(c) => c,
        FailureKind::Upstream => 502,
        FailureKind::Downstream => 0,
        FailureKind::Other => 500,
    }
}

/// The `X-Forwarded-For` value sent upstream: the client address appended to an existing
/// list, or on its own.
pub fn forwarded_for(existing: Option<&str>, client_ip: &str) -> (r: String)
    ensures
        r@ == match existing {
            Some(e) => e@ + ", "@ + client_ip@,
            None => client_ip@,
        },
{
    match existing {
        Some(e) => String::from_str(e).concat(", ").concat(client_ip),
        None => String::from_str(client_ip),
    }
}

pub open spec fn hsts_value() -> Seq<char> {
    "max-age=31536000; includeSubDomains"@
}

/// Headers added to a proxied response: HSTS when the host asks for it, the location's
/// custom headers, then the server name.
pub open spec fn proxied_headers(hsts: bool, custom: Seq<(Seq<char>, Seq<char>)>) -> Seq<
    (Seq<char>, Seq<char>),
> {
    let first = if hsts {
        seq![("Strict-Transport-Security"@, hsts_value())]
    } else {
        seq![]
    };
    first + custom + seq![("Server"@, "pingora-manager"@)]
}

/// The headers to add to a proxied response.
pub fn response_headers(hsts: bool, custom: &Vec<(String, String)>) -> (r: Vec<(String, String)>)
    ensures
        headers_view(r@) == proxied_headers(hsts, headers_view(custom@)),
{
    let mut out: Vec<(String, String)> = Vec::new();
    if hsts {
        out.push(
            (
                String::from_str("Strict-Transport-Security"),
                String::from_str("max-age=31536000; includeSubDomains"),
            ),
        );
    }
    let ghost first = headers_view(out@);
    for i in 0..custom.len()
        invariant
            out@.len() == first.len() + i,
            headers_view(out@) == first + headers_view(custom@.take(i as int)),
    {
        let ghost prev = out@;
        let name = custom[i].0.clone();
        let value = custom[i].1.clone();
        out.push((name, value));
        assert(custom@.take(i + 1) =~= custom@.take(i as int).push(custom@[i as int]));
        assert(headers_view(out@) =~= headers_view(prev).push((custom@[i as int].0@, custom@[i as int].1@)));
        assert(headers_view(custom@.take(i + 1)) =~= headers_view(custom@.take(i as int)).push(
            (custom@[i as int].0@, custom@[i as int].1@),
        ));
    }
    assert(custom@.take(custom@.len() as int) =~= custom@);
    let ghost mid = out@;
    out.push((String::from_str("Server"), String::from_str("pingora-manager")));
    assert(headers_view(out@) =~= headers_view(mid).push(("Server"@, "pingora-manager"@)));
    assert(headers_view(out@) =~= proxied_headers(hsts, headers_view(custom@)));
    out
}

/// The log file a request's line goes to: per host (access or error), or the general file.
pub open spec fn log_file(logs_dir: Seq<char>, host_id: Option<u64>, error: bool) -> Seq<char> {
    match host_id {
        Some(id) => join_path(
            logs_dir,
            "proxy-host-"@ + decimal(id as nat) + if error {
                "_error.log"@
            } else {
                "_access.log"@
            },
        ),
        None => join_path(logs_dir, "proxy_general.log"@),
    }
}

/// The log file for a request's access line (`error == false`) or error line.
pub fn log_file_path(logs_dir: &str, host_id: Option<u64>, error: bool) -> (r: String)
    ensures
        r@ == log_file(logs_dir@, host_id, error),
{
    match host_id {
        Some(id) => {
            let mut v = chars_of("proxy-host-");
            push_decimal(id, &mut v);
            let name = string_of(&v).concat(
                if error {
                    "_error.log"
                } else {
                    "_access.log"
                },
            );
            join(logs_dir, name.as_str())
        },
        None => join(logs_dir, "proxy_general.log"),
    }
}

/// A log line: `<ts> <method> <host> <path> <status>`, with ` - error: <msg>` for an error
/// line, ending in a newline.
pub open spec fn log_line_text(
    ts: Seq<char>,
    method: Seq<char>,
    host: Seq<char>,
    path: Seq<char>,
    status: u16,
    error: Option<Seq<char>>,
) -> Seq<char> {
    let base = ts + " "@ + method + " "@ + host + " "@ + path + " "@ + decimal(status as nat);
    match error {
        Some(e) => base + " - error: "@ + e + "\n"@,
        None => base + "\n"@,
    }
}

/// Formats a log line.
pub fn log_line(
    ts: &str,
    method: &str,
    host: &str,
    path: &str,
    status: u16,
    error: Option<&str>,
) -> (r: String)
    ensures
        r@ == log_line_text(
            ts@,
            method@,
            host@,
            path@,
            status,
            match error {
                Some(e) => Some(e@),
                None => None,
            },
        ),
{
    let mut code: Vec<char> = Vec::new();
    push_decimal(status as u64, &mut code);
    assert(code@ =~= decimal(status as nat));
    let code = string_of(&code);
    let base = String::from_str(ts).concat(" ").concat(method).concat(" ").concat(host).concat(
        " ",
    ).concat(path).concat(" ").concat(code.as_str());
    match error {
        Some(e) => base.concat(" - error: ").concat(e).concat("\n"),
        None => base.concat("\n"),
    }
}

/// Messages written between two flushes of the log sink.
pub const FLUSH_EVERY: u32 = 64;

/// What happens to the log sink.
#[derive(Debug, Clone, Copy, PartialEq, Eq, Structural)]
pub enum SinkEvent {
    /// A line was written.
    Written,
    /// The queue stayed idle for the flush interval.
    Idle,
    /// The queue was closed.
    Closed,
}

/// The sink's next state: messages since the last flush, whether to flush every writer
/// now, and whether to stop.
#[derive(Debug, Clone, Copy, PartialEq, Eq, Structural)]
pub struct SinkStep {
    pub pending: u32,
    pub flush: bool,
    pub stop: bool,
}

/// The log sink's decision for an event, given the messages written since the last flush.
pub fn log_sink_step(pending: u32, event: SinkEvent) -> (r: SinkStep)
    requires
        pending < FLUSH_EVERY,
    ensures
        r.pending < FLUSH_EVERY,
        r == match event {
            SinkEvent::Written => if pending + 1 >= FLUSH_EVERY {
                SinkStep { pending: 0, flush: true, stop: false }
            } else {
                SinkStep { pending: (pending + 1) as u32, flush: false, stop: false }
            },
            SinkEvent::Idle => SinkStep { pending: 0, flush: true, stop: false },
            SinkEvent::Closed => SinkStep { pending: 0, flush: true, stop: true },
        },
{
    match event {
        SinkEvent::Written => {
            if pending + 1 >= FLUSH_EVERY {
                SinkStep { pending: 0, flush: true, stop: false }
            } else {
                SinkStep { pending: pending + 1, flush: false, stop: false }
            }
        },
        SinkEvent::Idle => SinkStep { pending: 0, flush: true, stop: false },
        SinkEvent::Closed => SinkStep { pending: 0, flush: true, stop: true },
    }
}

} // verus!
