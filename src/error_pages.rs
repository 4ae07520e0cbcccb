//! Error pages: where to look for a page (host, then group, then global) and the
//! built-in page used when none can be read.
use vstd::prelude::*;
use vstd::string::*;
use crate::text::{chars_of, decimal, push_decimal, string_of};

verus! {

/// Reason phrase of a status code, from a fixed table; `Error` for any other code.
pub open spec fn reason_phrase(code: u16) -> Seq<char> {
    if code == 400 {
        "Bad Request"@
    } else if code == 401 {
        "Unauthorized"@
    } else if code == 403 {
        "Forbidden"@
    } else if code == 404 {
        "Not Found"@
    } else if code == 405 {
        "Method Not Allowed"@
    } else if code == 408 {
        "Request Timeout"@
    } else if code == 413 {
        "Payload Too Large"@
    } else if code == 429 {
        "Too Many Requests"@
    } else if code == 500 {
        "Internal Server Error"@
    } else if code == 502 {
        "Bad Gateway"@
    } else if code == 503 {
        "Service Unavailable"@
    } else if code == 504 {
        "Gateway Timeout"@
    } else {
        "Error"@
    }
}

/// Reason phrase of a status code.
pub fn status_reason(code: u16) -> (r: &'static str)
    ensures
        r@ == reason_phrase(code),
{
    match code {
        400 => "Bad Request",
        401 => "Unauthorized",
        403 => "Forbidden",
        404 => "Not Found",
        405 => "Method Not Allowed",
        408 => "Request Timeout",
        413 => "Payload Too Large",
        429 => "Too Many Requests",
        500 => "Internal Server Error",
        502 => "Bad Gateway",
        503 => "Service Unavailable",
        504 => "Gateway Timeout",
        _ => "Error",
    }
}

/// `PathBuf::join` of a relative or absolute component onto a directory.
pub open spec fn join_path(dir: Seq<char>, part: Seq<char>) -> Seq<char> {
    if part.len() > 0 && part[0] == '/' {
        part
    } else if dir.len() == 0 {
        part
    } else if dir.last() == '/' {
        dir + part
    } else {
        dir + "/"@ + part
    }
}

/// `dir` joined with `part`.
pub fn join(dir: &str, part: &str) -> (r: String)
    ensures
        r@ == join_path(dir@, part@),
{
    let p = chars_of(part);
    if p.len() > 0 && p[0] == '/' {
        return String::from_str(part);
    }
    let d = chars_of(dir);
    if d.len() == 0 {
        String::from_str(part)
    } else if d[d.len() - 1] == '/' {
        String::from_str(dir).concat(part)
    } else {
        String::from_str(dir).concat("/").concat(part)
    }
}

/// `<prefix><n>` as a path component.
fn tagged(prefix: &str, n: u64) -> (r: String)
    ensures
        r@ == prefix@ + decimal(n as nat),
{
    let mut v = chars_of(prefix);
    push_decimal(n, &mut v);
    string_of(&v)
}

pub open spec fn page_name(code: u16) -> Seq<char> {
    decimal(code as nat) + ".html"@
}

/// The error-page files to try, in order: `host-<id>/<code>.html` when the host is known,
/// `group-<id>/<code>.html` when the group is, then `global/<code>.html`.
pub open spec fn page_candidates(
    root: Seq<char>,
    code: u16,
    host_id: Option<u64>,
    group_id: Option<u64>,
) -> Seq<Seq<char>> {
    let name = page_name(code);
    let host_part = match host_id {
        Some(h) => seq![join_path(join_path(root, "host-"@ + decimal(h as nat)), name)],
        None => seq![],
    };
    let group_part = match group_id {
        Some(g) => seq![join_path(join_path(root, "group-"@ + decimal(g as nat)), name)],
        None => seq![],
    };
    host_part + group_part + seq![join_path(join_path(root, "global"@), name)]
}

/// The error-page files to try for a status, most specific first.
pub fn error_page_candidates(
    error_pages_dir: &str,
    status_code: u16,
    host_id: Option<u64>,
    group_id: Option<u64>,
) -> (r: Vec<String>)
    ensures
        r@.map_values(|s: String| s@) == page_candidates(
            error_pages_dir@,
            status_code,
            host_id,
            group_id,
        ),
{
    let name = tagged("", status_code as u64).concat(".html");
    proof {
        reveal_strlit("");
        assert(""@ + decimal(status_code as nat) =~= decimal(status_code as nat));
    }
    let mut out: Vec<String> = Vec::new();
    if let Some(h) = host_id {
        let dir = tagged("host-", h);
        out.push(join(join(error_pages_dir, dir.as_str()).as_str(), name.as_str()));
    }
    if let Some(g) = group_id {
        let dir = tagged("group-", g);
        out.push(join(join(error_pages_dir, dir.as_str()).as_str(), name.as_str()));
    }
    out.push(join(join(error_pages_dir, "global").as_str(), name.as_str()));
    assert(out@.map_values(|s: String| s@) =~= page_candidates(
        error_pages_dir@,
        status_code,
        host_id,
        group_id,
    ));
    out
}

pub open spec fn builtin_page(code: u16) -> Seq<char> {
    let c = decimal(code as nat);
    let r = reason_phrase(code);
    "<!DOCTYPE html>\n<html><head><title>"@ + c + " "@ + r + "</title></head>\n<body>\n<center><h1>"@
        + c + " "@ + r + "</h1></center>\n<hr><center>pingora-manager</center>\n</body></html>\n"@
}

/// Body of the built-in error page: the code and its reason phrase in minimal HTML.
pub fn builtin_error_body(status_code: u16) -> (r: String)
    ensures
        r@ == builtin_page(status_code),
{
    let code = tagged("", status_code as u64);
    proof {
        reveal_strlit("");
        assert(""@ + decimal(status_code as nat) =~= decimal(status_code as nat));
    }
    let reason = status_reason(status_code);
    let r = String::from_str("<!DOCTYPE html>\n<html><head><title>").concat(code.as_str()).concat(
        " ",
    ).concat(reason).concat("</title></head>\n<body>\n<center><h1>").concat(code.as_str()).concat(
        " ",
    ).concat(reason).concat("</h1></center>\n<hr><center>pingora-manager</center>\n</body></html>\n");
    r
}

} // verus!
