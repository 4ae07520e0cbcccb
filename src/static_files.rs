//! Decisions of the static-file path: cache lifetimes, the traversal guard and
//! conditional GET. Reading files, canonicalising paths and the clock stay with the caller.
use vstd::prelude::*;
use vstd::string::*;
use crate::text::{
    chars_of, parse_u64, parse_u64_at, trim, trim_bounds, decimal, push_decimal, string_of,
};
use crate::access::{chars_eq_at, same_text};
use crate::error_pages::{join, join_path};
use crate::config::headers_view;

verus! {

/// Seconds per unit suffix; zero for a character that is no unit.
pub open spec fn unit_seconds(c: char) -> u64 {
    if c == 'd' {
        86400
    } else if c == 'h' {
        3600
    } else if c == 'm' {
        60
    } else if c == 's' {
        1
    } else {
        0
    }
}

/// Lifetime in seconds that a cache-expiry setting denotes: a plain count of seconds, or a
/// count followed by `s`, `m`, `h` or `d`, surrounding whitespace ignored. Anything else, and
/// a product that leaves the 64-bit range, gives 0.
pub open spec fn cache_duration(s: Seq<char>) -> u64 {
    let t = trim(s);
    if t.len() == 0 {
        0
    } else if parse_u64(t) is Some {
        parse_u64(t)->0
    } else if unit_seconds(t.last()) == 0 {
        0
    } else {
        match parse_u64(trim(t.drop_last())) {
            None => 0,
            Some(n) => if n * unit_seconds(t.last()) <= u64::MAX {
                (n * unit_seconds(t.last())) as u64
            } else {
                0
            },
        }
    }
}

fn unit_of(c: char) -> (r: u64)
    ensures
        r == unit_seconds(c),
{
    if c == 'd' {
        86400
    } else if c == 'h' {
        3600
    } else if c == 'm' {
        60
    } else if c == 's' {
        1
    } else {
        0
    }
}

/// Parses a cache-expiry setting such as `30d`, `1h` or `3600` into seconds.
pub fn parse_cache_duration(s: &str) -> (r: u64)
    ensures
        r == cache_duration(s@),
{
    let v = chars_of(s);
    let (lo, hi) = trim_bounds(&v, 0, v.len());
    assert(v@.subrange(0, v@.len() as int) =~= v@);
    let ghost t = v@.subrange(lo as int, hi as int);
    if lo == hi {
        return 0;
    }
    if let Some(n) = parse_u64_at(&v, lo, hi) {
        return n;
    }
    let unit = unit_of(v[hi - 1]);
    if unit == 0 {
        return 0;
    }
    let (a, b) = trim_bounds(&v, lo, hi - 1);
    assert(t.drop_last() =~= v@.subrange(lo as int, hi - 1));
    match parse_u64_at(&v, a, b) {
        None => 0,
        Some(n) => {
            assert((n as u128) * (unit as u128) <= (u64::MAX as u128) * 86400) by (nonlinear_arith)
                requires
                    n <= u64::MAX,
                    unit <= 86400,
            ;
            let p: u128 = (n as u128) * (unit as u128);
            if p <= u64::MAX as u128 {
                p as u64
            } else {
                0
            }
        },
    }
}

/// A setting from which no count can be read, and one whose count times its unit leaves the
/// 64-bit range, both give a lifetime of 0.
pub proof fn cache_duration_zero_when_unreadable(s: Seq<char>)
    ensures
        ({
            let t = trim(s);
            parse_u64(t) is None && (t.len() == 0 || parse_u64(trim(t.drop_last())) is None)
        }) ==> cache_duration(s) == 0,
        ({
            let t = trim(s);
            &&& t.len() > 0
            &&& parse_u64(t) is None
            &&& parse_u64(trim(t.drop_last())) is Some
            &&& parse_u64(trim(t.drop_last()))->0 * unit_seconds(t.last()) > u64::MAX
        }) ==> cache_duration(s) == 0,
{
}

/// The `Cache-Control` value for a lifetime: none for a lifetime of 0.
pub open spec fn cache_control_for(secs: u64) -> Option<Seq<char>> {
    if secs == 0 {
        None
    } else {
        Some("public, max-age="@ + decimal(secs as nat))
    }
}

/// The `Cache-Control` header value for an optional cache-expiry setting.
pub fn cache_control_value(cache_expires: Option<&str>) -> (r: Option<String>)
    ensures
        match cache_expires {
            None => r is None,
            Some(e) => match cache_control_for(cache_duration(e@)) {
                None => r is None,
                Some(v) => r is Some && r->0@ == v,
            },
        },
{
    match cache_expires {
        None => None,
        Some(e) => {
            let secs = parse_cache_duration(e);
            if secs == 0 {
                None
            } else {
                let mut out = chars_of("public, max-age=");
                push_decimal(secs, &mut out);
                Some(string_of(&out))
            }
        },
    }
}

/// Seconds a cached file stays fresh.
pub const CACHE_TTL_SECS: u64 = 30;

/// Entry count above which the file cache drops an entry.
pub const CACHE_SOFT_CAP: usize = 1024;

/// `s` without its leading `/` characters.
pub open spec fn strip_slashes(s: Seq<char>) -> Seq<char>
    decreases s.len(),
{
    if s.len() > 0 && s[0] == '/' {
        strip_slashes(s.drop_first())
    } else {
        s
    }
}

/// The request path below a location: the location prefix stripped when present, then the
/// leading slashes.
pub open spec fn relative_path(request: Seq<char>, location: Seq<char>) -> Seq<char> {
    let rest = if location.len() <= request.len() && request.take(location.len() as int)
        == location {
        request.skip(location.len() as int)
    } else {
        request
    };
    strip_slashes(rest)
}

/// The file a static request names before canonicalisation: the relative path joined onto
/// the base directory.
pub fn static_target(base_dir: &str, request_path: &str, location_path: &str) -> (r: String)
    ensures
        r@ == join_path(base_dir@, relative_path(request_path@, location_path@)),
{
    let rv = chars_of(request_path);
    let lv = chars_of(location_path);
    let mut start: usize = 0;
    if lv.len() <= rv.len() {
        assert(rv@.take(lv@.len() as int) =~= rv@.subrange(0, lv@.len() as int));
        if chars_eq_at(&rv, 0, lv.len(), &lv) {
            start = lv.len();
        }
    }
    let ghost rest = rv@.subrange(start as int, rv@.len() as int);
    assert(rest == (if lv@.len() <= rv@.len() && rv@.take(lv@.len() as int) == lv@ {
        rv@.skip(lv@.len() as int)
    } else {
        rv@
    }));
    let mut i = start;
    while i < rv.len() && rv[i] == '/'
        invariant
            start <= i <= rv@.len(),
            strip_slashes(rv@.subrange(i as int, rv@.len() as int)) == strip_slashes(rest),
        decreases rv.len() - i,
    {
        assert(rv@.subrange(i as int, rv@.len() as int).drop_first() =~= rv@.subrange(
            i + 1,
            rv@.len() as int,
        ));
        i = i + 1;
    }
    let rel = request_path.substring_char(i, rv.len());
    join(base_dir, rel)
}

/// Whether a canonical path lies under a canonical base directory, component-wise (as
/// `Path::starts_with` compares): the base itself, or the base followed by a separator.
pub open spec fn path_within(target: Seq<char>, base: Seq<char>) -> bool {
    target == base || (base.len() < target.len() && target.take(base.len() as int) == base && (
    (base.len() > 0 && base.last() == '/') || target[base.len() as int] == '/'))
}

/// Whether a static request may be answered with the file: its canonical target lies under
/// the canonical base directory and is a regular file.
pub fn may_serve(canonical_target: &str, canonical_base: &str, is_file: bool) -> (r: bool)
    ensures
        r == (path_within(canonical_target@, canonical_base@) && is_file),
        !path_within(canonical_target@, canonical_base@) ==> !r,
{
    if !is_file {
        return false;
    }
    let t = chars_of(canonical_target);
    let b = chars_of(canonical_base);
    let tl = t.len();
    let bl = b.len();
    assert(t@.subrange(0, tl as int) =~= t@);
    if chars_eq_at(&t, 0, tl, &b) {
        return true;
    }
    if bl >= tl {
        return false;
    }
    assert(t@.take(bl as int) =~= t@.subrange(0, bl as int));
    if !chars_eq_at(&t, 0, bl, &b) {
        return false;
    }
    (bl > 0 && b[bl - 1] == '/') || t[bl] == '/'
}

/// How a cached file answers a request.
#[derive(Debug, Clone, Copy, PartialEq, Eq, Structural)]
pub enum CacheOutcome {
    /// Fresh and unchanged since the client's copy: 304 with `Last-Modified` only.
    NotModified,
    /// Fresh: 200 from the cached bytes.
    Fresh,
    /// Too old: read the file again.
    Stale,
}

/// Whether the client's `If-Modified-Since` equals the file's `Last-Modified`.
pub fn not_modified(last_modified: &str, if_modified_since: Option<&str>) -> (r: bool)
    ensures
        r == (if_modified_since is Some && if_modified_since->0@ == last_modified@),
{
    match if_modified_since {
        Some(ims) => same_text(ims, last_modified),
        None => false,
    }
}

/// The answer a cache entry of the given age gives.
pub fn cached_outcome(age_secs: u64, last_modified: &str, if_modified_since: Option<&str>) -> (r:
    CacheOutcome)
    ensures
        age_secs >= CACHE_TTL_SECS ==> r == CacheOutcome::Stale,
        age_secs < CACHE_TTL_SECS ==> r == (if if_modified_since is Some
            && if_modified_since->0@ == last_modified@ {
            CacheOutcome::NotModified
        } else {
            CacheOutcome::Fresh
        }),
{
    if age_secs >= CACHE_TTL_SECS {
        CacheOutcome::Stale
    } else if not_modified(last_modified, if_modified_since) {
        CacheOutcome::NotModified
    } else {
        CacheOutcome::Fresh
    }
}

/// Whether the cache has grown past its soft cap and should drop an entry.
pub fn should_evict(len: usize) -> (r: bool)
    ensures
        r == (len > CACHE_SOFT_CAP),
{
    len > CACHE_SOFT_CAP
}

/// The MIME type `mime_guess` gives a path (by its extension), `application/octet-stream`
/// when it knows none.
pub uninterp spec fn mime_for(path: Seq<char>) -> Seq<char>;

/// Relies on `mime_guess::from_path(..).first_or_octet_stream()`: a function of the path.
#[verifier::external_body]
fn guess_mime(path: &str) -> (r: String)
    ensures
        r@ == mime_for(path@),
{
    mime_guess::from_path(path).first_or_octet_stream().to_string()
}

/// A Unix time in seconds in HTTP date form (`%a, %d %b %Y %H:%M:%S GMT`, UTC), as
/// `chrono` formats it; empty outside chrono's range of dates.
pub uninterp spec fn http_date(secs: int) -> Seq<char>;

/// Relies on `chrono::DateTime::from_timestamp` and `format`: a function of the time.
#[verifier::external_body]
fn format_http_date(secs: i64) -> (r: String)
    ensures
        r@ == http_date(secs as int),
{
    match chrono::DateTime::from_timestamp(secs, 0) {
        Some(d) => d.format("%a, %d %b %Y %H:%M:%S GMT").to_string(),
        None => String::new(),
    }
}

/// The `Last-Modified` value of a file modified at `modified_secs`, and whether the
/// request's `If-Modified-Since` names exactly that value (then the answer is 304).
pub fn last_modified_outcome(modified_secs: i64, if_modified_since: Option<&str>) -> (r: (
    String,
    bool,
))
    ensures
        r.0@ == http_date(modified_secs as int),
        r.1 == (if_modified_since is Some && if_modified_since->0@ == http_date(
            modified_secs as int,
        )),
{
    let lm = format_http_date(modified_secs);
    let nm = not_modified(lm.as_str(), if_modified_since);
    (lm, nm)
}

/// Headers of a 200 answer: `Content-Type`, `Content-Length`, `Last-Modified`, and
/// `Cache-Control` when the cache-expiry setting gives a positive lifetime.
pub open spec fn ok_headers(
    body_len: usize,
    mime: Seq<char>,
    last_modified: Seq<char>,
    cache_expires: Option<Seq<char>>,
) -> Seq<(Seq<char>, Seq<char>)> {
    let base = seq![
        ("Content-Type"@, mime),
        ("Content-Length"@, decimal(body_len as nat)),
        ("Last-Modified"@, last_modified),
    ];
    match cache_expires {
        Some(e) => match cache_control_for(cache_duration(e)) {
            Some(v) => base.push(("Cache-Control"@, v)),
            None => base,
        },
        None => base,
    }
}

fn header(name: &str, value: String) -> (r: (String, String))
    ensures
        r.0@ == name@,
        r.1@ == value@,
{
    (String::from_str(name), value)
}

/// Headers of a 200 answer for a file body.
pub fn build_200_response(
    body_len: usize,
    mime: &str,
    last_modified: &str,
    cache_expires: Option<&str>,
) -> (r: Vec<(String, String)>)
    ensures
        headers_view(r@) == ok_headers(
            body_len,
            mime@,
            last_modified@,
            match cache_expires {
                Some(e) => Some(e@),
                None => None,
            },
        ),
{
    let mut len_text: Vec<char> = Vec::new();
    push_decimal(body_len as u64, &mut len_text);
    assert(len_text@ =~= decimal(body_len as nat));
    let mut out: Vec<(String, String)> = Vec::new();
    out.push(header("Content-Type", String::from_str(mime)));
    out.push(header("Content-Length", string_of(&len_text)));
    out.push(header("Last-Modified", String::from_str(last_modified)));
    match cache_control_value(cache_expires) {
        Some(v) => {
            out.push(header("Cache-Control", v));
        },
        None => {},
    }
    assert(headers_view(out@) =~= ok_headers(
        body_len,
        mime@,
        last_modified@,
        match cache_expires {
            Some(e) => Some(e@),
            None => None,
        },
    ));
    out
}

/// Headers of the default page: its type, guessed from the path, and its length only.
pub fn default_page_headers(path: &str, body_len: usize) -> (r: Vec<(String, String)>)
    ensures
        headers_view(r@) == seq![
            ("Content-Type"@, mime_for(path@)),
            ("Content-Length"@, decimal(body_len as nat)),
        ],
{
    let mut len_text: Vec<char> = Vec::new();
    push_decimal(body_len as u64, &mut len_text);
    assert(len_text@ =~= decimal(body_len as nat));
    let mut out: Vec<(String, String)> = Vec::new();
    out.push(header("Content-Type", guess_mime(path)));
    out.push(header("Content-Length", string_of(&len_text)));
    assert(headers_view(out@) =~= seq![
        ("Content-Type"@, mime_for(path@)),
        ("Content-Length"@, decimal(body_len as nat)),
    ]);
    out
}

/// Headers of a 200 answer for the file at `path`, its type guessed from the path.
pub fn file_response_headers(
    path: &str,
    body_len: usize,
    last_modified: &str,
    cache_expires: Option<&str>,
) -> (r: Vec<(String, String)>)
    ensures
        headers_view(r@) == ok_headers(
            body_len,
            mime_for(path@),
            last_modified@,
            match cache_expires {
                Some(e) => Some(e@),
                None => None,
            },
        ),
{
    let mime = guess_mime(path);
    build_200_response(body_len, mime.as_str(), last_modified, cache_expires)
}

} // verus!
