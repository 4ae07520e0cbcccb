//! The per-request dispatcher: from host, path, arrival port, client address and
//! credentials to one action, against an immutable snapshot of the configuration.
use vstd::prelude::*;
use vstd::string::*;
use std::collections::HashMap;
use crate::config::{
    AppConfig, GlobalConfig, HostConfig, LocationConfig, AccessListConfig, headers_view,
};
use crate::access::{
    IpAddress, AccessResult, access_verdict, check_access, chars_eq_at, opt_text, same_text,
};
use crate::router::{Router, first_match, compiled_ok};
use crate::text::chars_of;

verus! {

broadcast use vstd::std_specs::hash::group_hash_axioms;

/// What to do with a request. Every variant owns the data it carries.
#[derive(Debug)]
pub enum RequestAction {
    Proxy {
        upstream_addr: String,
        host_id: Option<u64>,
        group_id: Option<u64>,
        hsts: bool,
        custom_headers: Vec<(String, String)>,
    },
    Redirect { status_code: u16, location: String },
    ForceHttps { location: String },
    ServeStatic {
        static_dir: String,
        location_path: String,
        cache_expires: Option<String>,
        host_id: Option<u64>,
        group_id: Option<u64>,
        error_pages_dir: String,
        custom_headers: Vec<(String, String)>,
    },
    ServeFile {
        file_path: String,
        cache_expires: Option<String>,
        host_id: Option<u64>,
        group_id: Option<u64>,
        error_pages_dir: String,
        custom_headers: Vec<(String, String)>,
    },
    ServeDefault { default_page: String, error_pages_dir: String },
    AccessDenied { error_pages_dir: String, host_id: Option<u64>, group_id: Option<u64> },
    AuthRequired,
    AcmeChallenge { token: String },
    NoUpstream { error_pages_dir: String, host_id: Option<u64>, group_id: Option<u64> },
}

/// A proxied request that still needs an upstream chosen by the location's selector.
#[derive(Debug)]
pub struct UpstreamRequest {
    pub host_id: u64,
    pub group_id: Option<u64>,
    pub location_index: usize,
    pub key: Vec<u8>,
    pub hsts: bool,
    pub custom_headers: Vec<(String, String)>,
    pub error_pages_dir: String,
}

/// The dispatcher's decision: an action, or a proxy request awaiting its upstream.
#[derive(Debug)]
pub enum Plan {
    Done(RequestAction),
    Upstream(UpstreamRequest),
}

/// An immutable snapshot: global settings, access lists by id and the routing table.
pub struct SharedState {
    pub global: GlobalConfig,
    pub access_lists: HashMap<u64, AccessListConfig>,
    pub router: Router,
}

// ---------------------------------------------------------------- model

pub enum ActionView {
    Proxy {
        upstream_addr: Seq<char>,
        host_id: Option<u64>,
        group_id: Option<u64>,
        hsts: bool,
        custom_headers: Seq<(Seq<char>, Seq<char>)>,
    },
    Redirect { status_code: u16, location: Seq<char> },
    ForceHttps { location: Seq<char> },
    ServeStatic {
        static_dir: Seq<char>,
        location_path: Seq<char>,
        cache_expires: Option<Seq<char>>,
        host_id: Option<u64>,
        group_id: Option<u64>,
        error_pages_dir: Seq<char>,
        custom_headers: Seq<(Seq<char>, Seq<char>)>,
    },
    ServeFile {
        file_path: Seq<char>,
        cache_expires: Option<Seq<char>>,
        host_id: Option<u64>,
        group_id: Option<u64>,
        error_pages_dir: Seq<char>,
        custom_headers: Seq<(Seq<char>, Seq<char>)>,
    },
    ServeDefault { default_page: Seq<char>, error_pages_dir: Seq<char> },
    AccessDenied { error_pages_dir: Seq<char>, host_id: Option<u64>, group_id: Option<u64> },
    AuthRequired,
    AcmeChallenge { token: Seq<char> },
    NoUpstream { error_pages_dir: Seq<char>, host_id: Option<u64>, group_id: Option<u64> },
}

pub struct UpstreamView {
    pub host_id: u64,
    pub group_id: Option<u64>,
    pub location_index: usize,
    pub key: Seq<u8>,
    pub hsts: bool,
    pub custom_headers: Seq<(Seq<char>, Seq<char>)>,
    pub error_pages_dir: Seq<char>,
}

pub enum PlanView {
    Done(ActionView),
    Upstream(UpstreamView),
}

pub open spec fn opt_view(o: Option<String>) -> Option<Seq<char>> {
    match o {
        Some(s) => Some(s@),
        None => None,
    }
}

impl View for RequestAction {
    type V = ActionView;

    open spec fn view(&self) -> ActionView {
        match self {
            RequestAction::Proxy { upstream_addr, host_id, group_id, hsts, custom_headers } =>
                ActionView::Proxy {
                upstream_addr: upstream_addr@,
                host_id: *host_id,
                group_id: *group_id,
                hsts: *hsts,
                custom_headers: headers_view(custom_headers@),
            },
            RequestAction::Redirect { status_code, location } => ActionView::Redirect {
                status_code: *status_code,
                location: location@,
            },
            RequestAction::ForceHttps { location } => ActionView::ForceHttps {
                location: location@,
            },
            RequestAction::ServeStatic {
                static_dir,
                location_path,
                cache_expires,
                host_id,
                group_id,
                error_pages_dir,
                custom_headers,
            } => ActionView::ServeStatic {
                static_dir: static_dir@,
                location_path: location_path@,
                cache_expires: opt_view(*cache_expires),
                host_id: *host_id,
                group_id: *group_id,
                error_pages_dir: error_pages_dir@,
                custom_headers: headers_view(custom_headers@),
            },
            RequestAction::ServeFile {
                file_path,
                cache_expires,
                host_id,
                group_id,
                error_pages_dir,
                custom_headers,
            } => ActionView::ServeFile {
                file_path: file_path@,
                cache_expires: opt_view(*cache_expires),
                host_id: *host_id,
                group_id: *group_id,
                error_pages_dir: error_pages_dir@,
                custom_headers: headers_view(custom_headers@),
            },
            RequestAction::ServeDefault { default_page, error_pages_dir } =>
                ActionView::ServeDefault {
                default_page: default_page@,
                error_pages_dir: error_pages_dir@,
            },
            RequestAction::AccessDenied { error_pages_dir, host_id, group_id } =>
                ActionView::AccessDenied {
                error_pages_dir: error_pages_dir@,
                host_id: *host_id,
                group_id: *group_id,
            },
            RequestAction::AuthRequired => ActionView::AuthRequired,
            RequestAction::AcmeChallenge { token } => ActionView::AcmeChallenge { token: token@ },
            RequestAction::NoUpstream { error_pages_dir, host_id, group_id } =>
                ActionView::NoUpstream {
                error_pages_dir: error_pages_dir@,
                host_id: *host_id,
                group_id: *group_id,
            },
        }
    }
}

impl View for UpstreamRequest {
    type V = UpstreamView;

    open spec fn view(&self) -> UpstreamView {
        UpstreamView {
            host_id: self.host_id,
            group_id: self.group_id,
            location_index: self.location_index,
            key: self.key@,
            hsts: self.hsts,
            custom_headers: headers_view(self.custom_headers@),
            error_pages_dir: self.error_pages_dir@,
        }
    }
}

impl View for Plan {
    type V = PlanView;

    open spec fn view(&self) -> PlanView {
        match self {
            Plan::Done(a) => PlanView::Done(a@),
            Plan::Upstream(u) => PlanView::Upstream(u@),
        }
    }
}

/// The selection key of a client: its address octets in network order (4 or 16), or none.
pub open spec fn ip_key(ip: Option<IpAddress>) -> Seq<u8> {
    match ip {
        Some(IpAddress::V4(n)) => Seq::new(4, |i: int| ((n >> ((24 - 8 * i) as u32)) & 0xff) as u8),
        Some(IpAddress::V6(n)) => Seq::new(
            16,
            |i: int| ((n >> ((120 - 8 * i) as u128)) & 0xff) as u8,
        ),
        None => seq![],
    }
}

pub open spec fn acme_prefix() -> Seq<char> {
    "/.well-known/acme-challenge/"@
}

/// What a matched location asks for, once the host-level gates have passed.
pub open spec fn location_plan(
    g: GlobalConfig,
    hc: HostConfig,
    l: LocationConfig,
    li: usize,
    path: Seq<char>,
    ip: Option<IpAddress>,
) -> PlanView {
    let lt = match l.location_type {
        Some(t) => t@,
        None => "proxy"@,
    };
    let no_upstream = PlanView::Done(
        ActionView::NoUpstream {
            error_pages_dir: g.error_pages_dir@,
            host_id: Some(hc.id),
            group_id: hc.group_id,
        },
    );
    if lt == "redirect"@ {
        let scheme = match l.forward_scheme {
            Some(s) => s@,
            None => "https"@,
        };
        let domain = match l.forward_domain {
            Some(s) => s@,
            None => ""@,
        };
        let fwd = match l.forward_path {
            Some(s) => s@,
            None => "/"@,
        };
        let status = match l.status_code {
            Some(c) => c,
            None => 301,
        };
        let target = if l.preserve_path {
            path
        } else {
            fwd
        };
        PlanView::Done(
            ActionView::Redirect { status_code: status, location: scheme + "://"@ + domain + target },
        )
    } else if lt == "static"@ {
        match l.static_dir {
            Some(d) => PlanView::Done(
                ActionView::ServeStatic {
                    static_dir: d@,
                    location_path: l.path@,
                    cache_expires: opt_view(l.cache_expires),
                    host_id: Some(hc.id),
                    group_id: hc.group_id,
                    error_pages_dir: g.error_pages_dir@,
                    custom_headers: headers_view(l.headers@),
                },
            ),
            None => no_upstream,
        }
    } else if lt == "file"@ {
        match l.static_dir {
            Some(d) => PlanView::Done(
                ActionView::ServeFile {
                    file_path: d@,
                    cache_expires: opt_view(l.cache_expires),
                    host_id: Some(hc.id),
                    group_id: hc.group_id,
                    error_pages_dir: g.error_pages_dir@,
                    custom_headers: headers_view(l.headers@),
                },
            ),
            None => no_upstream,
        }
    } else {
        PlanView::Upstream(
            UpstreamView {
                host_id: hc.id,
                group_id: hc.group_id,
                location_index: li,
                key: ip_key(ip),
                hsts: hc.hsts,
                custom_headers: headers_view(l.headers@),
                error_pages_dir: g.error_pages_dir@,
            },
        )
    }
}

/// The verdict of the location's access list; a missing list or unknown id admits.
pub open spec fn location_verdict(
    st: SharedState,
    loc: Option<LocationConfig>,
    ip: Option<IpAddress>,
    auth: Option<Seq<char>>,
) -> AccessResult {
    match loc {
        Some(l) => match l.access_list_id {
            Some(id) => if st.access_lists@.contains_key(id) {
                access_verdict(st.access_lists@[id], ip, auth)
            } else {
                AccessResult::Allowed
            },
            None => AccessResult::Allowed,
        },
        None => AccessResult::Allowed,
    }
}

/// Dispatch once the host at position `hi` has matched.
pub open spec fn host_plan(
    st: SharedState,
    hi: int,
    h: Seq<char>,
    path: Seq<char>,
    port: Option<u16>,
    ip: Option<IpAddress>,
    auth: Option<Seq<char>>,
) -> PlanView {
    let g = st.global;
    let hc = st.router.hosts()[hi];
    let cls = st.router.matchers(hi);
    let m = first_match(cls, path);
    let loc = match m {
        Some(k) => Some(hc.locations@[cls[k].index as int]),
        None => None,
    };
    let force = match hc.ssl {
        Some(s) => s.force_https,
        None => false,
    } && port == Some(g.listen.http);
    let verdict = location_verdict(st, loc, ip, auth);
    if force {
        PlanView::Done(ActionView::ForceHttps { location: "https://"@ + h + path })
    } else if verdict == AccessResult::Denied {
        PlanView::Done(
            ActionView::AccessDenied {
                error_pages_dir: g.error_pages_dir@,
                host_id: Some(hc.id),
                group_id: hc.group_id,
            },
        )
    } else if verdict == AccessResult::AuthRequired {
        PlanView::Done(ActionView::AuthRequired)
    } else {
        match m {
            Some(k) => location_plan(g, hc, loc->0, cls[k].index, path, ip),
            None => PlanView::Done(
                ActionView::NoUpstream {
                    error_pages_dir: g.error_pages_dir@,
                    host_id: Some(hc.id),
                    group_id: hc.group_id,
                },
            ),
        }
    }
}

/// The dispatcher's decision for a request, in the order: admin port, ACME challenge,
/// host lookup, force-HTTPS, access list, location type.
pub open spec fn plan_spec(
    st: SharedState,
    host: Option<Seq<char>>,
    path: Seq<char>,
    port: Option<u16>,
    ip: Option<IpAddress>,
    auth: Option<Seq<char>>,
) -> PlanView {
    let g = st.global;
    let acme = acme_prefix();
    let h = match host {
        Some(h) => h,
        None => ""@,
    };
    if port == Some(g.listen.admin) {
        PlanView::Done(
            ActionView::Proxy {
                upstream_addr: g.admin_upstream@,
                host_id: None,
                group_id: None,
                hsts: false,
                custom_headers: seq![],
            },
        )
    } else if path.len() > acme.len() && path.take(acme.len() as int) == acme {
        PlanView::Done(ActionView::AcmeChallenge { token: path.skip(acme.len() as int) })
    } else {
        match st.router.host_for(h) {
            None => PlanView::Done(
                ActionView::ServeDefault {
                    default_page: g.default_page@,
                    error_pages_dir: g.error_pages_dir@,
                },
            ),
            Some(hi) => host_plan(st, hi, h, path, port, ip, auth),
        }
    }
}

/// The action once the selector has answered: proxy to its backend, or no upstream.
pub open spec fn finish_spec(u: UpstreamView, selected: Option<Seq<char>>) -> ActionView {
    match selected {
        Some(a) => ActionView::Proxy {
            upstream_addr: a,
            host_id: Some(u.host_id),
            group_id: u.group_id,
            hsts: u.hsts,
            custom_headers: u.custom_headers,
        },
        None => ActionView::NoUpstream {
            error_pages_dir: u.error_pages_dir,
            host_id: Some(u.host_id),
            group_id: u.group_id,
        },
    }
}

// ---------------------------------------------------------------- executable

fn clone_headers(h: &Vec<(String, String)>) -> (r: Vec<(String, String)>)
    ensures
        headers_view(r@) == headers_view(h@),
{
    let mut out: Vec<(String, String)> = Vec::new();
    for i in 0..h.len()
        invariant
            out@.len() == i,
            headers_view(out@) == headers_view(h@.take(i as int)),
    {
        let ghost old_out = out@;
        let name = h[i].0.clone();
        let value = h[i].1.clone();
        assert(name@ == h@[i as int].0@ && value@ == h@[i as int].1@);
        out.push((name, value));
        assert(h@.take(i + 1) =~= h@.take(i as int).push(h@[i as int]));
        assert(old_out.len() == i);
        assert forall|j: int| 0 <= j < i + 1 implies #[trigger] headers_view(out@)[j] == headers_view(
            h@.take(i + 1),
        )[j] by {
            if j < i {
                assert(out@[j] == old_out[j]);
                assert(headers_view(old_out)[j] == headers_view(h@.take(i as int))[j]);
                assert(h@.take(i + 1)[j] == h@.take(i as int)[j]);
            }
        }
        assert(headers_view(out@) =~= headers_view(h@.take(i + 1)));
    }
    assert(h@.take(h@.len() as int) =~= h@);
    out
}

fn clone_opt(o: &Option<String>) -> (r: Option<String>)
    ensures
        opt_view(r) == opt_view(*o),
{
    match o {
        Some(s) => Some(s.clone()),
        None => None,
    }
}

/// The selection key of a client: its address octets in network order.
pub fn ip_key_of(ip: Option<IpAddress>) -> (r: Vec<u8>)
    ensures
        r@ == ip_key(ip),
{
    let mut out: Vec<u8> = Vec::new();
    match ip {
        Some(IpAddress::V4(n)) => {
            for i in 0..4u32
                invariant
                    out@ =~= Seq::new(i as nat, |j: int| ((n >> ((24 - 8 * j) as u32)) & 0xff) as u8),
            {
                out.push(((n >> (24 - 8 * i)) & 0xff) as u8);
            }
        },
        Some(IpAddress::V6(n)) => {
            for i in 0..16u128
                invariant
                    out@ =~= Seq::new(
                        i as nat,
                        |j: int| ((n >> ((120 - 8 * j) as u128)) & 0xff) as u8,
                    ),
            {
                out.push(((n >> (120 - 8 * i)) & 0xff) as u8);
            }
        },
        None => {},
    }
    out
}

impl SharedState {
    pub open spec fn wf(&self) -> bool {
        self.router.wf()
    }

    /// Builds a snapshot from a loaded configuration.
    pub fn build(config: AppConfig) -> (r: SharedState)
        ensures
            r.wf(),
            r.global == config.global,
            r.access_lists == config.access_lists,
            r.router.hosts() == config.hosts@,
            forall|i: int|
                0 <= i < config.hosts@.len() ==> if (#[trigger] config.hosts@[i]).enabled {
                    compiled_ok(r.router.matchers(i), config.hosts@[i].locations@)
                } else {
                    r.router.matchers(i).len() == 0
                },
    {
        let AppConfig { global, hosts, access_lists } = config;
        SharedState { global, access_lists, router: Router::build(hosts) }
    }

    fn location_plan_of(
        &self,
        hc: &HostConfig,
        l: &LocationConfig,
        li: usize,
        path: &str,
        client_ip: Option<IpAddress>,
    ) -> (r: Plan)
        ensures
            r@ == location_plan(self.global, *hc, *l, li, path@, client_ip),
    {
        let g = &self.global;
        let lt: &str = match &l.location_type {
            Some(t) => t.as_str(),
            None => "proxy",
        };
        if same_text(lt, "redirect") {
            let scheme: &str = match &l.forward_scheme {
                Some(s) => s.as_str(),
                None => "https",
            };
            let domain: &str = match &l.forward_domain {
                Some(s) => s.as_str(),
                None => "",
            };
            let fwd: &str = match &l.forward_path {
                Some(s) => s.as_str(),
                None => "/",
            };
            let status = match l.status_code {
                Some(c) => c,
                None => 301,
            };
            let target = if l.preserve_path {
                path
            } else {
                fwd
            };
            let location = String::from_str(scheme).concat("://").concat(domain).concat(target);
            return Plan::Done(RequestAction::Redirect { status_code: status, location });
        }
        let is_static = same_text(lt, "static");
        let is_file = same_text(lt, "file");
        if is_static || is_file {
            match &l.static_dir {
                Some(d) => {
                    if is_static {
                        Plan::Done(
                            RequestAction::ServeStatic {
                                static_dir: d.clone(),
                                location_path: l.path.clone(),
                                cache_expires: clone_opt(&l.cache_expires),
                                host_id: Some(hc.id),
                                group_id: hc.group_id,
                                error_pages_dir: g.error_pages_dir.clone(),
                                custom_headers: clone_headers(&l.headers),
                            },
                        )
                    } else {
                        Plan::Done(
                            RequestAction::ServeFile {
                                file_path: d.clone(),
                                cache_expires: clone_opt(&l.cache_expires),
                                host_id: Some(hc.id),
                                group_id: hc.group_id,
                                error_pages_dir: g.error_pages_dir.clone(),
                                custom_headers: clone_headers(&l.headers),
                            },
                        )
                    }
                },
                None => Plan::Done(
                    RequestAction::NoUpstream {
                        error_pages_dir: g.error_pages_dir.clone(),
                        host_id: Some(hc.id),
                        group_id: hc.group_id,
                    },
                ),
            }
        } else {
            Plan::Upstream(
                UpstreamRequest {
                    host_id: hc.id,
                    group_id: hc.group_id,
                    location_index: li,
                    key: ip_key_of(client_ip),
                    hsts: hc.hsts,
                    custom_headers: clone_headers(&l.headers),
                    error_pages_dir: g.error_pages_dir.clone(),
                },
            )
        }
    }

    /// Decides what to do with a request. A proxied request comes back as
    /// `Plan::Upstream`, to be completed with the location selector's answer by
    /// `finish_upstream`.
    pub fn plan_request(
        &self,
        host_header: Option<&str>,
        path: &str,
        server_port: Option<u16>,
        client_ip: Option<IpAddress>,
        auth_header: Option<&str>,
    ) -> (r: Plan)
        requires
            self.wf(),
        ensures
            r@ == plan_spec(
                *self,
                opt_text(host_header),
                path@,
                server_port,
                client_ip,
                opt_text(auth_header),
            ),
    {
        let g = &self.global;
        if let Some(port) = server_port {
            if port == g.listen.admin {
                let r = Plan::Done(
                    RequestAction::Proxy {
                        upstream_addr: g.admin_upstream.clone(),
                        host_id: None,
                        group_id: None,
                        hsts: false,
                        custom_headers: Vec::new(),
                    },
                );
                assert(headers_view(Seq::<(String, String)>::empty()) =~= seq![]);
                return r;
            }
        }
        let pv = chars_of(path);
        let acme = chars_of("/.well-known/acme-challenge/");
        if pv.len() > acme.len() {
            assert(pv@.take(acme@.len() as int) =~= pv@.subrange(0, acme@.len() as int));
            if chars_eq_at(&pv, 0, acme.len(), &acme) {
                let token = path.substring_char(acme.len(), pv.len());
                assert(token@ =~= path@.skip(acme@.len() as int));
                return Plan::Done(RequestAction::AcmeChallenge { token: String::from_str(token) });
            }
        }
        let host_str: &str = match host_header {
            Some(h) => h,
            None => "",
        };
        let (hc, loc, idx) = match self.router.resolve(host_str, path) {
            None => {
                return Plan::Done(
                    RequestAction::ServeDefault {
                        default_page: g.default_page.clone(),
                        error_pages_dir: g.error_pages_dir.clone(),
                    },
                );
            },
            Some(t) => t,
        };
        let force = match &hc.ssl {
            Some(ssl) => ssl.force_https,
            None => false,
        };
        if force && server_port == Some(g.listen.http) {
            let location = String::from_str("https://").concat(host_str).concat(path);
            return Plan::Done(RequestAction::ForceHttps { location });
        }
        let verdict = match loc {
            Some(l) => match l.access_list_id {
                Some(id) => match self.access_lists.get(&id) {
                    Some(acl) => check_access(acl, client_ip.as_ref(), auth_header),
                    None => AccessResult::Allowed,
                },
                None => AccessResult::Allowed,
            },
            None => AccessResult::Allowed,
        };
        match verdict {
            AccessResult::Denied => {
                return Plan::Done(
                    RequestAction::AccessDenied {
                        error_pages_dir: g.error_pages_dir.clone(),
                        host_id: Some(hc.id),
                        group_id: hc.group_id,
                    },
                );
            },
            AccessResult::AuthRequired => {
                return Plan::Done(RequestAction::AuthRequired);
            },
            AccessResult::Allowed => {},
        }
        match (loc, idx) {
            (Some(l), Some(li)) => self.location_plan_of(hc, l, li, path, client_ip),
            _ => Plan::Done(
                RequestAction::NoUpstream {
                    error_pages_dir: g.error_pages_dir.clone(),
                    host_id: Some(hc.id),
                    group_id: hc.group_id,
                },
            ),
        }
    }
}

/// Status of a response written when a served file cannot be found.
pub const NOT_FOUND_STATUS: u16 = 404;

/// The status an action answers with when no file decides it: the redirect's own code, 301
/// for a force-HTTPS redirect, 403 for a denial, 401 for missing credentials and 502 when
/// no upstream is available. Proxied requests and file-backed answers have none here.
pub fn response_status(a: &RequestAction) -> (r: Option<u16>)
    ensures
        r == match a@ {
            ActionView::Redirect { status_code, .. } => Some(status_code),
            ActionView::ForceHttps { .. } => Some(301u16),
            ActionView::AccessDenied { .. } => Some(403u16),
            ActionView::AuthRequired => Some(401u16),
            ActionView::NoUpstream { .. } => Some(502u16),
            _ => None,
        },
{
    match a {
        RequestAction::Redirect { status_code, .. } => Some(*status_code),
        RequestAction::ForceHttps { .. } => Some(301),
        RequestAction::AccessDenied { .. } => Some(403),
        RequestAction::AuthRequired => Some(401),
        RequestAction::NoUpstream { .. } => Some(502),
        _ => None,
    }
}

/// Completes a proxied request with the selector's answer: proxy to the chosen backend's
/// address, or report that no upstream is available.
pub fn finish_upstream(u: UpstreamRequest, selected: Option<String>) -> (r: RequestAction)
    ensures
        r@ == finish_spec(u@, opt_view(selected)),
{
    match selected {
        Some(addr) => RequestAction::Proxy {
            upstream_addr: addr,
            host_id: Some(u.host_id),
            group_id: u.group_id,
            hsts: u.hsts,
            custom_headers: u.custom_headers,
        },
        None => RequestAction::NoUpstream {
            error_pages_dir: u.error_pages_dir,
            host_id: Some(u.host_id),
            group_id: u.group_id,
        },
    }
}

// ---------------------------------------------------------------- laws

/// A request that arrives on the admin port is proxied to the admin upstream, whatever its
/// host, path, client address or credentials.
pub proof fn admin_port_proxies(
    st: SharedState,
    host: Option<Seq<char>>,
    path: Seq<char>,
    ip: Option<IpAddress>,
    auth: Option<Seq<char>>,
)
    ensures
        plan_spec(st, host, path, Some(st.global.listen.admin), ip, auth) == PlanView::Done(
            ActionView::Proxy {
                upstream_addr: st.global.admin_upstream@,
                host_id: None,
                group_id: None,
                hsts: false,
                custom_headers: seq![],
            },
        ),
{
}

/// A missing or empty Host header gets the default page, off the admin port and outside
/// the ACME path, as long as no host claims the empty domain.
pub proof fn empty_host_serves_default(
    st: SharedState,
    path: Seq<char>,
    port: Option<u16>,
    ip: Option<IpAddress>,
    auth: Option<Seq<char>>,
)
    requires
        port != Some(st.global.listen.admin),
        !(path.len() > acme_prefix().len() && path.take(acme_prefix().len() as int)
            == acme_prefix()),
        st.router.host_for(""@) is None,
    ensures
        plan_spec(st, Some(""@), path, port, ip, auth) == PlanView::Done(
            ActionView::ServeDefault {
                default_page: st.global.default_page@,
                error_pages_dir: st.global.error_pages_dir@,
            },
        ),
        plan_spec(st, None, path, port, ip, auth) == plan_spec(st, Some(""@), path, port, ip, auth),
{
}

/// The ACME prefix with an empty token is no challenge: the request goes on to routing.
/// With a token, off the admin port, the token is served.
pub proof fn acme_needs_token(
    st: SharedState,
    host: Option<Seq<char>>,
    token: Seq<char>,
    port: Option<u16>,
    ip: Option<IpAddress>,
    auth: Option<Seq<char>>,
)
    requires
        port != Some(st.global.listen.admin),
    ensures
        match plan_spec(st, host, acme_prefix(), port, ip, auth) {
            PlanView::Done(ActionView::AcmeChallenge { .. }) => false,
            _ => true,
        },
        token.len() > 0 ==> plan_spec(st, host, acme_prefix() + token, port, ip, auth)
            == PlanView::Done(ActionView::AcmeChallenge { token }),
{
    let a = acme_prefix();
    assert((a + token).take(a.len() as int) =~= a);
    assert((a + token).skip(a.len() as int) =~= token);
}

/// A proxied request hands the location's selector the client's address octets as key, so
/// requests from one client to one location always give the selector the same input.
pub proof fn selection_input_is_the_client(
    st: SharedState,
    host: Option<Seq<char>>,
    path: Seq<char>,
    port: Option<u16>,
    ip: Option<IpAddress>,
    auth: Option<Seq<char>>,
)
    ensures
        match plan_spec(st, host, path, port, ip, auth) {
            PlanView::Upstream(u) => u.key == ip_key(ip),
            _ => true,
        },
{
}

} // verus!
