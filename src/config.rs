//! In-memory configuration schema: global settings, hosts, locations, upstreams, stream
//! ports and access lists, with the defaults that apply to missing fields.
use vstd::prelude::*;
use vstd::string::*;
use std::collections::HashMap;
use crate::access::ParsedCidr;

verus! {

/// Global proxy settings.
#[derive(Debug, Clone)]
pub struct GlobalConfig {
    pub listen: ListenConfig,
    pub admin_upstream: String,
    pub default_page: String,
    pub error_pages_dir: String,
    pub logs_dir: String,
    pub ssl_dir: String,
}

/// Listening ports of the HTTP, HTTPS and admin services.
#[derive(Debug, Clone, Copy)]
pub struct ListenConfig {
    pub http: u16,
    pub https: u16,
    pub admin: u16,
}

/// One virtual host: its domains, TLS settings and ordered locations.
#[derive(Debug, Clone)]
pub struct HostConfig {
    pub id: u64,
    pub domains: Vec<String>,
    pub group_id: Option<u64>,
    pub ssl: Option<SslConfig>,
    pub locations: Vec<LocationConfig>,
    pub stream_ports: Vec<StreamPortConfig>,
    pub hsts: bool,
    pub http2: bool,
    pub enabled: bool,
    pub redirect_www: bool,
    pub compression: bool,
}

/// TLS settings of a host; `ssl_type` is `none`, `letsencrypt` or `custom`.
#[derive(Debug, Clone)]
pub struct SslConfig {
    pub ssl_type: String,
    pub force_https: bool,
    pub cert_path: Option<String>,
    pub key_path: Option<String>,
}

/// A backend server of a location or stream port.
#[derive(Debug, Clone)]
pub struct UpstreamConfig {
    pub server: String,
    pub port: u16,
    pub weight: usize,
}

/// A route inside a host: a path matcher, a type and the target it serves.
#[derive(Debug, Clone)]
pub struct LocationConfig {
    pub path: String,
    pub match_type: String,
    pub location_type: Option<String>,
    pub upstreams: Vec<UpstreamConfig>,
    pub balance_method: String,
    pub static_dir: Option<String>,
    pub cache_expires: Option<String>,
    pub forward_scheme: Option<String>,
    pub forward_domain: Option<String>,
    pub forward_path: Option<String>,
    pub preserve_path: bool,
    pub status_code: Option<u16>,
    pub headers: Vec<(String, String)>,
    pub access_list_id: Option<u64>,
}

/// A TCP (or UDP) port forwarded to upstreams.
#[derive(Debug, Clone)]
pub struct StreamPortConfig {
    pub port: u16,
    pub protocol: String,
    pub upstreams: Vec<UpstreamConfig>,
    pub balance_method: String,
}

/// An access list: client rules, basic-auth entries and how the two combine.
#[derive(Debug, Clone)]
pub struct AccessListConfig {
    pub id: u64,
    pub name: String,
    pub satisfy: String,
    pub clients: Vec<AccessListClient>,
    pub auth: Vec<AccessListAuthEntry>,
}

/// A client rule: an address (CIDR, single IP or `all`) and `allow` or `deny`.
#[derive(Debug, Clone)]
pub struct AccessListClient {
    pub address: String,
    pub directive: String,
    pub parsed_cidr: Option<ParsedCidr>,
}

/// A basic-auth credential.
#[derive(Debug, Clone)]
pub struct AccessListAuthEntry {
    pub username: String,
    pub password: String,
}

/// The whole configuration: global settings, hosts, and access lists by id.
#[derive(Debug, Clone)]
pub struct AppConfig {
    pub global: GlobalConfig,
    pub hosts: Vec<HostConfig>,
    pub access_lists: HashMap<u64, AccessListConfig>,
}

/// Header pairs as character sequences.
pub open spec fn headers_view(h: Seq<(String, String)>) -> Seq<(Seq<char>, Seq<char>)> {
    h.map_values(|p: (String, String)| (p.0@, p.1@))
}

pub fn default_page() -> (r: String)
    ensures
        r@ == "/data/default-page/index.html"@,
{
    String::from_str("/data/default-page/index.html")
}

pub fn error_pages_dir() -> (r: String)
    ensures
        r@ == "/data/error-pages"@,
{
    String::from_str("/data/error-pages")
}

pub fn logs_dir() -> (r: String)
    ensures
        r@ == "/data/logs"@,
{
    String::from_str("/data/logs")
}

pub fn ssl_dir() -> (r: String)
    ensures
        r@ == "/etc/letsencrypt"@,
{
    String::from_str("/etc/letsencrypt")
}

pub fn default_http_port() -> (r: u16)
    ensures
        r == 80,
{
    80
}

pub fn default_https_port() -> (r: u16)
    ensures
        r == 443,
{
    443
}

pub fn default_admin_port() -> (r: u16)
    ensures
        r == 81,
{
    81
}

pub fn default_balance_method() -> (r: String)
    ensures
        r@ == "round_robin"@,
{
    String::from_str("round_robin")
}

pub fn default_enabled() -> (r: bool)
    ensures
        r,
{
    true
}

pub fn default_ssl_type() -> (r: String)
    ensures
        r@ == "none"@,
{
    String::from_str("none")
}

pub fn default_weight() -> (r: usize)
    ensures
        r == 1,
{
    1
}

pub fn default_match_type() -> (r: String)
    ensures
        r@ == "prefix"@,
{
    String::from_str("prefix")
}

pub fn default_location_type() -> (r: Option<String>)
    ensures
        r is Some && r->0@ == "proxy"@,
{
    Some(String::from_str("proxy"))
}

pub fn default_stream_protocol() -> (r: String)
    ensures
        r@ == "tcp"@,
{
    String::from_str("tcp")
}

pub fn default_satisfy() -> (r: String)
    ensures
        r@ == "any"@,
{
    String::from_str("any")
}

pub fn default_directive() -> (r: String)
    ensures
        r@ == "allow"@,
{
    String::from_str("allow")
}

impl AppConfig {
    /// Replaces the configuration with a freshly loaded one; a failed load leaves it as it was
    /// and hands the error back.
    pub fn reload(&mut self, loaded: Result<AppConfig, String>) -> (r: Result<(), String>)
        ensures
            match loaded {
                Ok(c) => r is Ok && *final(self) == c,
                Err(e) => r == Err::<(), String>(e) && *final(self) == *old(self),
            },
    {
        match loaded {
            Ok(c) => {
                *self = c;
                Ok(())
            },
            Err(e) => Err(e),
        }
    }
}

} // verus!
