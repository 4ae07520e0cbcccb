//! Routing table: domain lookup and, per host, location matchers in specificity order.
use vstd::prelude::*;
use vstd::string::*;
use crate::config::{HostConfig, LocationConfig};
use crate::text::{ascii_lower, ascii_lower_of, chars_of};
use crate::access::{chars_eq_at, find_char, index_of, same_text};

verus! {

#[verifier::external_type_specification]
#[verifier::external_body]
pub struct ExRegex(regex::Regex);

/// Whether the `regex` crate accepts `pattern` (`Regex::new` succeeds).
pub uninterp spec fn regex_compiles(pattern: Seq<char>) -> bool;

/// Whether a regex compiled from `pattern` matches somewhere in `text` (`Regex::is_match`).
pub uninterp spec fn regex_accepts(pattern: Seq<char>, text: Seq<char>) -> bool;

/// A compiled path regex together with the pattern it was compiled from.
pub struct PathRegex {
    re: regex::Regex,
    pattern: String,
}

impl PathRegex {
    pub closed spec fn pattern(&self) -> Seq<char> {
        self.pattern@
    }
}

/// Relies on `regex::Regex::new`: it fails exactly on patterns the crate rejects.
#[verifier::external_body]
fn compile_regex(pattern: &str) -> (r: Option<PathRegex>)
    ensures
        r is Some <==> regex_compiles(pattern@),
        r is Some ==> r->0.pattern() == pattern@,
{
    match regex::Regex::new(pattern) {
        Ok(re) => Some(PathRegex { re, pattern: pattern.to_string() }),
        Err(_) => None,
    }
}

/// Relies on `regex::Regex::is_match`: whether the compiled pattern matches anywhere in `text`.
#[verifier::external_body]
fn regex_is_match(re: &PathRegex, text: &str) -> (r: bool)
    ensures
        r == regex_accepts(re.pattern(), text@),
{
    re.re.is_match(text)
}

/// How a compiled location matches a request path.
pub enum MatchType {
    Prefix(String),
    Exact(String),
    Regex(PathRegex),
}

/// A location matcher and the position of its location in the host's list.
pub struct CompiledLocation {
    pub index: usize,
    pub match_type: MatchType,
}

/// A domain key and the position of the host it routes to.
pub struct DomainEntry {
    pub key: Vec<char>,
    pub host: usize,
}

/// Routes a request's host and path to a host and one of its locations.
pub struct Router {
    hosts: Vec<HostConfig>,
    entries: Vec<DomainEntry>,
    compiled: Vec<Vec<CompiledLocation>>,
}

// ---------------------------------------------------------------- model

/// Sort class of a location: exact 0, prefix 1 (the default), regex 2.
pub open spec fn loc_class(l: LocationConfig) -> int {
    if l.match_type@ == "exact"@ {
        0
    } else if l.match_type@ == "regex"@ {
        2
    } else {
        1
    }
}

/// Whether a location yields a matcher: all do but regexes that do not compile.
pub open spec fn loc_compiles(l: LocationConfig) -> bool {
    loc_class(l) != 2 || regex_compiles(l.path@)
}

/// Specificity order: exact before prefix before regex; among exact and among prefix
/// matchers the longer path first; otherwise configuration order.
pub open spec fn precedes(locs: Seq<LocationConfig>, a: int, b: int) -> bool {
    let ca = loc_class(locs[a]);
    let cb = loc_class(locs[b]);
    let la = locs[a].path@.len();
    let lb = locs[b].path@.len();
    ca < cb || (ca == cb && ((ca != 2 && la > lb) || ((ca == 2 || la == lb) && a < b)))
}

/// A matcher stands for its location with the location's path and match kind.
pub open spec fn compiled_for(cl: CompiledLocation, l: LocationConfig) -> bool {
    match cl.match_type {
        MatchType::Exact(p) => loc_class(l) == 0 && p@ == l.path@,
        MatchType::Prefix(p) => loc_class(l) == 1 && p@ == l.path@,
        MatchType::Regex(re) => loc_class(l) == 2 && re.pattern() == l.path@,
    }
}

/// The matchers of a host: one per location that compiles, in specificity order.
pub open spec fn compiled_ok(cls: Seq<CompiledLocation>, locs: Seq<LocationConfig>) -> bool {
    &&& forall|k: int|
        0 <= k < cls.len() ==> (#[trigger] cls[k]).index < locs.len() && compiled_for(
            cls[k],
            locs[cls[k].index as int],
        )
    &&& forall|k1: int, k2: int|
        0 <= k1 < k2 < cls.len() ==> precedes(
            locs,
            (#[trigger] cls[k1]).index as int,
            (#[trigger] cls[k2]).index as int,
        )
    &&& forall|i: int|
        0 <= i < locs.len() ==> (loc_compiles(#[trigger] locs[i]) <==> exists|k: int|
            0 <= k < cls.len() && (#[trigger] cls[k]).index == i)
}

pub open spec fn path_matches(cl: CompiledLocation, path: Seq<char>) -> bool {
    match cl.match_type {
        MatchType::Exact(p) => path == p@,
        MatchType::Prefix(p) => p@.len() <= path.len() && path.take(p@.len() as int) == p@,
        MatchType::Regex(re) => regex_accepts(re.pattern(), path),
    }
}

/// Position among `cls` of the first matcher that matches `path`.
pub open spec fn first_match(cls: Seq<CompiledLocation>, path: Seq<char>) -> Option<int>
    decreases cls.len(),
{
    if cls.len() == 0 {
        None
    } else if path_matches(cls[0], path) {
        Some(0)
    } else {
        match first_match(cls.drop_first(), path) {
            Some(k) => Some(k + 1),
            None => None,
        }
    }
}

/// The domain keys a host contributes for one configured domain: the lowered domain, and
/// with `redirect_www` its `www.` form unless it already starts so.
pub open spec fn keys_for(h: HostConfig, d: Seq<char>) -> Seq<Seq<char>> {
    let k = ascii_lower(d);
    if h.redirect_www && !(k.len() >= 4 && k.take(4) == "www."@) {
        seq![k, "www."@ + k]
    } else {
        seq![k]
    }
}

pub open spec fn keys_of_domains(h: HostConfig, ds: Seq<String>) -> Seq<Seq<char>>
    decreases ds.len(),
{
    if ds.len() == 0 {
        seq![]
    } else {
        keys_of_domains(h, ds.drop_last()) + keys_for(h, ds.last()@)
    }
}

/// Every (key, host position) insertion, in configuration order; disabled hosts add none.
pub open spec fn domain_inserts(hosts: Seq<HostConfig>) -> Seq<(Seq<char>, int)>
    decreases hosts.len(),
{
    if hosts.len() == 0 {
        seq![]
    } else {
        let i = hosts.len() - 1;
        let h = hosts.last();
        domain_inserts(hosts.drop_last()) + if h.enabled {
            keys_of_domains(h, h.domains@).map_values(|k: Seq<char>| (k, i))
        } else {
            seq![]
        }
    }
}

/// The host that the last insertion of `key` names.
pub open spec fn lookup(ins: Seq<(Seq<char>, int)>, key: Seq<char>) -> Option<int>
    decreases ins.len(),
{
    if ins.len() == 0 {
        None
    } else if ins.last().0 == key {
        Some(ins.last().1)
    } else {
        lookup(ins.drop_last(), key)
    }
}

/// A Host header reduced to its lookup key: cut at the first `:`, ASCII lowered.
pub open spec fn host_key(host: Seq<char>) -> Seq<char> {
    ascii_lower(host.take(index_of(host, ':')))
}

pub open spec fn entries_model(es: Seq<DomainEntry>, ins: Seq<(Seq<char>, int)>) -> bool {
    es.len() == ins.len() && forall|k: int|
        0 <= k < es.len() ==> (#[trigger] es[k]).key@ == ins[k].0 && es[k].host == ins[k].1
}

impl Router {
    pub closed spec fn hosts(&self) -> Seq<HostConfig> {
        self.hosts@
    }

    pub closed spec fn matchers(&self, i: int) -> Seq<CompiledLocation> {
        self.compiled@[i]@
    }

    /// The table is the one `build` made from its hosts.
    pub closed spec fn wf(&self) -> bool {
        &&& entries_model(self.entries@, domain_inserts(self.hosts@))
        &&& self.compiled@.len() == self.hosts@.len()
        &&& forall|i: int|
            0 <= i < self.hosts@.len() ==> compiled_ok(
                (#[trigger] self.compiled@[i])@,
                self.hosts@[i].locations@,
            ) || (!self.hosts@[i].enabled && self.compiled@[i]@.len() == 0)
        &&& forall|k: int|
            0 <= k < self.entries@.len() ==> (#[trigger] self.entries@[k]).host
                < self.hosts@.len()
    }

    /// The host a Host header routes to, by position.
    pub open spec fn host_for(&self, host: Seq<char>) -> Option<int> {
        lookup(domain_inserts(self.hosts()), host_key(host))
    }
}

// ---------------------------------------------------------------- executable

/// The characters of `s` with ASCII letters lowered.
pub fn lower_chars(s: &str) -> (r: Vec<char>)
    ensures
        r@ == ascii_lower(s@),
{
    let v = chars_of(s);
    let mut out: Vec<char> = Vec::new();
    for i in 0..v.len()
        invariant
            v@ == s@,
            out@ == v@.take(i as int).map_values(|c: char| crate::text::ascii_lower_char(c)),
    {
        out.push(ascii_lower_of(v[i]));
        assert(v@.take(i + 1).map_values(|c: char| crate::text::ascii_lower_char(c))
            =~= v@.take(i as int).map_values(|c: char| crate::text::ascii_lower_char(c)).push(
            crate::text::ascii_lower_char(v@[i as int]),
        ));
    }
    assert(v@.take(v@.len() as int) =~= v@);
    out
}

/// `a` followed by `b`.
pub fn concat_chars(a: &Vec<char>, b: &Vec<char>) -> (r: Vec<char>)
    ensures
        r@ == a@ + b@,
{
    let mut out: Vec<char> = Vec::new();
    for i in 0..a.len()
        invariant
            out@ == a@.take(i as int),
    {
        out.push(a[i]);
        assert(a@.take(i + 1) =~= a@.take(i as int).push(a@[i as int]));
    }
    for i in 0..b.len()
        invariant
            out@ == a@ + b@.take(i as int),
    {
        out.push(b[i]);
        assert(a@ + b@.take(i + 1) =~= (a@ + b@.take(i as int)).push(b@[i as int]));
    }
    assert(a@.take(a@.len() as int) =~= a@);
    assert(b@.take(b@.len() as int) =~= b@);
    out
}

fn class_of(l: &LocationConfig) -> (r: u8)
    ensures
        r as int == loc_class(*l),
{
    if same_text(l.match_type.as_str(), "exact") {
        0
    } else if same_text(l.match_type.as_str(), "regex") {
        2
    } else {
        1
    }
}

proof fn lemma_precedes_order(locs: Seq<LocationConfig>, a: int, b: int, c: int)
    ensures
        a != b ==> (precedes(locs, a, b) || precedes(locs, b, a)),
        !precedes(locs, a, a),
        precedes(locs, a, b) && precedes(locs, b, c) ==> precedes(locs, a, c),
{
}

fn goes_before(
    locs: &Vec<LocationConfig>,
    classes: &Vec<u8>,
    lens: &Vec<usize>,
    a: usize,
    b: usize,
) -> (r: bool)
    requires
        classes@.len() == locs@.len(),
        lens@.len() == locs@.len(),
        a < locs@.len(),
        b < locs@.len(),
        forall|j: int|
            0 <= j < locs@.len() ==> classes@[j] as int == loc_class(#[trigger] locs@[j]),
        forall|j: int|
            0 <= j < locs@.len() ==> lens@[j] as int == (#[trigger] locs@[j]).path@.len(),
    ensures
        r == precedes(locs@, a as int, b as int),
{
    let ca = classes[a];
    let cb = classes[b];
    let la = lens[a];
    let lb = lens[b];
    assert(ca as int == loc_class(locs@[a as int]));
    assert(cb as int == loc_class(locs@[b as int]));
    assert(la as int == locs@[a as int].path@.len());
    assert(lb as int == locs@[b as int].path@.len());
    ca < cb || (ca == cb && ((ca != 2 && la > lb) || ((ca == 2 || la == lb) && a < b)))
}

/// Matchers for a host's locations: one per location that compiles, in specificity order.
pub fn compile_locations(locs: &Vec<LocationConfig>) -> (r: Vec<CompiledLocation>)
    ensures
        compiled_ok(r@, locs@),
{
    let n = locs.len();
    let mut classes: Vec<u8> = Vec::new();
    let mut lens: Vec<usize> = Vec::new();
    for i in 0..n
        invariant
            n == locs@.len(),
            classes@.len() == i,
            lens@.len() == i,
            forall|j: int| 0 <= j < i ==> classes@[j] as int == loc_class(#[trigger] locs@[j]),
            forall|j: int| 0 <= j < i ==> lens@[j] as int == (#[trigger] locs@[j]).path@.len(),
    {
        classes.push(class_of(&locs[i]));
        lens.push(locs[i].path.unicode_len());
    }
    let mut out: Vec<CompiledLocation> = Vec::new();
    for i in 0..n
        invariant
            n == locs@.len(),
            classes@.len() == n,
            lens@.len() == n,
            forall|j: int| 0 <= j < n ==> classes@[j] as int == loc_class(#[trigger] locs@[j]),
            forall|j: int| 0 <= j < n ==> lens@[j] as int == (#[trigger] locs@[j]).path@.len(),
            forall|k: int|
                0 <= k < out@.len() ==> (#[trigger] out@[k]).index < i && compiled_for(
                    out@[k],
                    locs@[out@[k].index as int],
                ),
            forall|k1: int, k2: int|
                0 <= k1 < k2 < out@.len() ==> precedes(
                    locs@,
                    (#[trigger] out@[k1]).index as int,
                    (#[trigger] out@[k2]).index as int,
                ),
            forall|j: int|
                0 <= j < i ==> (loc_compiles(#[trigger] locs@[j]) <==> exists|k: int|
                    0 <= k < out@.len() && (#[trigger] out@[k]).index == j),
    {
        let c = classes[i];
        let mt: Option<MatchType> = if c == 0 {
            Some(MatchType::Exact(locs[i].path.clone()))
        } else if c == 1 {
            Some(MatchType::Prefix(locs[i].path.clone()))
        } else {
            match compile_regex(locs[i].path.as_str()) {
                Some(re) => Some(MatchType::Regex(re)),
                None => None,
            }
        };
        match mt {
            None => {
                assert(!loc_compiles(locs@[i as int]));
                assert forall|j: int| 0 <= j < i + 1 implies (loc_compiles(
                    #[trigger] locs@[j],
                ) <==> exists|k: int| 0 <= k < out@.len() && (#[trigger] out@[k]).index == j) by {
                    if j == i {
                        assert forall|k: int| 0 <= k < out@.len() implies (
                        #[trigger] out@[k]).index != j by {}
                    }
                }
            },
            Some(mt) => {
                let ghost old_out = out@;
                let mut p: usize = 0;
                while p < out.len() && !goes_before(locs, &classes, &lens, i, out[p].index)
                    invariant
                        out@ == old_out,
                        p <= out@.len(),
                        n == locs@.len(),
                        i < n,
                        classes@.len() == n,
                        lens@.len() == n,
                        c as int == loc_class(locs@[i as int]),
                        forall|j: int|
                            0 <= j < n ==> classes@[j] as int == loc_class(#[trigger] locs@[j]),
                        forall|j: int|
                            0 <= j < n ==> lens@[j] as int == (#[trigger] locs@[j]).path@.len(),
                        forall|k: int| 0 <= k < out@.len() ==> (#[trigger] out@[k]).index < i,
                        forall|k: int|
                            0 <= k < p ==> precedes(locs@, (#[trigger] out@[k]).index as int, i as int),
                    decreases out@.len() - p,
                {
                    proof {
                        lemma_precedes_order(locs@, i as int, out@[p as int].index as int, 0);
                    }
                    p = p + 1;
                }
                let ghost x = CompiledLocation { index: i, match_type: mt };
                out.insert(p, CompiledLocation { index: i, match_type: mt });
                assert(out@ == old_out.insert(p as int, x));
                assert(p < old_out.len() ==> precedes(locs@, i as int, old_out[p as int].index as int));
                assert forall|k1: int, k2: int|
                    0 <= k1 < k2 < out@.len() implies precedes(
                    locs@,
                    (#[trigger] out@[k1]).index as int,
                    (#[trigger] out@[k2]).index as int,
                ) by {
                    if k1 == p as int {
                        if k2 > p + 1 {
                            lemma_precedes_order(
                                locs@,
                                i as int,
                                old_out[p as int].index as int,
                                old_out[k2 - 1].index as int,
                            );
                        }
                    }
                }
                assert forall|j: int| 0 <= j < i + 1 implies (loc_compiles(
                    #[trigger] locs@[j],
                ) <==> exists|k: int| 0 <= k < out@.len() && (#[trigger] out@[k]).index == j) by {
                    if j == i {
                        assert(out@[p as int].index == j);
                    } else {
                        if loc_compiles(locs@[j]) {
                            let k = choose|k: int| 0 <= k < old_out.len() && (#[trigger] old_out[k]).index == j;
                            if k < p {
                                assert(out@[k].index == j);
                            } else {
                                assert(out@[k + 1].index == j);
                            }
                        } else {
                            assert forall|k: int| 0 <= k < out@.len() implies (
                            #[trigger] out@[k]).index != j by {
                                if k < p {
                                    assert(out@[k] == old_out[k]);
                                } else if k > p {
                                    assert(out@[k] == old_out[k - 1]);
                                }
                            }
                        }
                    }
                }
            },
        }
    }
    out
}

proof fn lemma_first_match(cls: Seq<CompiledLocation>, path: Seq<char>, k: int)
    requires
        0 <= k <= cls.len(),
        forall|j: int| 0 <= j < k ==> !path_matches(#[trigger] cls[j], path),
    ensures
        k < cls.len() && path_matches(cls[k], path) ==> first_match(cls, path) == Some(k),
        k == cls.len() ==> first_match(cls, path) is None,
    decreases k,
{
    if k > 0 {
        let rest = cls.drop_first();
        assert forall|j: int| 0 <= j < k - 1 implies !path_matches(#[trigger] rest[j], path) by {
            assert(rest[j] == cls[j + 1]);
        }
        lemma_first_match(rest, path, k - 1);
    }
}

/// Position of the first matcher of `cls` that matches `path`.
pub fn match_location(cls: &Vec<CompiledLocation>, path: &str) -> (r: Option<usize>)
    ensures
        match first_match(cls@, path@) {
            Some(k) => r is Some && r->0 as int == k && k < cls@.len(),
            None => r is None,
        },
{
    let pv = chars_of(path);
    let mut k: usize = 0;
    while k < cls.len()
        invariant
            pv@ == path@,
            k <= cls@.len(),
            forall|j: int| 0 <= j < k ==> !path_matches(#[trigger] cls@[j], path@),
        decreases cls.len() - k,
    {
        let matched = match &cls[k].match_type {
            MatchType::Exact(p) => same_text(path, p.as_str()),
            MatchType::Prefix(p) => {
                let q = chars_of(p.as_str());
                if q.len() <= pv.len() {
                    assert(pv@.take(q@.len() as int) =~= pv@.subrange(0, q@.len() as int));
                    chars_eq_at(&pv, 0, q.len(), &q)
                } else {
                    false
                }
            },
            MatchType::Regex(re) => regex_is_match(re, path),
        };
        if matched {
            proof {
                lemma_first_match(cls@, path@, k as int);
            }
            return Some(k);
        }
        k = k + 1;
    }
    proof {
        lemma_first_match(cls@, path@, k as int);
    }
    None
}

impl Router {
    /// Builds the routing table: every domain of every enabled host (lowered, plus its
    /// `www.` form under `redirect_www`) keyed to that host, the last host naming a domain
    /// winning, and each enabled host's locations compiled in specificity order.
    pub fn build(hosts: Vec<HostConfig>) -> (r: Router)
        ensures
            r.wf(),
            r.hosts() == hosts@,
            forall|i: int|
                0 <= i < hosts@.len() ==> if (#[trigger] hosts@[i]).enabled {
                    compiled_ok(r.matchers(i), hosts@[i].locations@)
                } else {
                    r.matchers(i).len() == 0
                },
    {
        let mut entries: Vec<DomainEntry> = Vec::new();
        let mut compiled: Vec<Vec<CompiledLocation>> = Vec::new();
        let www = chars_of("www.");
        for i in 0..hosts.len()
            invariant
                www@ == "www."@,
                entries_model(entries@, domain_inserts(hosts@.take(i as int))),
                compiled@.len() == i,
                forall|j: int|
                    0 <= j < i ==> if hosts@[j].enabled {
                        compiled_ok((#[trigger] compiled@[j])@, hosts@[j].locations@)
                    } else {
                        compiled@[j]@.len() == 0
                    },
                forall|k: int| 0 <= k < entries@.len() ==> (#[trigger] entries@[k]).host < i,
        {
            let h = &hosts[i];
            let ghost base = domain_inserts(hosts@.take(i as int));
            assert(hosts@.take(i + 1).drop_last() =~= hosts@.take(i as int));
            if h.enabled {
                for j in 0..h.domains.len()
                    invariant
                        www@ == "www."@,
                        i < hosts@.len(),
                        *h == hosts@[i as int],
                        h.enabled,
                        base == domain_inserts(hosts@.take(i as int)),
                        entries_model(
                            entries@,
                            base + keys_of_domains(*h, h.domains@.take(j as int)).map_values(
                                |k: Seq<char>| (k, i as int),
                            ),
                        ),
                        forall|k: int| 0 <= k < entries@.len() ==> (#[trigger] entries@[k]).host < i + 1,
                {
                    let ghost before = entries@;
                    let key = lower_chars(h.domains[j].as_str());
                    let ghost ks = keys_for(*h, h.domains@[j as int]@);
                    assert(h.domains@.take(j + 1).drop_last() =~= h.domains@.take(j as int));
                    assert(keys_of_domains(*h, h.domains@.take(j + 1)) == keys_of_domains(
                        *h,
                        h.domains@.take(j as int),
                    ) + ks);
                    let has_www = key.len() >= 4 && chars_eq_at(&key, 0, 4, &www);
                    assert(has_www == (key@.len() >= 4 && key@.take(4) == "www."@)) by {
                        if key@.len() >= 4 {
                            assert(key@.take(4) =~= key@.subrange(0, 4));
                        }
                    }
                    if h.redirect_www && !has_www {
                        let wkey = concat_chars(&www, &key);
                        entries.push(DomainEntry { key, host: i });
                        entries.push(DomainEntry { key: wkey, host: i });
                    } else {
                        entries.push(DomainEntry { key, host: i });
                    }
                    assert((keys_of_domains(*h, h.domains@.take(j as int)) + ks).map_values(
                        |k: Seq<char>| (k, i as int),
                    ) =~= keys_of_domains(*h, h.domains@.take(j as int)).map_values(
                        |k: Seq<char>| (k, i as int),
                    ) + ks.map_values(|k: Seq<char>| (k, i as int)));
                    assert(entries_model(
                        entries@,
                        base + keys_of_domains(*h, h.domains@.take(j + 1)).map_values(
                            |k: Seq<char>| (k, i as int),
                        ),
                    )) by {
                        let full = base + keys_of_domains(*h, h.domains@.take(j + 1)).map_values(
                            |k: Seq<char>| (k, i as int),
                        );
                        let prev = base + keys_of_domains(*h, h.domains@.take(j as int)).map_values(
                            |k: Seq<char>| (k, i as int),
                        );
                        assert(full =~= prev + ks.map_values(|k: Seq<char>| (k, i as int)));
                    }
                }
                assert(h.domains@.take(h.domains@.len() as int) =~= h.domains@);
                compiled.push(compile_locations(&h.locations));
            } else {
                assert(domain_inserts(hosts@.take(i + 1)) =~= base);
                compiled.push(Vec::new());
            }
        }
        assert(hosts@.take(hosts@.len() as int) =~= hosts@);
        Router { hosts, entries, compiled }
    }

    /// Reduces a Host header to its lookup key: the part before the first `:`, ASCII lowered.
    pub fn normalize_host(host: &str) -> (r: Vec<char>)
        ensures
            r@ == host_key(host@),
    {
        let v = chars_of(host);
        let len = v.len();
        let cut = find_char(&v, 0, len, ':');
        assert(v@.subrange(0, len as int) =~= v@);
        let mut out: Vec<char> = Vec::new();
        for i in 0..cut
            invariant
                v@ == host@,
                cut <= v@.len(),
                out@ == v@.take(i as int).map_values(|c: char| crate::text::ascii_lower_char(c)),
        {
            out.push(ascii_lower_of(v[i]));
            assert(v@.take(i + 1).map_values(|c: char| crate::text::ascii_lower_char(c))
                =~= v@.take(i as int).map_values(|c: char| crate::text::ascii_lower_char(c)).push(
                crate::text::ascii_lower_char(v@[i as int]),
            ));
        }
        out
    }

    fn find_host(&self, key: &Vec<char>) -> (r: Option<usize>)
        requires
            self.wf(),
        ensures
            match lookup(domain_inserts(self.hosts()), key@) {
                Some(h) => r is Some && r->0 as int == h && h < self.hosts().len(),
                None => r is None,
            },
    {
        let ghost ins = domain_inserts(self.hosts@);
        let mut k = self.entries.len();
        assert(ins.take(k as int) =~= ins);
        while k > 0
            invariant
                self.wf(),
                ins == domain_inserts(self.hosts@),
                k <= self.entries@.len(),
                lookup(ins, key@) == lookup(ins.take(k as int), key@),
            decreases k,
        {
            let e = &self.entries[k - 1];
            assert(ins.take(k as int).drop_last() =~= ins.take(k - 1));
            assert(self.entries@[k - 1] == *e);
            assert(ins.take(k as int).last() == ins[k - 1]);
            let klen = key.len();
            if e.key.len() == klen {
                assert(e.key@.subrange(0, klen as int) =~= e.key@);
                if chars_eq_at(&e.key, 0, klen, key) {
                    return Some(e.host);
                }
            }
            k = k - 1;
        }
        None
    }

    /// Resolves a request to its host, the first location (in specificity order) whose
    /// matcher accepts the path, and that location's position in the host's list.
    pub fn resolve(&self, host: &str, path: &str) -> (r: Option<
        (&HostConfig, Option<&LocationConfig>, Option<usize>),
    >)
        requires
            self.wf(),
        ensures
            match (self.host_for(host@), r) {
                (None, None) => true,
                (Some(hi), Some((h, loc, idx))) => {
                    &&& 0 <= hi < self.hosts().len()
                    &&& *h == self.hosts()[hi]
                    &&& match first_match(self.matchers(hi), path@) {
                        None => loc is None && idx is None,
                        Some(k) => {
                            let li = self.matchers(hi)[k].index;
                            &&& idx == Some(li)
                            &&& li < self.hosts()[hi].locations@.len()
                            &&& loc is Some && *loc->0 == self.hosts()[hi].locations@[li as int]
                        },
                    }
                },
                _ => false,
            },
    {
        let key = Router::normalize_host(host);
        let hi = match self.find_host(&key) {
            Some(hi) => hi,
            None => {
                return None;
            },
        };
        let h = &self.hosts[hi];
        let cls = &self.compiled[hi];
        assert(key@ == host_key(host@));
        assert(self.host_for(host@) == Some(hi as int));
        assert(cls@ == self.matchers(hi as int));
        assert(*h == self.hosts()[hi as int]);
        assert(compiled_ok(cls@, h.locations@) || cls@.len() == 0);
        match match_location(cls, path) {
            None => Some((h, None, None)),
            Some(k) => {
                let idx = cls[k].index;
                proof {
                    if !compiled_ok(cls@, h.locations@) {
                        assert(cls@.len() == 0);
                    }
                    assert(cls@[k as int].index == idx);
                }
                Some((h, Some(&h.locations[idx]), Some(idx)))
            },
        }
    }

    /// Whether a Host header routes to some host.
    pub fn has_domain(&self, host: &str) -> (r: bool)
        requires
            self.wf(),
        ensures
            r == self.host_for(host@) is Some,
    {
        let key = Router::normalize_host(host);
        self.find_host(&key).is_some()
    }
}

proof fn lemma_lower_char(c: char)
    ensures
        crate::text::ascii_lower_char(c) == ':' ==> c == ':',
        crate::text::ascii_lower_char(crate::text::ascii_lower_char(c))
            == crate::text::ascii_lower_char(c),
{
    if 0x41 <= (c as u32) && (c as u32) <= 0x5a {
        let b = c as u8;
        assert(b as u32 == c as u32);
        let l = (b + 32) as char;
        assert(l as u32 == b as u32 + 32);
    }
}

/// Host lookup ignores ASCII case and everything from the first `:` on (the port).
pub proof fn host_lookup_ignores_case_and_port(r: Router, name: Seq<char>, port: Seq<char>)
    requires
        !name.contains(':'),
    ensures
        r.host_for(name + seq![':'] + port) == r.host_for(ascii_lower(name)),
        r.host_for(name) == r.host_for(ascii_lower(name)),
{
    let with_port = name + seq![':'] + port;
    assert(with_port =~= name + (seq![':'] + port));
    crate::access::lemma_index_of_concat(name, seq![':'] + port, ':');
    assert(with_port.take(name.len() as int) =~= name);
    let low = ascii_lower(name);
    assert(!low.contains(':')) by {
        if low.contains(':') {
            let j = choose|j: int| 0 <= j < low.len() && low[j] == ':';
            lemma_lower_char(name[j]);
        }
    }
    crate::access::lemma_index_of_concat(name, seq![], ':');
    crate::access::lemma_index_of_concat(low, seq![], ':');
    assert(name + Seq::<char>::empty() =~= name);
    assert(low + Seq::<char>::empty() =~= low);
    assert(name.take(name.len() as int) =~= name);
    assert(low.take(low.len() as int) =~= low);
    assert forall|j: int| 0 <= j < low.len() implies #[trigger] ascii_lower(low)[j] == low[j] by {
        lemma_lower_char(name[j]);
    }
    assert(ascii_lower(low) =~= low);
}

/// A prefix matcher compares text only: it accepts its path followed by anything, `..`
/// segments included; an exact matcher accepts its path alone.
pub proof fn prefix_match_is_textual(cl: CompiledLocation, rest: Seq<char>)
    ensures
        match cl.match_type {
            MatchType::Prefix(p) => path_matches(cl, p@ + rest),
            MatchType::Exact(p) => path_matches(cl, p@ + rest) <==> rest.len() == 0,
            MatchType::Regex(_) => true,
        },
{
    match cl.match_type {
        MatchType::Prefix(p) => {
            assert((p@ + rest).take(p@.len() as int) =~= p@);
        },
        MatchType::Exact(p) => {
            if rest.len() == 0 {
                assert(p@ + rest =~= p@);
            } else {
                assert((p@ + rest).len() != p@.len());
            }
        },
        MatchType::Regex(_) => {},
    }
}

} // verus!
