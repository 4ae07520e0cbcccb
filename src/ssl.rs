//! Certificate registry: which certificate and key files serve each SNI name.
use vstd::prelude::*;
use vstd::string::*;
use crate::config::{AppConfig, HostConfig, SslConfig};
use crate::access::{chars_eq_at, same_text};
use crate::router::lower_chars;
use crate::text::{ascii_lower, string_of};
use crate::error_pages::{join, join_path};

verus! {

/// Certificate and key file paths.
#[derive(Debug, Clone, PartialEq, Eq)]
pub struct CertPair {
    pub cert_path: String,
    pub key_path: String,
}

/// Maps SNI names (ASCII lowered) to certificate pairs.
pub struct SslCertManager {
    certs: Vec<(Vec<char>, CertPair)>,
}

/// The certificate files a host's TLS settings point at: for `letsencrypt`,
/// `<ssl_dir>/live/<first domain, lowered>/{fullchain,privkey}.pem`; for `custom`, the two
/// configured paths when both are set; nothing otherwise.
pub open spec fn cert_candidate(h: HostConfig, ssl: SslConfig, ssl_dir: Seq<char>) -> Option<
    (Seq<char>, Seq<char>),
> {
    if ssl.ssl_type@ == "letsencrypt"@ {
        if h.domains@.len() == 0 {
            None
        } else {
            let dir = join_path(join_path(ssl_dir, "live"@), ascii_lower(h.domains@[0]@));
            Some((join_path(dir, "fullchain.pem"@), join_path(dir, "privkey.pem"@)))
        }
    } else if ssl.ssl_type@ == "custom"@ {
        match (ssl.cert_path, ssl.key_path) {
            (Some(c), Some(k)) => Some((c@, k@)),
            _ => None,
        }
    } else {
        None
    }
}

pub open spec fn pair_view(p: CertPair) -> (Seq<char>, Seq<char>) {
    (p.cert_path@, p.key_path@)
}

/// Resolves the certificate pair a host's TLS settings name, before checking that the
/// files exist.
pub fn resolve_cert_pair(host: &HostConfig, ssl: &SslConfig, ssl_dir: &str) -> (r: Option<
    CertPair,
>)
    ensures
        match cert_candidate(*host, *ssl, ssl_dir@) {
            None => r is None,
            Some(c) => r is Some && pair_view(r->0) == c,
        },
{
    if same_text(ssl.ssl_type.as_str(), "letsencrypt") {
        if host.domains.len() == 0 {
            return None;
        }
        let domain = lower_chars(host.domains[0].as_str());
        let d = string_of(&domain);
        let dir = join(join(ssl_dir, "live").as_str(), d.as_str());
        Some(
            CertPair {
                cert_path: join(dir.as_str(), "fullchain.pem"),
                key_path: join(dir.as_str(), "privkey.pem"),
            },
        )
    } else if same_text(ssl.ssl_type.as_str(), "custom") {
        match (&ssl.cert_path, &ssl.key_path) {
            (Some(c), Some(k)) => Some(CertPair { cert_path: c.clone(), key_path: k.clone() }),
            _ => None,
        }
    } else {
        None
    }
}

/// Hosts whose certificates count: enabled, with TLS settings other than `none`, naming a
/// pair whose files exist.
pub open spec fn host_has_cert(h: HostConfig, ssl_dir: Seq<char>, present: bool) -> bool {
    &&& h.enabled
    &&& h.ssl is Some
    &&& h.ssl->0.ssl_type@ != "none"@
    &&& cert_candidate(h, h.ssl->0, ssl_dir) is Some
    &&& present
}

/// Every (SNI key, pair) insertion in configuration order.
pub open spec fn cert_inserts(
    hosts: Seq<HostConfig>,
    present: Seq<bool>,
    ssl_dir: Seq<char>,
) -> Seq<(Seq<char>, (Seq<char>, Seq<char>))>
    decreases hosts.len(),
{
    if hosts.len() == 0 || present.len() == 0 {
        seq![]
    } else {
        let h = hosts.last();
        let prev = cert_inserts(hosts.drop_last(), present.drop_last(), ssl_dir);
        if host_has_cert(h, ssl_dir, present.last()) {
            let c = cert_candidate(h, h.ssl->0, ssl_dir)->0;
            prev + h.domains@.map_values(|d: String| (ascii_lower(d@), c))
        } else {
            prev
        }
    }
}

/// The pair that the last insertion of `key` names.
pub open spec fn cert_lookup(ins: Seq<(Seq<char>, (Seq<char>, Seq<char>))>, key: Seq<char>) -> Option<
    (Seq<char>, Seq<char>),
>
    decreases ins.len(),
{
    if ins.len() == 0 {
        None
    } else if ins.last().0 == key {
        Some(ins.last().1)
    } else {
        cert_lookup(ins.drop_last(), key)
    }
}

impl SslCertManager {
    pub closed spec fn inserts(&self) -> Seq<(Seq<char>, (Seq<char>, Seq<char>))> {
        self.certs@.map_values(|e: (Vec<char>, CertPair)| (e.0@, pair_view(e.1)))
    }

    /// Builds the registry. `present[i]` tells whether the files of host `i`'s certificate
    /// pair exist on disk.
    pub fn build(config: &AppConfig, present: &Vec<bool>) -> (r: SslCertManager)
        requires
            present@.len() == config.hosts@.len(),
        ensures
            r.inserts() == cert_inserts(config.hosts@, present@, config.global.ssl_dir@),
    {
        let hosts = &config.hosts;
        let ssl_dir = config.global.ssl_dir.as_str();
        let mut certs: Vec<(Vec<char>, CertPair)> = Vec::new();
        for i in 0..hosts.len()
            invariant
                present@.len() == hosts@.len(),
                *hosts == config.hosts,
                ssl_dir@ == config.global.ssl_dir@,
                certs@.map_values(|e: (Vec<char>, CertPair)| (e.0@, pair_view(e.1)))
                    == cert_inserts(hosts@.take(i as int), present@.take(i as int), ssl_dir@),
        {
            let h = &hosts[i];
            assert(hosts@.take(i + 1).drop_last() =~= hosts@.take(i as int));
            assert(present@.take(i + 1).drop_last() =~= present@.take(i as int));
            if h.enabled && present[i] {
                if let Some(ssl) = &h.ssl {
                    if !same_text(ssl.ssl_type.as_str(), "none") {
                        if let Some(pair) = resolve_cert_pair(h, ssl, ssl_dir) {
                            let ghost base = certs@;
                            let ghost c = pair_view(pair);
                            for j in 0..h.domains.len()
                                invariant
                                    *h == hosts@[i as int],
                                    pair_view(pair) == c,
                                    certs@.map_values(
                                        |e: (Vec<char>, CertPair)| (e.0@, pair_view(e.1)),
                                    ) == base.map_values(
                                        |e: (Vec<char>, CertPair)| (e.0@, pair_view(e.1)),
                                    ) + h.domains@.take(j as int).map_values(
                                        |d: String| (ascii_lower(d@), c),
                                    ),
                            {
                                let ghost prev = certs@;
                                let key = lower_chars(h.domains[j].as_str());
                                let copy = CertPair {
                                    cert_path: pair.cert_path.clone(),
                                    key_path: pair.key_path.clone(),
                                };
                                certs.push((key, copy));
                                assert(h.domains@.take(j + 1) =~= h.domains@.take(j as int).push(
                                    h.domains@[j as int],
                                ));
                                assert(certs@.map_values(
                                    |e: (Vec<char>, CertPair)| (e.0@, pair_view(e.1)),
                                ) =~= prev.map_values(
                                    |e: (Vec<char>, CertPair)| (e.0@, pair_view(e.1)),
                                ).push((ascii_lower(h.domains@[j as int]@), c)));
                                assert(base.map_values(
                                    |e: (Vec<char>, CertPair)| (e.0@, pair_view(e.1)),
                                ) + h.domains@.take(j + 1).map_values(
                                    |d: String| (ascii_lower(d@), c),
                                ) =~= (base.map_values(
                                    |e: (Vec<char>, CertPair)| (e.0@, pair_view(e.1)),
                                ) + h.domains@.take(j as int).map_values(
                                    |d: String| (ascii_lower(d@), c),
                                )).push((ascii_lower(h.domains@[j as int]@), c)));
                            }
                            assert(h.domains@.take(h.domains@.len() as int) =~= h.domains@);
                        }
                    }
                }
            }
        }
        assert(hosts@.take(hosts@.len() as int) =~= hosts@);
        assert(present@.take(present@.len() as int) =~= present@);
        SslCertManager { certs }
    }

    /// The certificate pair for an SNI name (ASCII case ignored).
    pub fn get_cert(&self, sni: &str) -> (r: Option<&CertPair>)
        ensures
            match cert_lookup(self.inserts(), ascii_lower(sni@)) {
                None => r is None,
                Some(c) => r is Some && pair_view(*r->0) == c,
            },
    {
        let key = lower_chars(sni);
        let ghost ins = self.inserts();
        let mut k = self.certs.len();
        assert(ins.take(k as int) =~= ins);
        while k > 0
            invariant
                ins == self.inserts(),
                key@ == ascii_lower(sni@),
                k <= self.certs@.len(),
                cert_lookup(ins, key@) == cert_lookup(ins.take(k as int), key@),
            decreases k,
        {
            let e = &self.certs[k - 1];
            assert(ins.take(k as int).drop_last() =~= ins.take(k - 1));
            assert(ins[k - 1] == (e.0@, pair_view(e.1)));
            assert(ins.take(k as int).last() == ins[k - 1]);
            let klen = key.len();
            if e.0.len() == klen {
                assert(e.0@.subrange(0, klen as int) =~= e.0@);
                if chars_eq_at(&e.0, 0, klen, &key) {
                    assert(e.0@ == key@);
                    assert(cert_lookup(ins.take(k as int), key@) == Some(pair_view(e.1)));
                    assert(key@ == ascii_lower(sni@));
                    return Some(&e.1);
                }
            }
            k = k - 1;
        }
        None
    }

    /// Whether any certificate is registered.
    pub fn has_certs(&self) -> (r: bool)
        ensures
            r == (self.inserts().len() > 0),
    {
        self.certs.len() > 0
    }

    /// The distinct certificate pairs that some name still resolves to, each once: a pair
    /// whose names were all taken over by later registrations is not listed.
    pub fn all_cert_pairs(&self) -> (r: Vec<&CertPair>)
        ensures
            distinct_pairs(r@),
            forall|v: (Seq<char>, Seq<char>)|
                lists_pair(r@, v) <==> current(self.inserts(), self.inserts().len() as int, v),
    {
        let ghost ins = self.inserts();
        let n = self.certs.len();
        let mut out: Vec<&CertPair> = Vec::new();
        let mut i: usize = 0;
        while i < n
            invariant
                i <= n,
                n == self.certs@.len(),
                ins == self.inserts(),
                ins.len() == n,
                distinct_pairs(out@),
                forall|v: (Seq<char>, Seq<char>)|
                    lists_pair(out@, v) <==> live_before(ins, n as int, i as int, v),
            decreases n - i,
        {
            let e = &self.certs[i];
            assert(ins[i as int] == (e.0@, pair_view(e.1)));
            let mut later = false;
            let mut m = i + 1;
            while m < n
                invariant
                    i < m <= n,
                    n == self.certs@.len(),
                    ins == self.inserts(),
                    ins.len() == n,
                    ins[i as int].0 == e.0@,
                    later <==> exists|k: int| i < k < m && ins[k].0 == ins[i as int].0,
                decreases n - m,
            {
                let f = &self.certs[m];
                assert(ins[m as int] == (f.0@, pair_view(f.1)));
                let klen = e.0.len();
                if f.0.len() == klen {
                    assert(f.0@.subrange(0, klen as int) =~= f.0@);
                    if chars_eq_at(&f.0, 0, klen, &e.0) {
                        later = true;
                    }
                }
                m = m + 1;
            }
            assert(later <==> !survives(ins, n as int, i as int));
            if !later {
                add_distinct(&mut out, &e.1);
            }
            assert forall|v: (Seq<char>, Seq<char>)|
                lists_pair(out@, v) <==> live_before(ins, n as int, i + 1, v) by {
                if live_before(ins, n as int, i + 1, v) {
                    let j = choose|j: int|
                        0 <= j < i + 1 && ins[j].1 == v && survives(ins, n as int, j);
                    if j < i {
                        assert(live_before(ins, n as int, i as int, v));
                    }
                }
                if live_before(ins, n as int, i as int, v) {
                    let j = choose|j: int|
                        0 <= j < i && ins[j].1 == v && survives(ins, n as int, j);
                    assert(live_before(ins, n as int, i + 1, v));
                }
                if !later && v == pair_view(e.1) {
                    assert(live_before(ins, n as int, i + 1, v));
                }
            }
            i = i + 1;
        }
        out
    }
}

/// No registration after the `j`-th (among the first `n`) is for the same name.
pub open spec fn survives(ins: Seq<(Seq<char>, (Seq<char>, Seq<char>))>, n: int, j: int) -> bool {
    forall|m: int| j < m < n ==> ins[m].0 != ins[j].0
}

/// One of the first `i` registrations names `v` and is the last for its name.
pub open spec fn live_before(
    ins: Seq<(Seq<char>, (Seq<char>, Seq<char>))>,
    n: int,
    i: int,
    v: (Seq<char>, Seq<char>),
) -> bool {
    exists|j: int| 0 <= j < i && ins[j].1 == v && survives(ins, n, j)
}

/// Some name still resolves to the pair `v`: it is the last registration for its name.
pub open spec fn current(ins: Seq<(Seq<char>, (Seq<char>, Seq<char>))>, n: int, v: (
    Seq<char>,
    Seq<char>,
)) -> bool {
    live_before(ins, n, n, v)
}

/// `s` holds the pair `v`.
pub open spec fn lists_pair(s: Seq<&CertPair>, v: (Seq<char>, Seq<char>)) -> bool {
    exists|k: int| 0 <= k < s.len() && pair_view(*s[k]) == v
}

/// No pair occurs twice in `s`.
pub open spec fn distinct_pairs(s: Seq<&CertPair>) -> bool {
    forall|k1: int, k2: int|
        0 <= k1 < k2 < s.len() ==> pair_view(*#[trigger] s[k1]) != pair_view(*#[trigger] s[k2])
}

proof fn lemma_lookup_is_last(
    ins: Seq<(Seq<char>, (Seq<char>, Seq<char>))>,
    k: Seq<char>,
    v: (Seq<char>, Seq<char>),
)
    ensures
        cert_lookup(ins, k) == Some(v) <==> exists|j: int|
            0 <= j < ins.len() && ins[j].0 == k && ins[j].1 == v && survives(
                ins,
                ins.len() as int,
                j,
            ),
    decreases ins.len(),
{
    let n = ins.len() as int;
    if n > 0 {
        let pre = ins.drop_last();
        lemma_lookup_is_last(pre, k, v);
        if ins[n - 1].0 == k {
            assert(ins.last() == ins[n - 1]);
            if cert_lookup(ins, k) == Some(v) {
                assert(survives(ins, n, n - 1));
                assert(0 <= n - 1 < n && ins[n - 1].0 == k && ins[n - 1].1 == v && survives(
                    ins,
                    n,
                    n - 1,
                ));
            }
            if exists|j: int| 0 <= j < n && ins[j].0 == k && ins[j].1 == v && survives(ins, n, j) {
                let j = choose|j: int| 0 <= j < n && ins[j].0 == k && ins[j].1 == v && survives(ins, n, j);
                if j < n - 1 {
                    assert(ins[n - 1].0 == ins[j].0);
                }
                assert(j == n - 1);
                assert(cert_lookup(ins, k) == Some(v));
            }
        } else {
            assert(ins.last() == ins[n - 1]);
            assert(cert_lookup(ins, k) == cert_lookup(pre, k));
            if cert_lookup(ins, k) == Some(v) {
                let j = choose|j: int|
                    0 <= j < n - 1 && pre[j].0 == k && pre[j].1 == v && survives(pre, n - 1, j);
                assert forall|m: int| j < m < n implies ins[m].0 != ins[j].0 by {
                    if m < n - 1 {
                        assert(pre[m] == ins[m]);
                    }
                }
                assert(ins[j] == pre[j]);
                assert(0 <= j < n && ins[j].0 == k && ins[j].1 == v && survives(ins, n, j));
            }
            if exists|j: int| 0 <= j < n && ins[j].0 == k && ins[j].1 == v && survives(ins, n, j) {
                let j = choose|j: int| 0 <= j < n && ins[j].0 == k && ins[j].1 == v && survives(ins, n, j);
                assert(j < n - 1);
                assert(pre[j] == ins[j]);
                assert forall|m: int| j < m < n - 1 implies pre[m].0 != pre[j].0 by {
                    assert(pre[m] == ins[m]);
                }
                assert(survives(pre, n - 1, j));
            }
        }
    }
}

/// The pairs `all_cert_pairs` lists are exactly those some SNI name resolves to.
pub proof fn listed_pairs_are_resolved(
    ins: Seq<(Seq<char>, (Seq<char>, Seq<char>))>,
    v: (Seq<char>, Seq<char>),
)
    ensures
        current(ins, ins.len() as int, v) <==> exists|k: Seq<char>| cert_lookup(ins, k) == Some(v),
{
    if current(ins, ins.len() as int, v) {
        let j = choose|j: int| 0 <= j < ins.len() && ins[j].1 == v && survives(ins, ins.len() as int, j);
        lemma_lookup_is_last(ins, ins[j].0, v);
    }
    if exists|k: Seq<char>| cert_lookup(ins, k) == Some(v) {
        let k = choose|k: Seq<char>| cert_lookup(ins, k) == Some(v);
        lemma_lookup_is_last(ins, k, v);
    }
}

fn add_distinct<'a>(out: &mut Vec<&'a CertPair>, p: &'a CertPair)
    requires
        distinct_pairs(old(out)@),
    ensures
        distinct_pairs(final(out)@),
        forall|v: (Seq<char>, Seq<char>)|
            lists_pair(final(out)@, v) <==> (lists_pair(old(out)@, v) || v == pair_view(*p)),
{
    let ghost before = out@;
    let mut k: usize = 0;
    while k < out.len()
        invariant
            out@ == before,
            distinct_pairs(before),
            k <= out@.len(),
            forall|m: int| 0 <= m < k ==> pair_view(*out@[m]) != pair_view(*p),
        decreases out.len() - k,
    {
        let q = out[k];
        if same_text(q.cert_path.as_str(), p.cert_path.as_str()) && same_text(
            q.key_path.as_str(),
            p.key_path.as_str(),
        ) {
            assert(pair_view(*out@[k as int]) == pair_view(*p));
            assert forall|v: (Seq<char>, Seq<char>)|
                lists_pair(out@, v) <==> (lists_pair(before, v) || v == pair_view(*p)) by {
                if v == pair_view(*p) {
                    assert(pair_view(*out@[k as int]) == v);
                }
            }
            return;
        }
        k = k + 1;
    }
    out.push(p);
    assert forall|k1: int, k2: int| 0 <= k1 < k2 < out@.len() implies pair_view(
        *#[trigger] out@[k1],
    ) != pair_view(*#[trigger] out@[k2]) by {
        assert(out@[k1] == before[k1]);
        if k2 < before.len() {
            assert(out@[k2] == before[k2]);
        }
    }
    assert forall|v: (Seq<char>, Seq<char>)|
        lists_pair(out@, v) <==> (lists_pair(before, v) || v == pair_view(*p)) by {
        if lists_pair(before, v) {
            let m = choose|m: int| 0 <= m < before.len() && pair_view(*before[m]) == v;
            assert(out@[m] == before[m]);
        }
        if v == pair_view(*p) {
            assert(pair_view(*out@[before.len() as int]) == v);
        }
        if lists_pair(out@, v) {
            let m = choose|m: int| 0 <= m < out@.len() && pair_view(*out@[m]) == v;
            if m < before.len() {
                assert(out@[m] == before[m]);
            }
        }
    }
}

} // verus!
