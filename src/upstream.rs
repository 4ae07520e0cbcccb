//! Upstream selection: which policy a balance method names, and the backend set a
//! location's upstreams resolve to. The selection itself belongs to the load balancer.
use vstd::prelude::*;
use crate::config::{HostConfig, LocationConfig, UpstreamConfig};
use crate::access::same_text;

verus! {

/// The selection policy behind a balance method.
#[derive(Debug, Clone, Copy, PartialEq, Eq, Structural)]
pub enum SelectionKind {
    /// Weighted round robin: `round_robin`, `weighted`, `least_connections` and any other name.
    RoundRobin,
    /// Ketama consistent hashing on the client key: `ip_hash`.
    Consistent,
    /// Uniform random choice: `random`.
    Random,
}

/// A resolved backend: its socket address and weight.
#[derive(Debug, Clone)]
pub struct Backend {
    pub addr: String,
    pub weight: usize,
}

/// A selector's policy and its distinct backends.
#[derive(Debug)]
pub struct SelectorPlan {
    pub kind: SelectionKind,
    pub backends: Vec<Backend>,
}

pub open spec fn kind_of_method(method: Seq<char>) -> SelectionKind {
    if method == "ip_hash"@ {
        SelectionKind::Consistent
    } else if method == "random"@ {
        SelectionKind::Random
    } else {
        SelectionKind::RoundRobin
    }
}

pub open spec fn has_addr(bs: Seq<(Seq<char>, usize)>, a: Seq<char>) -> bool {
    exists|k: int| 0 <= k < bs.len() && (#[trigger] bs[k]).0 == a
}

/// Backends in configuration order: upstreams that did not resolve are dropped, and of
/// several that resolve to one address the first stays.
pub open spec fn backends_of(ups: Seq<UpstreamConfig>, resolved: Seq<Option<String>>) -> Seq<
    (Seq<char>, usize),
>
    decreases ups.len(),
{
    if ups.len() == 0 || resolved.len() == 0 {
        seq![]
    } else {
        let prev = backends_of(ups.drop_last(), resolved.drop_last());
        match resolved.last() {
            None => prev,
            Some(a) => if has_addr(prev, a@) {
                prev
            } else {
                prev.push((a@, ups.last().weight))
            },
        }
    }
}

pub open spec fn backends_view(bs: Seq<Backend>) -> Seq<(Seq<char>, usize)> {
    bs.map_values(|b: Backend| (b.addr@, b.weight))
}

/// The selection policy a balance method names.
pub fn selection_kind(method: &str) -> (r: SelectionKind)
    ensures
        r == kind_of_method(method@),
{
    if same_text(method, "ip_hash") {
        SelectionKind::Consistent
    } else if same_text(method, "random") {
        SelectionKind::Random
    } else {
        SelectionKind::RoundRobin
    }
}

/// The selector for a location: its policy and backend set, given each upstream's resolved
/// socket address (`None` where resolution failed). No selector when no backend remains.
pub fn create_upstream_selector(
    upstreams: &Vec<UpstreamConfig>,
    method: &str,
    resolved: &Vec<Option<String>>,
) -> (r: Option<SelectorPlan>)
    requires
        resolved@.len() == upstreams@.len(),
    ensures
        match r {
            None => backends_of(upstreams@, resolved@).len() == 0,
            Some(p) => {
                &&& backends_of(upstreams@, resolved@).len() > 0
                &&& backends_view(p.backends@) == backends_of(upstreams@, resolved@)
                &&& p.kind == kind_of_method(method@)
            },
        },
{
    let mut out: Vec<Backend> = Vec::new();
    for i in 0..upstreams.len()
        invariant
            resolved@.len() == upstreams@.len(),
            backends_view(out@) == backends_of(upstreams@.take(i as int), resolved@.take(i as int)),
    {
        let ghost prev = out@;
        assert(upstreams@.take(i + 1).drop_last() =~= upstreams@.take(i as int));
        assert(resolved@.take(i + 1).drop_last() =~= resolved@.take(i as int));
        match &resolved[i] {
            None => {},
            Some(a) => {
                let mut seen = false;
                let mut k: usize = 0;
                while k < out.len()
                    invariant
                        out@ == prev,
                        k <= out@.len(),
                        resolved@.len() == upstreams@.len(),
                        i < upstreams@.len(),
                        resolved@[i as int] == Some(*a),
                        seen == exists|j: int|
                            0 <= j < k && (#[trigger] backends_view(out@)[j]).0 == a@,
                    decreases out.len() - k,
                {
                    if same_text(out[k].addr.as_str(), a.as_str()) {
                        seen = true;
                    }
                    assert(backends_view(out@)[k as int].0 == out@[k as int].addr@);
                    k = k + 1;
                }
                if !seen {
                    out.push(Backend { addr: a.clone(), weight: upstreams[i].weight });
                    assert(backends_view(out@) =~= backends_view(prev).push(
                        (a@, upstreams@[i as int].weight),
                    ));
                }
            },
        }
    }
    assert(upstreams@.take(upstreams@.len() as int) =~= upstreams@);
    assert(resolved@.take(resolved@.len() as int) =~= resolved@);
    if out.len() == 0 {
        None
    } else {
        Some(SelectorPlan { kind: selection_kind(method), backends: out })
    }
}

/// The upstream a stream connection goes to: the connection counter modulo the number of
/// upstreams; none without upstreams.
pub fn stream_upstream_index(counter: usize, count: usize) -> (r: Option<usize>)
    ensures
        count == 0 ==> r is None,
        count > 0 ==> r == Some((counter % count) as usize),
{
    if count == 0 {
        None
    } else {
        Some(counter % count)
    }
}

/// The locations of one host that get a selector: those with at least one upstream, as
/// (host id, location index).
pub open spec fn location_slots(id: u64, locs: Seq<LocationConfig>) -> Seq<(u64, usize)>
    decreases locs.len(),
{
    if locs.len() == 0 {
        seq![]
    } else {
        location_slots(id, locs.drop_last()) + if locs.last().upstreams@.len() > 0 {
            seq![(id, (locs.len() - 1) as usize)]
        } else {
            seq![]
        }
    }
}

/// The selector slots of all enabled hosts, in configuration order.
pub open spec fn slots_of(hosts: Seq<HostConfig>) -> Seq<(u64, usize)>
    decreases hosts.len(),
{
    if hosts.len() == 0 {
        seq![]
    } else {
        slots_of(hosts.drop_last()) + if hosts.last().enabled {
            location_slots(hosts.last().id, hosts.last().locations@)
        } else {
            seq![]
        }
    }
}

/// The (host id, location index) pairs that get an upstream selector.
pub fn selector_slots(hosts: &Vec<HostConfig>) -> (r: Vec<(u64, usize)>)
    ensures
        r@ == slots_of(hosts@),
{
    let mut out: Vec<(u64, usize)> = Vec::new();
    for i in 0..hosts.len()
        invariant
            out@ == slots_of(hosts@.take(i as int)),
    {
        let h = &hosts[i];
        let ghost base = out@;
        assert(hosts@.take(i + 1).drop_last() =~= hosts@.take(i as int));
        assert(hosts@.take(i + 1).last() == hosts@[i as int]);
        if h.enabled {
            for j in 0..h.locations.len()
                invariant
                    *h == hosts@[i as int],
                    out@ == base + location_slots(h.id, h.locations@.take(j as int)),
            {
                assert(h.locations@.take(j + 1).drop_last() =~= h.locations@.take(j as int));
                assert(h.locations@.take(j + 1).last() == h.locations@[j as int]);
                if h.locations[j].upstreams.len() > 0 {
                    out.push((h.id, j));
                    assert(out@ =~= base + location_slots(h.id, h.locations@.take(j + 1)));
                } else {
                    assert(out@ =~= base + location_slots(h.id, h.locations@.take(j + 1)));
                }
            }
            assert(h.locations@.take(h.locations@.len() as int) =~= h.locations@);
            assert(out@ =~= slots_of(hosts@.take(i + 1)));
        } else {
            assert(out@ =~= slots_of(hosts@.take(i + 1)));
        }
    }
    assert(hosts@.take(hosts@.len() as int) =~= hosts@);
    out
}

} // verus!
