//! Access-list evaluation: client-address rules (last match wins), basic-auth credentials,
//! and the `any` / `all` ways of combining the two.
use vstd::prelude::*;
use vstd::utf8::{valid_utf8, decode_utf8};
use vstd::string::*;
use crate::config::{AccessListConfig, AccessListClient, AccessListAuthEntry};
use crate::text::{chars_of, all_digits, digits_value, parse_u64, parse_u64_at};

verus! {

/// A client or network address: IPv4 or IPv6 in its integer form.
#[derive(Debug, Clone, Copy, PartialEq, Eq, Structural)]
pub enum IpAddress {
    V4(u32),
    V6(u128),
}

/// A network address with its prefix length, read once from a client rule's text.
#[derive(Debug, Clone, Copy)]
pub struct ParsedCidr {
    pub ip: IpAddress,
    pub prefix_len: u32,
}

/// Outcome of an access-list check.
#[derive(Debug, Clone, Copy, PartialEq, Eq, Structural)]
pub enum AccessResult {
    Allowed,
    Denied,
    AuthRequired,
}

// ---------------------------------------------------------------- address text

/// Position of the first `c` in `s`, or `s.len()` when there is none.
pub open spec fn index_of(s: Seq<char>, c: char) -> int
    decreases s.len(),
{
    if s.len() == 0 {
        0
    } else if s[0] == c {
        0
    } else {
        1 + index_of(s.drop_first(), c)
    }
}

/// A dotted-quad field: one to three digits, no leading zero, at most 255.
pub open spec fn octet_ok(t: Seq<char>) -> bool {
    &&& 1 <= t.len() <= 3
    &&& all_digits(t)
    &&& (t.len() == 1 || t[0] != '0')
    &&& digits_value(t) <= 255
}

/// Reads `n` dot-separated octets from `s`, each shifted onto `acc`.
pub open spec fn octets_value(s: Seq<char>, n: nat, acc: nat) -> Option<nat>
    decreases n,
{
    let i = index_of(s, '.');
    if n <= 1 {
        if i == s.len() && octet_ok(s) {
            Some(acc * 256 + digits_value(s))
        } else {
            None
        }
    } else if i < s.len() && octet_ok(s.take(i)) {
        octets_value(s.skip(i + 1), (n - 1) as nat, acc * 256 + digits_value(s.take(i)))
    } else {
        None
    }
}

/// The IPv4 address that dotted-quad text denotes, as `Ipv4Addr::from_str` reads it.
pub open spec fn ipv4_value(s: Seq<char>) -> Option<u32> {
    match octets_value(s, 4, 0) {
        Some(n) => Some(n as u32),
        None => None,
    }
}

pub open spec fn is_hex(c: char) -> bool {
    let u = c as u32;
    (0x30 <= u && u <= 0x39) || (0x41 <= u && u <= 0x46) || (0x61 <= u && u <= 0x66)
}

pub open spec fn hex_digit_value(c: char) -> nat {
    let u = c as u32;
    if u <= 0x39 {
        (u - 0x30) as nat
    } else if u <= 0x46 {
        (u - 0x41 + 10) as nat
    } else {
        (u - 0x61 + 10) as nat
    }
}

pub open spec fn hex_value(s: Seq<char>) -> nat
    decreases s.len(),
{
    if s.len() == 0 {
        0
    } else {
        hex_value(s.drop_last()) * 16 + hex_digit_value(s.last())
    }
}

/// An IPv6 group: one to four hexadecimal digits.
pub open spec fn hex_group(t: Seq<char>) -> bool {
    1 <= t.len() <= 4 && forall|i: int| 0 <= i < t.len() ==> is_hex(#[trigger] t[i])
}

/// The 16-bit groups that colon-separated text denotes; with `v4_last` the last field may
/// be a dotted quad, which stands for two groups.
pub open spec fn groups_of(s: Seq<char>, v4_last: bool) -> Option<Seq<nat>>
    decreases s.len(),
{
    let i = index_of(s, ':');
    if i >= s.len() || i < 0 {
        if hex_group(s) {
            Some(seq![hex_value(s)])
        } else if v4_last && ipv4_value(s) is Some {
            let n = ipv4_value(s)->0;
            Some(seq![(n >> 16u32) as nat, (n & 0xffffu32) as nat])
        } else {
            None
        }
    } else if hex_group(s.take(i)) {
        match groups_of(s.skip(i + 1), v4_last) {
            Some(rest) => Some(seq![hex_value(s.take(i))] + rest),
            None => None,
        }
    } else {
        None
    }
}

/// Groups of a side of `::`, which may be empty.
pub open spec fn side_groups(s: Seq<char>, v4_last: bool) -> Option<Seq<nat>> {
    if s.len() == 0 {
        Some(seq![])
    } else {
        groups_of(s, v4_last)
    }
}

/// Position of the first `::` in `s`, or `s.len()`.
pub open spec fn double_colon(s: Seq<char>) -> int
    decreases s.len(),
{
    if s.len() < 2 {
        s.len() as int
    } else if s[0] == ':' && s[1] == ':' {
        0
    } else {
        1 + double_colon(s.drop_first())
    }
}

/// The eight groups of IPv6 text as `Ipv6Addr::from_str` reads it: eight groups, or groups
/// around one `::` that stands for at least one zero group; a trailing dotted quad counts
/// as two groups.
pub open spec fn ipv6_groups(s: Seq<char>) -> Option<Seq<nat>> {
    let d = double_colon(s);
    if d >= s.len() {
        match groups_of(s, true) {
            Some(g) => if g.len() == 8 {
                Some(g)
            } else {
                None
            },
            None => None,
        }
    } else {
        match (side_groups(s.take(d), false), side_groups(s.skip(d + 2), true)) {
            (Some(h), Some(t)) => if h.len() + t.len() <= 7 {
                Some(h + Seq::new((8 - h.len() - t.len()) as nat, |i: int| 0nat) + t)
            } else {
                None
            },
            _ => None,
        }
    }
}

/// Groups packed big-endian into 128 bits.
pub open spec fn groups_bits(g: Seq<nat>) -> u128
    decreases g.len(),
{
    if g.len() == 0 {
        0
    } else {
        (groups_bits(g.drop_last()) << 16u128) | (g.last() as u128)
    }
}

/// The address that text denotes: a dotted quad, else IPv6 text.
pub open spec fn parse_ip(s: Seq<char>) -> Option<IpAddress> {
    match ipv4_value(s) {
        Some(n) => Some(IpAddress::V4(n)),
        None => match ipv6_groups(s) {
            Some(g) => Some(IpAddress::V6(groups_bits(g))),
            None => None,
        },
    }
}

/// What `u32::from_str` accepts.
pub open spec fn parse_u32(s: Seq<char>) -> Option<u32> {
    match parse_u64(s) {
        Some(n) => if n <= u32::MAX {
            Some(n as u32)
        } else {
            None
        },
        None => None,
    }
}

// ---------------------------------------------------------------- prefix matching

pub open spec fn mask_v4(p: u32) -> u32 {
    if p == 0 {
        0
    } else {
        0xffff_ffffu32 << ((32 - p) as u32)
    }
}

pub open spec fn mask_v6(p: u32) -> u128 {
    if p == 0 {
        0
    } else {
        0xffff_ffff_ffff_ffff_ffff_ffff_ffff_ffffu128 << ((128 - p) as u128)
    }
}

/// Whether `client` lies in the network `network/p`: same family, `p` within the family's
/// width, and the leading `p` bits equal.
pub open spec fn net_match(client: IpAddress, network: IpAddress, p: u32) -> bool {
    match (client, network) {
        (IpAddress::V4(c), IpAddress::V4(n)) => p <= 32 && (c & mask_v4(p)) == (n & mask_v4(p)),
        (IpAddress::V6(c), IpAddress::V6(n)) => p <= 128 && (c & mask_v6(p)) == (n & mask_v6(
            p,
        )),
        _ => false,
    }
}

/// Whether `client` matches a rule address: the keyword `all`, `network/prefix`, or a
/// single address. Text that does not parse matches nothing.
pub open spec fn cidr_text_match(client: IpAddress, text: Seq<char>) -> bool {
    let slash = index_of(text, '/');
    if text == "all"@ {
        true
    } else if slash < text.len() {
        match (parse_ip(text.take(slash)), parse_u32(text.skip(slash + 1))) {
            (Some(n), Some(p)) => net_match(client, n, p),
            _ => false,
        }
    } else {
        parse_ip(text) == Some(client)
    }
}

/// Width in bits of an address's family.
pub open spec fn family_width(a: IpAddress) -> u32 {
    match a {
        IpAddress::V4(_) => 32,
        IpAddress::V6(_) => 128,
    }
}

/// The pre-parsed form of a rule address: `network/prefix`, or a single address with its
/// family's full width. The keyword `all` and unparseable text have none.
pub open spec fn cidr_of(text: Seq<char>) -> Option<ParsedCidr> {
    let slash = index_of(text, '/');
    if slash < text.len() {
        match (parse_ip(text.take(slash)), parse_u32(text.skip(slash + 1))) {
            (Some(n), Some(p)) => Some(ParsedCidr { ip: n, prefix_len: p }),
            _ => None,
        }
    } else {
        match parse_ip(text) {
            Some(a) => Some(ParsedCidr { ip: a, prefix_len: family_width(a) }),
            None => None,
        }
    }
}

pub open spec fn rule_matches(client: IpAddress, rule: AccessListClient) -> bool {
    match rule.parsed_cidr {
        Some(pc) => net_match(client, pc.ip, pc.prefix_len),
        None => cidr_text_match(client, rule.address@),
    }
}

/// The directive of the last rule that matches `client`; deny when none does.
pub open spec fn rules_verdict(client: IpAddress, rules: Seq<AccessListClient>) -> bool
    decreases rules.len(),
{
    if rules.len() == 0 {
        false
    } else if rule_matches(client, rules.last()) {
        rules.last().directive@ == "allow"@
    } else {
        rules_verdict(client, rules.drop_last())
    }
}

/// Whether the client-address gate passes.
pub open spec fn ip_passes(acl: AccessListConfig, client: Option<IpAddress>) -> bool {
    acl.clients@.len() == 0 || match client {
        Some(ip) => rules_verdict(ip, acl.clients@),
        None => false,
    }
}

// ---------------------------------------------------------------- basic auth

/// What the standard base64 engine of the `base64` crate decodes `text` into; `None` where
/// it reports an error.
pub uninterp spec fn base64_decoded(text: Seq<char>) -> Option<Seq<u8>>;

/// Whether decoded credentials `user:password` (split at the first colon) name an entry.
pub open spec fn credentials_match(entries: Seq<AccessListAuthEntry>, text: Seq<char>) -> bool {
    let i = index_of(text, ':');
    i < text.len() && exists|k: int|
        0 <= k < entries.len() && (#[trigger] entries[k]).username@ == text.take(i)
            && entries[k].password@ == text.skip(i + 1)
}

/// Whether decoded credential bytes are UTF-8 text that names an entry.
pub open spec fn decoded_credentials_match(
    entries: Seq<AccessListAuthEntry>,
    bytes: Seq<u8>,
) -> bool {
    valid_utf8(bytes) && credentials_match(entries, decode_utf8(bytes))
}

/// Whether the basic-auth gate passes.
pub open spec fn auth_passes(acl: AccessListConfig, header: Option<Seq<char>>) -> bool {
    acl.auth@.len() == 0 || match header {
        Some(h) => h.len() >= 6 && h.take(6) == "Basic "@ && match base64_decoded(h.skip(6)) {
            Some(bytes) => decoded_credentials_match(acl.auth@, bytes),
            None => false,
        },
        None => false,
    }
}

/// How the two gates combine under the list's satisfy mode (`all`, else `any`).
pub open spec fn access_outcome(acl: AccessListConfig, ip_ok: bool, auth_ok: bool) -> AccessResult {
    let no_clients = acl.clients@.len() == 0;
    let no_auth = acl.auth@.len() == 0;
    if acl.satisfy@ == "all"@ {
        if !ip_ok {
            AccessResult::Denied
        } else if !no_auth && !auth_ok {
            AccessResult::AuthRequired
        } else {
            AccessResult::Allowed
        }
    } else if no_clients && no_auth {
        AccessResult::Allowed
    } else if ip_ok && !no_clients {
        AccessResult::Allowed
    } else if auth_ok && !no_auth {
        AccessResult::Allowed
    } else if !no_auth {
        AccessResult::AuthRequired
    } else {
        AccessResult::Denied
    }
}

/// The verdict of an access list on a request.
pub open spec fn access_verdict(
    acl: AccessListConfig,
    client: Option<IpAddress>,
    header: Option<Seq<char>>,
) -> AccessResult {
    access_outcome(acl, ip_passes(acl, client), auth_passes(acl, header))
}


pub open spec fn opt_ip(o: Option<&IpAddress>) -> Option<IpAddress> {
    match o {
        Some(ip) => Some(*ip),
        None => None,
    }
}

pub open spec fn opt_text(o: Option<&str>) -> Option<Seq<char>> {
    match o {
        Some(h) => Some(h@),
        None => None,
    }
}

// ---------------------------------------------------------------- executable

/// Whether `a[lo..hi]` holds exactly the characters of `b`.
pub fn chars_eq_at(a: &Vec<char>, lo: usize, hi: usize, b: &Vec<char>) -> (r: bool)
    requires
        lo <= hi <= a.len(),
    ensures
        r == (a@.subrange(lo as int, hi as int) == b@),
{
    if hi - lo != b.len() {
        assert(a@.subrange(lo as int, hi as int).len() != b@.len());
        return false;
    }
    let mut i: usize = 0;
    while i < b.len()
        invariant
            lo <= hi <= a.len(),
            hi - lo == b.len(),
            i <= b.len(),
            forall|j: int| 0 <= j < i ==> a@[lo + j] == b@[j],
        decreases b.len() - i,
    {
        if a[lo + i] != b[i] {
            assert(a@.subrange(lo as int, hi as int)[i as int] != b@[i as int]);
            return false;
        }
        i = i + 1;
    }
    assert(a@.subrange(lo as int, hi as int) =~= b@);
    true
}

/// Whether two strings hold the same characters.
pub fn same_text(a: &str, b: &str) -> (r: bool)
    ensures
        r == (a@ == b@),
{
    let va = chars_of(a);
    let vb = chars_of(b);
    assert(va@.subrange(0, va@.len() as int) =~= va@);
    chars_eq_at(&va, 0, va.len(), &vb)
}

/// Position of the first `c` in `v[lo..hi]`, or `hi`.
pub fn find_char(v: &Vec<char>, lo: usize, hi: usize, c: char) -> (r: usize)
    requires
        lo <= hi <= v.len(),
    ensures
        lo <= r <= hi,
        r - lo == index_of(v@.subrange(lo as int, hi as int), c),
{
    let mut i = lo;
    while i < hi && v[i] != c
        invariant
            lo <= i <= hi <= v.len(),
            index_of(v@.subrange(lo as int, hi as int), c) == (i - lo) + index_of(
                v@.subrange(i as int, hi as int),
                c,
            ),
        decreases hi - i,
    {
        assert(v@.subrange(i as int, hi as int).drop_first() =~= v@.subrange(i + 1, hi as int));
        i = i + 1;
    }
    i
}

fn octet_at(v: &Vec<char>, a: usize, b: usize) -> (r: Option<u64>)
    requires
        a <= b <= v.len(),
    ensures
        match r {
            Some(n) => octet_ok(v@.subrange(a as int, b as int)) && n as nat == digits_value(
                v@.subrange(a as int, b as int),
            ),
            None => !octet_ok(v@.subrange(a as int, b as int)),
        },
{
    let ghost t = v@.subrange(a as int, b as int);
    if b - a < 1 || b - a > 3 {
        return None;
    }
    let mut acc: u64 = 0;
    let mut i = a;
    while i < b
        invariant
            a <= i <= b <= v.len(),
            b - a <= 3,
            t == v@.subrange(a as int, b as int),
            all_digits(t.take(i - a)),
            acc as nat == digits_value(t.take(i - a)),
            i - a == 0 ==> acc == 0,
            i - a == 1 ==> acc < 10,
            i - a == 2 ==> acc < 100,
            i - a == 3 ==> acc < 1000,
        decreases b - i,
    {
        let c = v[i];
        if !(0x30 <= (c as u32) && (c as u32) <= 0x39) {
            assert(t[i - a] == c);
            assert(!all_digits(t));
            return None;
        }
        let k = i - a;
        assert(t.take(k + 1).drop_last() =~= t.take(k as int));
        assert(all_digits(t.take(k + 1))) by {
            assert forall|j: int| 0 <= j < k + 1 implies crate::text::is_digit(
                #[trigger] t.take(k + 1)[j],
            ) by {
                if j < k {
                    assert(t.take(k + 1)[j] == t.take(k as int)[j]);
                }
            }
        }
        acc = acc * 10 + ((c as u32) - 0x30) as u64;
        i = i + 1;
    }
    assert(t.take(b - a) =~= t);
    if b - a > 1 && v[a] == '0' {
        return None;
    }
    if acc > 255 {
        return None;
    }
    Some(acc)
}

/// The IPv4 address that `v[lo..hi]` denotes.
fn parse_ipv4_at(v: &Vec<char>, lo: usize, hi: usize) -> (r: Option<u32>)
    requires
        lo <= hi <= v.len(),
    ensures
        r == ipv4_value(v@.subrange(lo as int, hi as int)),
{
    let mut pos = lo;
    let mut acc: u64 = 0;
    let mut k: usize = 0;
    while k < 3
        invariant
            lo <= pos <= hi <= v.len(),
            k <= 3,
            octets_value(v@.subrange(lo as int, hi as int), 4, 0) == octets_value(
                v@.subrange(pos as int, hi as int),
                (4 - k) as nat,
                acc as nat,
            ),
            k == 0 ==> acc == 0,
            k == 1 ==> acc < 0x100,
            k == 2 ==> acc < 0x1_0000,
            k == 3 ==> acc < 0x100_0000,
        decreases 3 - k,
    {
        let ghost s = v@.subrange(pos as int, hi as int);
        let i = find_char(v, pos, hi, '.');
        if i == hi {
            return None;
        }
        assert(s.take(i - pos) =~= v@.subrange(pos as int, i as int));
        assert(s.skip(i - pos + 1) =~= v@.subrange(i + 1, hi as int));
        match octet_at(v, pos, i) {
            None => {
                return None;
            },
            Some(o) => {
                acc = acc * 256 + o;
                pos = i + 1;
            },
        }
        k = k + 1;
    }
    let i = find_char(v, pos, hi, '.');
    if i != hi {
        return None;
    }
    match octet_at(v, pos, hi) {
        None => None,
        Some(o) => Some((acc * 256 + o) as u32),
    }
}

fn hex_digit_of(c: char) -> (r: Option<u32>)
    ensures
        r is Some <==> is_hex(c),
        r is Some ==> r->0 as nat == hex_digit_value(c) && r->0 < 16,
{
    let u = c as u32;
    if 0x30 <= u && u <= 0x39 {
        Some(u - 0x30)
    } else if 0x41 <= u && u <= 0x46 {
        Some(u - 0x41 + 10)
    } else if 0x61 <= u && u <= 0x66 {
        Some(u - 0x61 + 10)
    } else {
        None
    }
}

fn hex_group_at(v: &Vec<char>, a: usize, b: usize) -> (r: Option<u32>)
    requires
        a <= b <= v.len(),
    ensures
        r is Some <==> hex_group(v@.subrange(a as int, b as int)),
        r is Some ==> r->0 as nat == hex_value(v@.subrange(a as int, b as int)) && r->0 < 0x10000,
{
    let ghost t = v@.subrange(a as int, b as int);
    if b - a < 1 || b - a > 4 {
        return None;
    }
    let mut acc: u32 = 0;
    let mut i = a;
    while i < b
        invariant
            a <= i <= b <= v.len(),
            b - a <= 4,
            t == v@.subrange(a as int, b as int),
            forall|j: int| 0 <= j < i - a ==> is_hex(#[trigger] t[j]),
            acc as nat == hex_value(t.take(i - a)),
            i - a == 0 ==> acc == 0,
            i - a == 1 ==> acc < 0x10,
            i - a == 2 ==> acc < 0x100,
            i - a == 3 ==> acc < 0x1000,
            i - a == 4 ==> acc < 0x10000,
        decreases b - i,
    {
        let k = i - a;
        assert(t[k as int] == v@[i as int]);
        match hex_digit_of(v[i]) {
            None => {
                return None;
            },
            Some(d) => {
                assert(t.take(k + 1).drop_last() =~= t.take(k as int));
                acc = acc * 16 + d;
            },
        }
        i = i + 1;
    }
    assert(t.take(b - a) =~= t);
    Some(acc)
}

/// `groups_of` on `v[lo..hi]`.
fn groups_at(v: &Vec<char>, lo: usize, hi: usize, v4_last: bool) -> (r: Option<Vec<u32>>)
    requires
        lo <= hi <= v.len(),
    ensures
        match groups_of(v@.subrange(lo as int, hi as int), v4_last) {
            None => r is None,
            Some(g) => r is Some && r->0@.map_values(|x: u32| x as nat) == g && forall|k: int|
                0 <= k < r->0@.len() ==> #[trigger] r->0@[k] < 0x10000,
        },
{
    let mut vals: Vec<u32> = Vec::new();
    let mut pos = lo;
    loop
        invariant
            lo <= pos <= hi <= v.len(),
            forall|k: int| 0 <= k < vals@.len() ==> #[trigger] vals@[k] < 0x10000,
            groups_of(v@.subrange(lo as int, hi as int), v4_last) == match groups_of(
                v@.subrange(pos as int, hi as int),
                v4_last,
            ) {
                Some(rest) => Some(vals@.map_values(|x: u32| x as nat) + rest),
                None => None::<Seq<nat>>,
            },
        decreases hi - pos,
    {
        let ghost s = v@.subrange(pos as int, hi as int);
        let i = find_char(v, pos, hi, ':');
        if i == hi {
            assert(s.take(i - pos) =~= s);
            match hex_group_at(v, pos, hi) {
                Some(g) => {
                    let ghost before = vals@;
                    vals.push(g);
                    assert(vals@.map_values(|x: u32| x as nat) =~= before.map_values(
                        |x: u32| x as nat,
                    ) + seq![g as nat]);
                    return Some(vals);
                },
                None => {
                    if !v4_last {
                        return None;
                    }
                    match parse_ipv4_at(v, pos, hi) {
                        None => {
                            return None;
                        },
                        Some(n) => {
                            let ghost before = vals@;
                            let hi_part = n >> 16;
                            let lo_part = n & 0xffff;
                            assert(hi_part < 0x10000) by (bit_vector)
                                requires
                                    hi_part == n >> 16u32,
                            ;
                            assert(lo_part < 0x10000) by (bit_vector)
                                requires
                                    lo_part == n & 0xffffu32,
                            ;
                            vals.push(hi_part);
                            vals.push(lo_part);
                            assert(vals@.map_values(|x: u32| x as nat) =~= before.map_values(
                                |x: u32| x as nat,
                            ) + seq![hi_part as nat, lo_part as nat]);
                            return Some(vals);
                        },
                    }
                },
            }
        }
        assert(s.take(i - pos) =~= v@.subrange(pos as int, i as int));
        assert(s.skip(i - pos + 1) =~= v@.subrange(i + 1, hi as int));
        match hex_group_at(v, pos, i) {
            None => {
                return None;
            },
            Some(g) => {
                let ghost before = vals@;
                vals.push(g);
                assert(vals@.map_values(|x: u32| x as nat) =~= before.map_values(
                    |x: u32| x as nat,
                ) + seq![g as nat]);
                proof {
                    match groups_of(v@.subrange(i + 1, hi as int), v4_last) {
                        Some(rest) => {
                            assert(before.map_values(|x: u32| x as nat) + (seq![g as nat]
                                + rest) =~= vals@.map_values(|x: u32| x as nat) + rest);
                        },
                        None => {},
                    }
                }
                pos = i + 1;
            },
        }
    }
}

fn side_groups_at(v: &Vec<char>, lo: usize, hi: usize, v4_last: bool) -> (r: Option<Vec<u32>>)
    requires
        lo <= hi <= v.len(),
    ensures
        match side_groups(v@.subrange(lo as int, hi as int), v4_last) {
            None => r is None,
            Some(g) => r is Some && r->0@.map_values(|x: u32| x as nat) == g && forall|k: int|
                0 <= k < r->0@.len() ==> #[trigger] r->0@[k] < 0x10000,
        },
{
    if lo == hi {
        let e: Vec<u32> = Vec::new();
        assert(e@.map_values(|x: u32| x as nat) =~= Seq::<nat>::empty());
        Some(e)
    } else {
        groups_at(v, lo, hi, v4_last)
    }
}

fn find_double_colon(v: &Vec<char>, lo: usize, hi: usize) -> (r: usize)
    requires
        lo <= hi <= v.len(),
    ensures
        lo <= r <= hi,
        r < hi ==> r + 2 <= hi,
        r - lo == double_colon(v@.subrange(lo as int, hi as int)),
{
    let mut i = lo;
    while hi > 0 && i < hi - 1 && !(v[i] == ':' && v[i + 1] == ':')
        invariant
            lo <= i <= hi <= v.len(),
            double_colon(v@.subrange(lo as int, hi as int)) == (i - lo) + double_colon(
                v@.subrange(i as int, hi as int),
            ),
        decreases hi - i,
    {
        assert(v@.subrange(i as int, hi as int).drop_first() =~= v@.subrange(i + 1, hi as int));
        i = i + 1;
    }
    if hi > 0 && i < hi - 1 {
        i
    } else {
        hi
    }
}

proof fn lemma_push_nat(s: Seq<u32>, x: u32)
    ensures
        s.push(x).map_values(|y: u32| y as nat) =~= s.map_values(|y: u32| y as nat).push(
            x as nat,
        ),
{
}

fn pack_groups(g: &Vec<u32>) -> (r: u128)
    ensures
        r == groups_bits(g@.map_values(|x: u32| x as nat)),
{
    let mut acc: u128 = 0;
    for k in 0..g.len()
        invariant
            acc == groups_bits(g@.take(k as int).map_values(|x: u32| x as nat)),
    {
        assert(g@.take(k + 1).map_values(|x: u32| x as nat).drop_last() =~= g@.take(
            k as int,
        ).map_values(|x: u32| x as nat));
        acc = (acc << 16u128) | (g[k] as u128);
    }
    assert(g@.take(g@.len() as int) =~= g@);
    acc
}

/// The IPv6 groups that `v[lo..hi]` denotes.
fn parse_ipv6_at(v: &Vec<char>, lo: usize, hi: usize) -> (r: Option<u128>)
    requires
        lo <= hi <= v.len(),
    ensures
        match ipv6_groups(v@.subrange(lo as int, hi as int)) {
            Some(g) => r == Some(groups_bits(g)),
            None => r is None,
        },
{
    let ghost s = v@.subrange(lo as int, hi as int);
    let d = find_double_colon(v, lo, hi);
    if d >= hi {
        match groups_at(v, lo, hi, true) {
            Some(g) => {
                if g.len() == 8 {
                    Some(pack_groups(&g))
                } else {
                    None
                }
            },
            None => None,
        }
    } else {
        assert(s.take(d - lo) =~= v@.subrange(lo as int, d as int));
        assert(s.skip(d - lo + 2) =~= v@.subrange(d + 2, hi as int));
        let head = side_groups_at(v, lo, d, false);
        let tail = side_groups_at(v, d + 2, hi, true);
        match (head, tail) {
            (Some(h), Some(t)) => {
                if h.len() <= 7 && t.len() <= 7 - h.len() {
                    let ghost hv = h@.map_values(|x: u32| x as nat);
                    let ghost tv = t@.map_values(|x: u32| x as nat);
                    let zeros = 8 - h.len() - t.len();
                    let mut all: Vec<u32> = Vec::new();
                    for k in 0..h.len()
                        invariant
                            all@.map_values(|x: u32| x as nat) == hv.take(k as int),
                            hv == h@.map_values(|x: u32| x as nat),
                    {
                        proof {
                            lemma_push_nat(all@, h@[k as int]);
                        }
                        all.push(h[k]);
                        assert(hv.take(k + 1) =~= hv.take(k as int).push(hv[k as int]));
                    }
                    assert(hv.take(hv.len() as int) =~= hv);
                    for k in 0..zeros
                        invariant
                            all@.map_values(|x: u32| x as nat) == hv + Seq::new(
                                k as nat,
                                |i: int| 0nat,
                            ),
                    {
                        proof {
                            lemma_push_nat(all@, 0);
                        }
                        all.push(0);
                        assert(hv + Seq::new((k + 1) as nat, |i: int| 0nat) =~= (hv + Seq::new(
                            k as nat,
                            |i: int| 0nat,
                        )).push(0nat));
                    }
                    let ghost mid = hv + Seq::new(zeros as nat, |i: int| 0nat);
                    for k in 0..t.len()
                        invariant
                            all@.map_values(|x: u32| x as nat) == mid + tv.take(k as int),
                            tv == t@.map_values(|x: u32| x as nat),
                    {
                        proof {
                            lemma_push_nat(all@, t@[k as int]);
                        }
                        all.push(t[k]);
                        assert(mid + tv.take(k + 1) =~= (mid + tv.take(k as int)).push(
                            tv[k as int],
                        ));
                    }
                    assert(tv.take(tv.len() as int) =~= tv);
                    Some(pack_groups(&all))
                } else {
                    None
                }
            },
            _ => None,
        }
    }
}

/// The address that `v[lo..hi]` denotes.
fn parse_ip_at(v: &Vec<char>, lo: usize, hi: usize) -> (r: Option<IpAddress>)
    requires
        lo <= hi <= v.len(),
    ensures
        r == parse_ip(v@.subrange(lo as int, hi as int)),
{
    match parse_ipv4_at(v, lo, hi) {
        Some(n) => Some(IpAddress::V4(n)),
        None => match parse_ipv6_at(v, lo, hi) {
            Some(n) => Some(IpAddress::V6(n)),
            None => None,
        },
    }
}

impl IpAddress {
    /// Reads an address from its text form.
    pub fn parse(s: &str) -> (r: Option<IpAddress>)
        ensures
            r == parse_ip(s@),
    {
        let v = chars_of(s);
        assert(v@.subrange(0, v@.len() as int) =~= v@);
        parse_ip_at(&v, 0, v.len())
    }
}

fn mask4(p: u32) -> (r: u32)
    requires
        p <= 32,
    ensures
        r == mask_v4(p),
{
    if p == 0 {
        0
    } else {
        0xffff_ffffu32 << (32 - p)
    }
}

fn mask6(p: u32) -> (r: u128)
    requires
        p <= 128,
    ensures
        r == mask_v6(p),
{
    if p == 0 {
        0
    } else {
        0xffff_ffff_ffff_ffff_ffff_ffff_ffff_ffffu128 << ((128 - p) as u128)
    }
}

/// Whether `client` lies in the pre-parsed network.
pub fn ip_matches_parsed(client: &IpAddress, parsed: &ParsedCidr) -> (r: bool)
    ensures
        r == net_match(*client, parsed.ip, parsed.prefix_len),
{
    let p = parsed.prefix_len;
    match (client, &parsed.ip) {
        (IpAddress::V4(c), IpAddress::V4(n)) => {
            if p > 32 {
                return false;
            }
            let m = mask4(p);
            (*c & m) == (*n & m)
        },
        (IpAddress::V6(c), IpAddress::V6(n)) => {
            if p > 128 {
                return false;
            }
            let m = mask6(p);
            (*c & m) == (*n & m)
        },
        _ => false,
    }
}

/// Whether `ip` matches a rule address given as text (`all`, `network/prefix` or one address).
pub fn ip_matches_cidr(ip: &IpAddress, cidr: &str) -> (r: bool)
    ensures
        r == cidr_text_match(*ip, cidr@),
{
    let v = chars_of(cidr);
    let len = v.len();
    assert(v@.subrange(0, len as int) =~= v@);
    let all = chars_of("all");
    if chars_eq_at(&v, 0, len, &all) {
        return true;
    }
    let slash = find_char(&v, 0, len, '/');
    if slash < len {
        assert(v@.take(slash as int) =~= v@.subrange(0, slash as int));
        assert(v@.skip(slash + 1) =~= v@.subrange(slash + 1, len as int));
        let network = parse_ip_at(&v, 0, slash);
        let prefix = parse_u64_at(&v, slash + 1, len);
        match (network, prefix) {
            (Some(n), Some(p)) => {
                if p > u32::MAX as u64 {
                    false
                } else {
                    ip_matches_parsed(ip, &ParsedCidr { ip: n, prefix_len: p as u32 })
                }
            },
            _ => false,
        }
    } else {
        match parse_ip_at(&v, 0, len) {
            Some(a) => a == *ip,
            None => false,
        }
    }
}

/// Reads a rule address once into its numeric form, for matching without parsing.
pub fn parse_cidr(text: &str) -> (r: Option<ParsedCidr>)
    ensures
        r == cidr_of(text@),
{
    let v = chars_of(text);
    let len = v.len();
    assert(v@.subrange(0, len as int) =~= v@);
    let slash = find_char(&v, 0, len, '/');
    if slash < len {
        assert(v@.take(slash as int) =~= v@.subrange(0, slash as int));
        assert(v@.skip(slash + 1) =~= v@.subrange(slash + 1, len as int));
        match (parse_ip_at(&v, 0, slash), parse_u64_at(&v, slash + 1, len)) {
            (Some(n), Some(p)) => {
                if p > u32::MAX as u64 {
                    None
                } else {
                    Some(ParsedCidr { ip: n, prefix_len: p as u32 })
                }
            },
            _ => None,
        }
    } else {
        match parse_ip_at(&v, 0, len) {
            Some(a) => {
                let width: u32 = match a {
                    IpAddress::V4(_) => 32,
                    IpAddress::V6(_) => 128,
                };
                Some(ParsedCidr { ip: a, prefix_len: width })
            },
            None => None,
        }
    }
}

/// Whether the client-address gate of `acl` passes: vacuously with no rules, otherwise by
/// the directive of the last matching rule, and never without a client address.
pub fn check_ip_access(acl: &AccessListConfig, client_ip: Option<&IpAddress>) -> (r: bool)
    ensures
        r == ip_passes(*acl, opt_ip(client_ip)),
{
    if acl.clients.len() == 0 {
        return true;
    }
    let ip = match client_ip {
        Some(ip) => ip,
        None => {
            return false;
        },
    };
    let mut result = false;
    let mut i: usize = 0;
    while i < acl.clients.len()
        invariant
            i <= acl.clients@.len(),
            result == rules_verdict(*ip, acl.clients@.take(i as int)),
        decreases acl.clients.len() - i,
    {
        let client = &acl.clients[i];
        let matched = match &client.parsed_cidr {
            Some(parsed) => ip_matches_parsed(ip, parsed),
            None => ip_matches_cidr(ip, &client.address),
        };
        assert(acl.clients@.take(i + 1).drop_last() =~= acl.clients@.take(i as int));
        assert(acl.clients@.take(i + 1).last() == acl.clients@[i as int]);
        if matched {
            result = same_text(&client.directive, "allow");
        }
        i = i + 1;
    }
    assert(acl.clients@.take(acl.clients@.len() as int) =~= acl.clients@);
    result
}

/// Relies on the `base64` crate's standard engine (`Engine::decode`): `None` where it
/// reports an error, the decoded bytes otherwise.
#[verifier::external_body]
fn decode_base64(text: &str) -> (r: Option<Vec<u8>>)
    ensures
        match r {
            Some(b) => base64_decoded(text@) == Some(b@),
            None => base64_decoded(text@) is None,
        },
{
    base64::Engine::decode(&base64::engine::general_purpose::STANDARD, text).ok()
}

/// Relies on `String::from_utf8`: it succeeds exactly on valid UTF-8, with the decoded text.
#[verifier::external_body]
fn utf8_text(bytes: Vec<u8>) -> (r: Option<String>)
    ensures
        r is Some <==> valid_utf8(bytes@),
        r is Some ==> r->0@ == decode_utf8(bytes@),
{
    String::from_utf8(bytes).ok()
}

/// Whether decoded credential bytes are UTF-8 `user:password` naming one of `entries`.
pub fn decoded_credentials_accepted(entries: &Vec<AccessListAuthEntry>, bytes: Vec<u8>) -> (r:
    bool)
    ensures
        r == decoded_credentials_match(entries@, bytes@),
{
    let ghost b = bytes@;
    let text = match utf8_text(bytes) {
        Some(t) => t,
        None => {
            return false;
        },
    };
    let v = chars_of(text.as_str());
    let len = v.len();
    let colon = find_char(&v, 0, len, ':');
    assert(v@.subrange(0, len as int) =~= v@);
    if colon == len {
        return false;
    }
    assert(v@.take(colon as int) =~= v@.subrange(0, colon as int));
    assert(v@.skip(colon + 1) =~= v@.subrange(colon + 1, len as int));
    let mut k: usize = 0;
    while k < entries.len()
        invariant
            k <= entries@.len(),
            colon < len == v@.len(),
            colon == index_of(v@, ':'),
            valid_utf8(b),
            v@ == decode_utf8(b),
            b == bytes@,
            forall|j: int|
                0 <= j < k ==> !((#[trigger] entries@[j]).username@ == v@.take(colon as int)
                    && entries@[j].password@ == v@.skip(colon + 1)),
        decreases entries.len() - k,
    {
        let entry = &entries[k];
        let user = chars_of(entry.username.as_str());
        let pass = chars_of(entry.password.as_str());
        if chars_eq_at(&v, 0, colon, &user) && chars_eq_at(&v, colon + 1, len, &pass) {
            assert(entries@[k as int] == *entry);
            assert(credentials_match(entries@, v@));
            return true;
        }
        k = k + 1;
    }
    false
}

/// Whether the basic-auth gate of `acl` passes: vacuously with no entries, otherwise the
/// header must be `Basic ` followed by base64 of `user:password` naming an entry.
pub fn check_auth_access(acl: &AccessListConfig, auth_header: Option<&str>) -> (r: bool)
    ensures
        r == auth_passes(*acl, opt_text(auth_header)),
{
    if acl.auth.len() == 0 {
        return true;
    }
    let header = match auth_header {
        Some(h) => h,
        None => {
            return false;
        },
    };
    let v = chars_of(header);
    let len = v.len();
    if len < 6 {
        return false;
    }
    let basic = chars_of("Basic ");
    assert(v@.take(6) =~= v@.subrange(0, 6));
    if !chars_eq_at(&v, 0, 6, &basic) {
        return false;
    }
    let encoded = header.substring_char(6, len);
    assert(encoded@ =~= header@.skip(6));
    match decode_base64(encoded) {
        None => false,
        Some(bytes) => decoded_credentials_accepted(&acl.auth, bytes),
    }
}

/// Evaluates an access list against a request's client address and `Authorization` header.
pub fn check_access(acl: &AccessListConfig, client_ip: Option<&IpAddress>, auth_header: Option<
    &str,
>) -> (r: AccessResult)
    ensures
        r == access_verdict(*acl, opt_ip(client_ip), opt_text(auth_header)),
{
    let ip_ok = check_ip_access(acl, client_ip);
    let auth_ok = check_auth_access(acl, auth_header);
    let no_clients = acl.clients.len() == 0;
    let no_auth = acl.auth.len() == 0;
    if same_text(&acl.satisfy, "all") {
        if !ip_ok {
            AccessResult::Denied
        } else if !no_auth && !auth_ok {
            AccessResult::AuthRequired
        } else {
            AccessResult::Allowed
        }
    } else if no_clients && no_auth {
        AccessResult::Allowed
    } else if ip_ok && !no_clients {
        AccessResult::Allowed
    } else if auth_ok && !no_auth {
        AccessResult::Allowed
    } else if !no_auth {
        AccessResult::AuthRequired
    } else {
        AccessResult::Denied
    }
}

// ---------------------------------------------------------------- laws

/// A prefix of 0 admits every address of the network's family; a prefix of the family's
/// full width admits exactly the network address.
pub proof fn prefix_extremes(client: IpAddress, network: IpAddress)
    ensures
        (client is V4 && network is V4) || (client is V6 && network is V6) ==> net_match(
            client,
            network,
            0,
        ),
        client is V4 && network is V4 ==> (net_match(client, network, 32) <==> client == network),
        client is V6 && network is V6 ==> (net_match(client, network, 128) <==> client
            == network),
{
    match (client, network) {
        (IpAddress::V4(c), IpAddress::V4(n)) => {
            assert((0xffff_ffffu32 << 0u32) == 0xffff_ffffu32) by (bit_vector);
            assert((c & 0xffff_ffffu32) == c && (n & 0xffff_ffffu32) == n) by (bit_vector);
            assert((c & 0u32) == 0u32 && (n & 0u32) == 0u32) by (bit_vector);
        },
        (IpAddress::V6(c), IpAddress::V6(n)) => {
            assert((0xffff_ffff_ffff_ffff_ffff_ffff_ffff_ffffu128 << 0u128)
                == 0xffff_ffff_ffff_ffff_ffff_ffff_ffff_ffffu128) by (bit_vector);
            assert((c & 0xffff_ffff_ffff_ffff_ffff_ffff_ffff_ffffu128) == c && (n
                & 0xffff_ffff_ffff_ffff_ffff_ffff_ffff_ffffu128) == n) by (bit_vector);
            assert((c & 0u128) == 0u128 && (n & 0u128) == 0u128) by (bit_vector);
        },
        _ => {},
    }
}

/// A prefix longer than the family's width matches nothing, and families never mix.
pub proof fn prefix_beyond_width(client: IpAddress, network: IpAddress, p: u32)
    ensures
        network is V4 && p > 32 ==> !net_match(client, network, p),
        network is V6 && p > 128 ==> !net_match(client, network, p),
        client is V4 && network is V6 ==> !net_match(client, network, p),
        client is V6 && network is V4 ==> !net_match(client, network, p),
{
}

/// Matching against the pre-parsed form of a rule address agrees with matching against
/// its text (`all` aside, which has no pre-parsed form).
pub proof fn parsed_form_agrees(client: IpAddress, text: Seq<char>)
    requires
        text != "all"@,
        cidr_of(text) is Some,
    ensures
        net_match(client, cidr_of(text)->0.ip, cidr_of(text)->0.prefix_len) == cidr_text_match(
            client,
            text,
        ),
{
    let pc = cidr_of(text)->0;
    if index_of(text, '/') >= text.len() {
        prefix_extremes(client, pc.ip);
    }
}

/// An access list with neither client rules nor credentials admits every request.
pub proof fn empty_list_allows(
    acl: AccessListConfig,
    client: Option<IpAddress>,
    header: Option<Seq<char>>,
)
    requires
        acl.clients@.len() == 0,
        acl.auth@.len() == 0,
    ensures
        access_verdict(acl, client, header) == AccessResult::Allowed,
{
}

pub proof fn lemma_index_of_concat(a: Seq<char>, b: Seq<char>, c: char)
    requires
        !a.contains(c),
    ensures
        index_of(a + b, c) == a.len() + index_of(b, c),
    decreases a.len(),
{
    if a.len() > 0 {
        assert(a[0] != c);
        assert((a + b).drop_first() =~= a.drop_first() + b);
        assert(!a.drop_first().contains(c)) by {
            if a.drop_first().contains(c) {
                let j = choose|j: int| 0 <= j < a.drop_first().len() && a.drop_first()[j] == c;
                assert(a[j + 1] == c);
            }
        }
        lemma_index_of_concat(a.drop_first(), b, c);
    } else {
        assert(a + b =~= b);
    }
}

/// `Basic` credentials whose base64 payload decodes to `user:password` of an entry pass the
/// basic-auth gate (a user name holds no colon, since the first colon splits the two).
pub proof fn basic_credentials_pass(
    acl: AccessListConfig,
    header: Seq<char>,
    bytes: Seq<u8>,
    k: int,
)
    requires
        0 <= k < acl.auth@.len(),
        !acl.auth@[k].username@.contains(':'),
        header.len() >= 6,
        header.take(6) == "Basic "@,
        base64_decoded(header.skip(6)) == Some(bytes),
        valid_utf8(bytes),
        decode_utf8(bytes) == acl.auth@[k].username@ + seq![':'] + acl.auth@[k].password@,
    ensures
        auth_passes(acl, Some(header)),
{
    let user = acl.auth@[k].username@;
    let pass = acl.auth@[k].password@;
    let text = decode_utf8(bytes);
    assert(text =~= user + (seq![':'] + pass));
    lemma_index_of_concat(user, seq![':'] + pass, ':');
    assert(index_of(seq![':'] + pass, ':') == 0);
    assert(text.take(user.len() as int) =~= user);
    assert(text.skip(user.len() as int + 1) =~= pass);
    assert(credentials_match(acl.auth@, text));
}

/// A password that no entry for the user names fails the basic-auth gate; in `any` mode
/// without client rules the verdict is then `AuthRequired`.
pub proof fn altered_password_rejected(
    acl: AccessListConfig,
    header: Seq<char>,
    bytes: Seq<u8>,
    user: Seq<char>,
    pass: Seq<char>,
    client: Option<IpAddress>,
)
    requires
        acl.auth@.len() > 0,
        !user.contains(':'),
        forall|j: int|
            0 <= j < acl.auth@.len() && (#[trigger] acl.auth@[j]).username@ == user
                ==> acl.auth@[j].password@ != pass,
        header.len() >= 6,
        header.take(6) == "Basic "@,
        base64_decoded(header.skip(6)) == Some(bytes),
        valid_utf8(bytes),
        decode_utf8(bytes) == user + seq![':'] + pass,
    ensures
        !auth_passes(acl, Some(header)),
        acl.clients@.len() == 0 && acl.satisfy@ != "all"@ ==> access_verdict(
            acl,
            client,
            Some(header),
        ) == AccessResult::AuthRequired,
{
    let text = decode_utf8(bytes);
    assert(text =~= user + (seq![':'] + pass));
    lemma_index_of_concat(user, seq![':'] + pass, ':');
    assert(index_of(seq![':'] + pass, ':') == 0);
    assert(text.take(user.len() as int) =~= user);
    assert(text.skip(user.len() as int + 1) =~= pass);
}

} // verus!
