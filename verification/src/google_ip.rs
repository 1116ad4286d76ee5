//! Choosing the IPv4 address that Google Translate requests connect to: the
//! address list, the ranked pool of probed addresses, and which address the
//! client is pinned to.
use vstd::prelude::*;
use crate::servers::{lines_of, spec_lines};
use crate::text::{spec_decimal, spec_is_ascii_digit, spec_split, spec_starts_with, spec_trim, digits_value};

verus! {

/// How many ranked addresses the pool keeps.
pub const TOP_IPS: usize = 20;

/// How many addresses are probed per batch while scanning.
pub const SCAN_BATCH_SIZE: usize = 1000;

/// A cached pool older than this many seconds (seven days) is refreshed.
pub const CACHE_REFRESH_AGE_SECS: u64 = 604_800;

/// An IPv4 address, by its four octets.
pub type Ipv4 = (u8, u8, u8, u8);

/// A probed address and how long it took to answer.
#[derive(Debug, Clone, PartialEq, Eq)]
pub struct GoogleTranslateIp {
    pub ip: String,
    pub latency_ms: u64,
}

/// One octet as `Ipv4Addr::from_str` reads it: one to three decimal digits,
/// no leading zero but in `0` itself, at most 255.
pub open spec fn spec_octet(s: Seq<char>) -> Option<u8> {
    if 1 <= s.len() <= 3 && (forall|i: int| 0 <= i < s.len() ==> spec_is_ascii_digit(#[trigger] s[i]))
        && !(s.len() > 1 && s[0] == '0') && digits_value(s) <= 255 {
        Some(digits_value(s) as u8)
    } else {
        None
    }
}

/// A dotted-quad IPv4 address, the only form of `IpAddr::from_str` that
/// `is_ipv4` keeps.
pub open spec fn spec_ipv4(s: Seq<char>) -> Option<Ipv4> {
    let parts = spec_split(s, '.');
    if parts.len() == 4 {
        match (spec_octet(parts[0]), spec_octet(parts[1]), spec_octet(parts[2]), spec_octet(parts[3])) {
            (Some(a), Some(b), Some(c), Some(d)) => Some((a, b, c, d)),
            _ => None,
        }
    } else {
        None
    }
}

/// `parse_ipv4`: the trimmed text as an IPv4 address.
pub open spec fn spec_parse_ipv4(s: Seq<char>) -> Option<Ipv4> {
    spec_ipv4(spec_trim(s))
}

/// `Ipv4Addr::to_string`: the four octets in decimal, joined by dots.
pub open spec fn spec_ipv4_text(ip: Ipv4) -> Seq<char> {
    spec_decimal(ip.0 as nat) + "."@ + spec_decimal(ip.1 as nat) + "."@ + spec_decimal(ip.2 as nat) + "."@
        + spec_decimal(ip.3 as nat)
}

fn octet(s: &Vec<char>) -> (r: Option<u8>)
    ensures
        r == spec_octet(s@),
{
    if s.len() < 1 || s.len() > 3 {
        return None;
    }
    if s.len() > 1 && s[0] == '0' {
        return None;
    }
    let mut value: u32 = 0;
    let mut i: usize = 0;
    while i < s.len()
        invariant
            1 <= s.len() <= 3,
            i <= s.len(),
            forall|k: int| 0 <= k < i ==> spec_is_ascii_digit(#[trigger] s@[k]),
            value == digits_value(s@.subrange(0, i as int)),
            i == 0 ==> value == 0,
            i == 1 ==> value < 10,
            i == 2 ==> value < 100,
            i == 3 ==> value < 1000,
        decreases s.len() - i,
    {
        let c = s[i];
        if !crate::text::is_ascii_digit(c) {
            return None;
        }
        assert(s@.subrange(0, i + 1).drop_last() =~= s@.subrange(0, i as int));
        value = value * 10 + ((c as u32) - 48);
        i += 1;
    }
    assert(s@.subrange(0, s@.len() as int) =~= s@);
    if value > 255 {
        return None;
    }
    Some(value as u8)
}

fn ipv4(v: &Vec<char>) -> (r: Option<Ipv4>)
    ensures
        r == spec_ipv4(v@),
{
    let parts = crate::text::split_chars(v, '.');
    if parts.len() != 4 {
        return None;
    }
    let a = octet(&parts[0]);
    let b = octet(&parts[1]);
    let c = octet(&parts[2]);
    let d = octet(&parts[3]);
    match (a, b, c, d) {
        (Some(a), Some(b), Some(c), Some(d)) => Some((a, b, c, d)),
        _ => None,
    }
}

/// The address a text names, trimmed; none unless it is a dotted-quad IPv4.
pub fn parse_ipv4(value: &str) -> (r: Option<Ipv4>)
    ensures
        r == spec_parse_ipv4(value@),
{
    let v = crate::text::chars_of(value);
    let t = crate::text::trimmed(&v);
    ipv4(&t)
}

/// `ip.to_string()`.
pub fn ipv4_text(ip: Ipv4) -> (r: String)
    ensures
        r@ == spec_ipv4_text(ip),
{
    let a = crate::text::decimal(ip.0 as u64);
    let b = crate::text::decimal(ip.1 as u64);
    let c = crate::text::decimal(ip.2 as u64);
    let d = crate::text::decimal(ip.3 as u64);
    let s1 = crate::text::concat(a.as_str(), ".");
    let s2 = crate::text::concat(s1.as_str(), b.as_str());
    let s3 = crate::text::concat(s2.as_str(), ".");
    let s4 = crate::text::concat(s3.as_str(), c.as_str());
    let s5 = crate::text::concat(s4.as_str(), ".");
    crate::text::concat(s5.as_str(), d.as_str())
}

/// The addresses an IP list line names: trimmed, neither empty nor a `#`
/// comment, a dotted-quad IPv4.
pub open spec fn spec_list_line(line: Seq<char>) -> Option<Ipv4> {
    let t = spec_trim(line);
    if t.len() == 0 || spec_starts_with(t, "#"@) {
        None
    } else {
        spec_ipv4(t)
    }
}

/// The addresses of an IP list, in order, each the first time it appears.
pub open spec fn spec_ip_list(lines: Seq<Seq<char>>) -> Seq<Ipv4>
    decreases lines.len(),
{
    if lines.len() == 0 {
        Seq::empty()
    } else {
        let rest = spec_ip_list(lines.drop_last());
        match spec_list_line(lines.last()) {
            Some(ip) => if rest.contains(ip) {
                rest
            } else {
                rest.push(ip)
            },
            None => rest,
        }
    }
}

fn contains_ip(v: &Vec<Ipv4>, ip: Ipv4) -> (r: bool)
    ensures
        r == v@.contains(ip),
{
    let mut i: usize = 0;
    while i < v.len()
        invariant
            i <= v.len(),
            forall|k: int| 0 <= k < i ==> v@[k] != ip,
        decreases v.len() - i,
    {
        let x = v[i];
        if x.0 == ip.0 && x.1 == ip.1 && x.2 == ip.2 && x.3 == ip.3 {
            assert(v@[i as int] == ip);
            return true;
        }
        i += 1;
    }
    false
}

/// The IPv4 addresses of a downloaded list, in order and each once.
pub fn parse_ip_list(content: &str) -> (r: Vec<Ipv4>)
    ensures
        r@ == spec_ip_list(spec_lines(content@)),
{
    let lines = lines_of(content);
    let ghost ls = spec_lines(content@);
    let hash = crate::text::chars_of("#");
    let mut out: Vec<Ipv4> = Vec::new();
    let mut i: usize = 0;
    while i < lines.len()
        invariant
            i <= lines.len(),
            ls == spec_lines(content@),
            lines@.len() == ls.len(),
            hash@ == "#"@,
            forall|k: int| 0 <= k < lines@.len() ==> (#[trigger] lines@[k])@ == ls[k],
            out@ == spec_ip_list(ls.subrange(0, i as int)),
        decreases lines.len() - i,
    {
        proof {
            assert(ls.subrange(0, i + 1).drop_last() =~= ls.subrange(0, i as int));
            assert(ls.subrange(0, i + 1).last() == ls[i as int]);
        }
        let t = crate::text::trimmed(&lines[i]);
        if t.len() > 0 && !crate::text::starts_with(&t, &hash) {
            match ipv4(&t) {
                Some(ip) => {
                    if !contains_ip(&out, ip) {
                        out.push(ip);
                    }
                },
                None => {},
            }
        }
        i += 1;
    }
    assert(ls.subrange(0, lines.len() as int) =~= ls);
    out
}

/// Positions as integers.
pub open spec fn as_ints(s: Seq<usize>) -> Seq<int> {
    s.map_values(|x: usize| x as int)
}

/// A candidate as plain values: its address text and latency.
pub open spec fn cand_view(c: GoogleTranslateIp) -> (Seq<char>, u64) {
    (c.ip@, c.latency_ms)
}

pub open spec fn cand_views(cs: Seq<GoogleTranslateIp>) -> Seq<(Seq<char>, u64)> {
    cs.map_values(|c: GoogleTranslateIp| cand_view(c))
}

/// The address texts of some candidates.
pub open spec fn ip_texts(cs: Seq<(Seq<char>, u64)>) -> Seq<Seq<char>> {
    cs.map_values(|c: (Seq<char>, u64)| c.0)
}

/// The candidates that ranking keeps before it sorts: those whose address
/// parses, each address text the first time it appears.
pub open spec fn spec_rank_filter(cs: Seq<(Seq<char>, u64)>) -> Seq<(Seq<char>, u64)>
    decreases cs.len(),
{
    if cs.len() == 0 {
        Seq::empty()
    } else {
        let rest = spec_rank_filter(cs.drop_last());
        let c = cs.last();
        if spec_parse_ipv4(c.0) is Some && !ip_texts(rest).contains(c.0) {
            rest.push(c)
        } else {
            rest
        }
    }
}

/// Position `x` comes before position `y` when sorting stably by latency.
pub open spec fn rank_before(f: Seq<(Seq<char>, u64)>, x: int, y: int) -> bool {
    f[x].1 < f[y].1 || (f[x].1 == f[y].1 && x < y)
}

/// `perm` lists every position of `f` once, in the order of a stable sort
/// by latency.
pub open spec fn is_rank_order(f: Seq<(Seq<char>, u64)>, perm: Seq<int>) -> bool {
    &&& perm.len() == f.len()
    &&& forall|k: int| 0 <= k < perm.len() ==> 0 <= #[trigger] perm[k] < f.len()
    &&& forall|j: int| 0 <= j < f.len() ==> perm.contains(j)
    &&& forall|a: int, b: int| 0 <= a < b < perm.len() ==> rank_before(f, #[trigger] perm[a], #[trigger] perm[b])
}

/// `r` is the ranked pool of `cs`: the kept candidates sorted stably by
/// latency, the first `TOP_IPS` of them.
pub open spec fn is_ranking(cs: Seq<(Seq<char>, u64)>, r: Seq<(Seq<char>, u64)>) -> bool {
    let f = spec_rank_filter(cs);
    &&& r.len() == (if f.len() < TOP_IPS { f.len() } else { TOP_IPS as nat })
    &&& exists|perm: Seq<int>|
        is_rank_order(f, perm) && forall|k: int| 0 <= k < r.len() ==> r[k] == f[#[trigger] perm[k]]
}

fn contains_text(kept: &Vec<GoogleTranslateIp>, ip: &String) -> (r: bool)
    ensures
        r == ip_texts(cand_views(kept@)).contains(ip@),
{
    let mut i: usize = 0;
    while i < kept.len()
        invariant
            i <= kept.len(),
            forall|k: int| 0 <= k < i ==> kept@[k].ip@ != ip@,
        decreases kept.len() - i,
    {
        if kept[i].ip == *ip {
            assert(ip_texts(cand_views(kept@))[i as int] == ip@);
            return true;
        }
        i += 1;
    }
    proof {
        if ip_texts(cand_views(kept@)).contains(ip@) {
            let k = choose|k: int| 0 <= k < kept@.len() && ip_texts(cand_views(kept@))[k] == ip@;
            assert(kept@[k].ip@ == ip@);
        }
    }
    false
}

/// Ranks probed addresses: drops those that are not IPv4 and repeated
/// address texts (the first stays), sorts stably by latency, and keeps the
/// best `TOP_IPS`.
pub fn rank_candidates(candidates: Vec<GoogleTranslateIp>) -> (r: Vec<GoogleTranslateIp>)
    ensures
        is_ranking(cand_views(candidates@), cand_views(r@)),
{
    let ghost cs = cand_views(candidates@);
    let mut kept: Vec<GoogleTranslateIp> = Vec::new();
    let mut i: usize = 0;
    while i < candidates.len()
        invariant
            i <= candidates.len(),
            cs == cand_views(candidates@),
            cand_views(kept@) == spec_rank_filter(cs.subrange(0, i as int)),
        decreases candidates.len() - i,
    {
        proof {
            assert(cs.subrange(0, i + 1).drop_last() =~= cs.subrange(0, i as int));
            assert(cs.subrange(0, i + 1).last() == cs[i as int]);
        }
        let c = &candidates[i];
        let valid = parse_ipv4(c.ip.as_str()).is_some();
        if valid && !contains_text(&kept, &c.ip) {
            let ghost before = kept@;
            kept.push(GoogleTranslateIp { ip: c.ip.clone(), latency_ms: c.latency_ms });
            assert(cand_views(kept@) =~= cand_views(before).push(cs[i as int]));
        }
        i += 1;
    }
    assert(cs.subrange(0, candidates.len() as int) =~= cs);
    let ghost f = cand_views(kept@);
    let mut order: Vec<usize> = Vec::new();
    let mut n: usize = 0;
    while n < kept.len()
        invariant
            n <= kept.len(),
            f == cand_views(kept@),
            order@.len() == n,
            forall|k: int| 0 <= k < n ==> (#[trigger] order@[k]) < n,
            forall|j: int| 0 <= j < n ==> as_ints(order@).contains(j),
            forall|a: int, b: int| 0 <= a < b < n ==> rank_before(f, #[trigger] order@[a] as int, #[trigger] order@[b] as int),
        decreases kept.len() - n,
    {
        let lat = kept[n].latency_ms;
        let mut p: usize = 0;
        while p < order.len() && kept[order[p]].latency_ms <= lat
            invariant
                p <= order@.len(),
                order@.len() == n,
                n < kept@.len(),
                f == cand_views(kept@),
                lat == f[n as int].1,
                forall|k: int| 0 <= k < n ==> (#[trigger] order@[k]) < n,
                forall|k: int| 0 <= k < p ==> f[(#[trigger] order@[k]) as int].1 <= lat,
            decreases order@.len() - p,
        {
            p += 1;
        }
        proof {
            if p < order@.len() {
                assert(f[order@[p as int] as int].1 > lat);
                assert forall|k: int| p <= k < n implies f[(#[trigger] order@[k]) as int].1 > lat by {
                    if k > p {
                        assert(rank_before(f, order@[p as int] as int, order@[k] as int));
                    }
                }
            }
        }
        let ghost old_order = order@;
        order.insert(p, n);
        proof {
            assert(order@ =~= old_order.subrange(0, p as int).push(n) + old_order.subrange(p as int, old_order.len() as int));
            assert forall|k: int| 0 <= k < n + 1 implies (#[trigger] order@[k]) < n + 1 by {
                if k < p {
                    assert(order@[k] == old_order[k]);
                } else if k > p {
                    assert(order@[k] == old_order[k - 1]);
                }
            }
            assert forall|a: int, b: int| 0 <= a < b < n + 1 implies rank_before(f, #[trigger] order@[a] as int, #[trigger] order@[b] as int) by {
                if b < p {
                    assert(order@[a] == old_order[a] && order@[b] == old_order[b]);
                } else if b == p {
                    assert(order@[a] == old_order[a]);
                } else if a < p {
                    assert(order@[a] == old_order[a] && order@[b] == old_order[b - 1]);
                } else if a == p {
                    assert(order@[b] == old_order[b - 1]);
                } else {
                    assert(order@[a] == old_order[a - 1] && order@[b] == old_order[b - 1]);
                }
            }
            assert forall|j: int| 0 <= j < n + 1 implies as_ints(order@).contains(j) by {
                if j == n {
                    assert(as_ints(order@)[p as int] == j);
                } else {
                    assert(as_ints(old_order).contains(j));
                    let k = choose|k: int| 0 <= k < old_order.len() && #[trigger] as_ints(old_order)[k] == j;
                    if k < p {
                        assert(as_ints(order@)[k] == j);
                    } else {
                        assert(as_ints(order@)[k + 1] == j);
                    }
                }
            }
        }
        n += 1;
    }
    let take = if kept.len() < TOP_IPS {
        kept.len()
    } else {
        TOP_IPS
    };
    let mut out: Vec<GoogleTranslateIp> = Vec::new();
    let mut k: usize = 0;
    while k < take
        invariant
            k <= take,
            take <= kept@.len(),
            order@.len() == kept@.len(),
            f == cand_views(kept@),
            forall|q: int| 0 <= q < kept@.len() ==> (#[trigger] order@[q]) < kept@.len(),
            out@.len() == k,
            forall|q: int| 0 <= q < k ==> cand_view(#[trigger] out@[q]) == f[order@[q] as int],
        decreases take - k,
    {
        let c = &kept[order[k]];
        out.push(GoogleTranslateIp { ip: c.ip.clone(), latency_ms: c.latency_ms });
        k += 1;
    }
    proof {
        let perm = as_ints(order@);
        assert(is_rank_order(f, perm));
        assert forall|q: int| 0 <= q < out@.len() implies cand_views(out@)[q] == f[#[trigger] perm[q]] by {
            assert(cand_view(out@[q]) == f[order@[q] as int]);
        }
    }
    out
}

/// The pool of ranked addresses in memory and the address the client is
/// pinned to. The client itself lives with the caller; `has_client` says
/// whether one was built for `pinned_ip`.
#[derive(Debug)]
pub struct GoogleIpRuntime {
    pub candidates: Vec<GoogleTranslateIp>,
    pub current: usize,
    pub has_client: bool,
    pub pinned_ip: Option<String>,
}

/// What to do for a client request, given the pool.
#[derive(Debug, PartialEq, Eq)]
pub enum ClientChoice {
    /// Hand out the client already pinned to the current address.
    Reuse,
    /// Build a client pinned to this address (now the current one).
    Pin(Ipv4),
    /// No usable address is left: refresh the pool.
    Exhausted,
}

/// The first position at or after `i` whose address parses.
pub open spec fn first_usable_from(cs: Seq<(Seq<char>, u64)>, i: int) -> int
    decreases cs.len() - i,
{
    if i >= cs.len() || i < 0 {
        cs.len() as int
    } else if spec_parse_ipv4(cs[i].0) is Some {
        i
    } else {
        first_usable_from(cs, i + 1)
    }
}

pub open spec fn opt_text(s: Option<String>) -> Option<Seq<char>> {
    match s {
        Some(t) => Some(t@),
        None => None,
    }
}

impl GoogleIpRuntime {
    pub open spec fn views(&self) -> Seq<(Seq<char>, u64)> {
        cand_views(self.candidates@)
    }

    /// The address of the current candidate, if there is one and it parses.
    pub fn current_ip(&self) -> (r: Option<Ipv4>)
        ensures
            self.current < self.candidates@.len() ==> r == spec_parse_ipv4(self.candidates@[self.current as int].ip@),
            self.current >= self.candidates@.len() ==> r is None,
    {
        if self.current < self.candidates.len() {
            parse_ipv4(self.candidates[self.current].ip.as_str())
        } else {
            None
        }
    }

    /// Decides which client serves the next request. The pinned client is
    /// reused while it is pinned to the current candidate; otherwise the
    /// first candidate from the current one on whose address parses becomes
    /// current and is pinned; where none is left, the pool is exhausted.
    pub fn choose_client(&mut self) -> (r: ClientChoice)
        ensures
            final(self).candidates@ == old(self).candidates@,
            ({
                let cs = old(self).views();
                let cur = old(self).current as int;
                let reuse = cur < cs.len() && old(self).has_client && opt_text(old(self).pinned_ip) == Some(cs[cur].0);
                let k = first_usable_from(cs, cur);
                if reuse {
                    r == ClientChoice::Reuse && *final(self) == *old(self)
                } else if cur >= cs.len() {
                    r == ClientChoice::Exhausted && *final(self) == *old(self)
                } else if k < cs.len() {
                    &&& spec_parse_ipv4(cs[k].0) matches Some(ip)
                    &&& r == ClientChoice::Pin(ip)
                    &&& final(self).current == k
                    &&& final(self).has_client
                    &&& opt_text(final(self).pinned_ip) == Some(spec_ipv4_text(ip))
                } else {
                    &&& r == ClientChoice::Exhausted
                    &&& final(self).current == cs.len()
                    &&& !final(self).has_client
                    &&& final(self).pinned_ip is None
                }
            }),
    {
        let ghost cs = self.views();
        let ghost cur = self.current as int;
        if self.current < self.candidates.len() && self.has_client {
            let matches = match &self.pinned_ip {
                Some(p) => *p == self.candidates[self.current].ip,
                None => false,
            };
            if matches {
                return ClientChoice::Reuse;
            }
        }
        if self.current >= self.candidates.len() {
            return ClientChoice::Exhausted;
        }
        loop
            invariant
                self.candidates@ == old(self).candidates@,
                cs == cand_views(self.candidates@),
                cs == old(self).views(),
                cur == old(self).current,
                cur < cs.len(),
                !(old(self).has_client && opt_text(old(self).pinned_ip) == Some(cs[cur].0)),
                cur <= self.current <= self.candidates@.len(),
                first_usable_from(cs, cur) == first_usable_from(cs, self.current as int),
            decreases self.candidates@.len() - self.current,
        {
            if self.current >= self.candidates.len() {
                self.has_client = false;
                self.pinned_ip = None;
                return ClientChoice::Exhausted;
            }
            match self.current_ip() {
                Some(ip) => {
                    assert(cs[self.current as int].0 == self.candidates@[self.current as int].ip@);
                    self.has_client = true;
                    self.pinned_ip = Some(ipv4_text(ip));
                    return ClientChoice::Pin(ip);
                },
                None => {
                    assert(cs[self.current as int].0 == self.candidates@[self.current as int].ip@);
                    self.current = self.current + 1;
                    self.has_client = false;
                    self.pinned_ip = None;
                },
            }
        }
    }

    /// The current address failed: move on to the next candidate and drop the
    /// pinned client.
    pub fn mark_current_failed(&mut self)
        ensures
            final(self).candidates@ == old(self).candidates@,
            final(self).current == if old(self).current == usize::MAX {
                usize::MAX
            } else {
                (old(self).current + 1) as usize
            },
            !final(self).has_client,
            final(self).pinned_ip is None,
    {
        self.current = self.current.saturating_add(1);
        self.has_client = false;
        self.pinned_ip = None;
    }

    /// After a refresh: pin the first candidate, if its address parses.
    pub fn pin_first(&mut self) -> (r: Option<Ipv4>)
        ensures
            old(self).candidates@.len() == 0 ==> r is None && *final(self) == *old(self),
            old(self).candidates@.len() > 0 ==> r == spec_parse_ipv4(old(self).candidates@[0].ip@),
            r is None ==> *final(self) == *old(self),
            r matches Some(ip) ==> {
                &&& final(self).candidates@ == old(self).candidates@
                &&& final(self).current == 0
                &&& final(self).has_client
                &&& opt_text(final(self).pinned_ip) == Some(spec_ipv4_text(ip))
            },
    {
        if self.candidates.len() == 0 {
            return None;
        }
        match parse_ipv4(self.candidates[0].ip.as_str()) {
            Some(ip) => {
                self.current = 0;
                self.has_client = true;
                self.pinned_ip = Some(ipv4_text(ip));
                Some(ip)
            },
            None => None,
        }
    }
}

/// How many candidates at the front of the pool are faster than `lat`.
pub open spec fn faster_prefix(cs: Seq<(Seq<char>, u64)>, lat: u64) -> int
    decreases cs.len(),
{
    if cs.len() == 0 {
        0
    } else if cs[0].1 < lat {
        1 + faster_prefix(cs.drop_first(), lat)
    } else {
        0
    }
}

proof fn lemma_faster_prefix(cs: Seq<(Seq<char>, u64)>, lat: u64, p: int)
    requires
        0 <= p <= cs.len(),
        forall|k: int| 0 <= k < p ==> cs[k].1 < lat,
        p < cs.len() ==> cs[p].1 >= lat,
    ensures
        faster_prefix(cs, lat) == p,
    decreases p,
{
    if p > 0 {
        assert forall|k: int| 0 <= k < p - 1 implies cs.drop_first()[k].1 < lat by {
            assert(cs.drop_first()[k] == cs[k + 1]);
        }
        if p - 1 < cs.drop_first().len() {
            assert(cs.drop_first()[p - 1] == cs[p]);
        }
        lemma_faster_prefix(cs.drop_first(), lat, p - 1);
    }
}

/// Sorted by latency, not decreasing.
pub open spec fn latency_sorted(cs: Seq<(Seq<char>, u64)>) -> bool {
    forall|a: int, b: int| 0 <= a < b < cs.len() ==> cs[a].1 <= cs[b].1
}

/// The pool after a probed address is added: unchanged where its address
/// text is there already; else it goes in before the first candidate that is
/// not faster, the pool is cut to `TOP_IPS`, and where it is the new best,
/// the current candidate is the first one again and the pin is dropped.
pub fn insert_candidate(runtime: &mut GoogleIpRuntime, ip: Ipv4, latency_ms: u64) -> (r: usize)
    requires
        latency_sorted(old(runtime).views()),
    ensures
        latency_sorted(final(runtime).views()),
        r == final(runtime).candidates@.len(),
        ({
            let cs = old(runtime).views();
            let text = spec_ipv4_text(ip);
            if ip_texts(cs).contains(text) {
                *final(runtime) == *old(runtime)
            } else {
                let p = faster_prefix(cs, latency_ms);
                let grown = cs.insert(p, (text, latency_ms));
                &&& final(runtime).views() == grown.take(
                    if grown.len() < TOP_IPS { grown.len() as int } else { TOP_IPS as int },
                )
                &&& p == 0 ==> final(runtime).current == 0 && !final(runtime).has_client
                    && final(runtime).pinned_ip is None
                &&& p != 0 ==> final(runtime).current == old(runtime).current && final(runtime).has_client
                    == old(runtime).has_client && final(runtime).pinned_ip == old(runtime).pinned_ip
            }
        }),
{
    let ghost cs = runtime.views();
    let text = ipv4_text(ip);
    if contains_text(&runtime.candidates, &text) {
        return runtime.candidates.len();
    }
    let mut p: usize = 0;
    while p < runtime.candidates.len() && runtime.candidates[p].latency_ms < latency_ms
        invariant
            p <= runtime.candidates@.len(),
            cs == runtime.views(),
            forall|k: int| 0 <= k < p ==> cs[k].1 < latency_ms,
        decreases runtime.candidates@.len() - p,
    {
        p += 1;
    }
    proof {
        lemma_faster_prefix(cs, latency_ms, p as int);
    }
    let ghost old_rt = *runtime;
    runtime.candidates.insert(p, GoogleTranslateIp { ip: text, latency_ms });
    let ghost grown = cs.insert(p as int, (spec_ipv4_text(ip), latency_ms));
    assert(runtime.views() =~= grown);
    runtime.candidates.truncate(TOP_IPS);
    let ghost cut = grown.take(if grown.len() < TOP_IPS { grown.len() as int } else { TOP_IPS as int });
    assert(runtime.views() =~= cut);
    if p == 0 {
        runtime.current = 0;
        runtime.has_client = false;
        runtime.pinned_ip = None;
    }
    proof {
        assert forall|a: int, b: int| 0 <= a < b < cut.len() implies cut[a].1 <= cut[b].1 by {
            if b < p {
            } else if a < p && b == p {
            } else if a < p {
                assert(cut[b] == cs[b - 1]);
            } else if a == p {
                assert(cut[b] == cs[b - 1]);
            } else {
                assert(cut[a] == cs[a - 1] && cut[b] == cs[b - 1]);
            }
        }
    }
    runtime.candidates.len()
}

/// The next batch of addresses to probe, from `offset` on, out of `total`:
/// up to `SCAN_BATCH_SIZE` of them; none once all were probed.
pub fn next_scan_batch(offset: usize, total: usize) -> (r: Option<(usize, usize)>)
    ensures
        offset >= total ==> r is None,
        offset < total ==> r == Some((offset, if total - offset < SCAN_BATCH_SIZE { total } else { (offset + SCAN_BATCH_SIZE) as usize })),
{
    if offset >= total {
        return None;
    }
    let end = if total - offset < SCAN_BATCH_SIZE {
        total
    } else {
        offset + SCAN_BATCH_SIZE
    };
    Some((offset, end))
}

/// Whether scanning stops after a batch: the pool filled up during it, or it
/// holds `TOP_IPS` addresses.
pub fn scan_done(filled_during_batch: bool, pool_size: usize) -> (r: bool)
    ensures
        r == (filled_during_batch || pool_size >= TOP_IPS),
{
    filled_during_batch || pool_size >= TOP_IPS
}

/// Whether a batch scan probes another batch: addresses are left and the
/// pool holds fewer than `TOP_IPS`.
pub fn scan_continues(offset: usize, total: usize, found: usize) -> (r: bool)
    ensures
        r == (offset < total && found < TOP_IPS),
{
    offset < total && found < TOP_IPS
}

/// The candidates of the addresses of a batch that answered, in order.
pub open spec fn answered(probed: Seq<(Ipv4, Option<u64>)>) -> Seq<(Seq<char>, u64)>
    decreases probed.len(),
{
    if probed.len() == 0 {
        Seq::empty()
    } else {
        let prev = answered(probed.drop_last());
        match probed.last().1 {
            Some(latency) => prev.push((spec_ipv4_text(probed.last().0), latency)),
            None => prev,
        }
    }
}

/// The pool after a batch: the addresses of the batch that answered are
/// added to it, and it is ranked again.
pub fn add_batch(candidates: Vec<GoogleTranslateIp>, probed: &Vec<(Ipv4, Option<u64>)>) -> (r: Vec<
    GoogleTranslateIp,
>)
    ensures
        is_ranking(cand_views(candidates@) + answered(probed@), cand_views(r@)),
{
    let ghost start = cand_views(candidates@);
    let mut all = candidates;
    let mut i: usize = 0;
    while i < probed.len()
        invariant
            i <= probed.len(),
            cand_views(all@) == start + answered(probed@.subrange(0, i as int)),
        decreases probed.len() - i,
    {
        assert(probed@.subrange(0, i + 1).drop_last() =~= probed@.subrange(0, i as int));
        assert(probed@.subrange(0, i + 1).last() == probed@[i as int]);
        let (ip, latency) = probed[i];
        match latency {
            Some(latency_ms) => {
                let ghost before = all@;
                all.push(GoogleTranslateIp { ip: ipv4_text(ip), latency_ms });
                assert(cand_views(all@) =~= cand_views(before).push((spec_ipv4_text(ip), latency_ms)));
            },
            None => {},
        }
        i += 1;
    }
    assert(probed@.subrange(0, probed@.len() as int) =~= probed@);
    rank_candidates(all)
}

/// How old the cache file is, as far as its metadata tells.
#[derive(Debug, Clone, Copy, PartialEq, Eq)]
pub enum CacheAge {
    /// Its metadata or modification time could not be read.
    Unknown,
    /// It was modified after now.
    InFuture,
    /// Whole seconds since it was modified.
    Elapsed(u64),
}

/// A cache is stale where its age is unknown or at least seven days.
pub fn cache_is_stale(age: CacheAge) -> (r: bool)
    ensures
        r == match age {
            CacheAge::Unknown => true,
            CacheAge::InFuture => false,
            CacheAge::Elapsed(s) => s >= CACHE_REFRESH_AGE_SECS,
        },
{
    match age {
        CacheAge::Unknown => true,
        CacheAge::InFuture => false,
        CacheAge::Elapsed(s) => s >= CACHE_REFRESH_AGE_SECS,
    }
}

/// The addresses of a downloaded list, or the error that ends the refresh:
/// the download failed with an HTTP status, or the list names no IPv4
/// address.
pub fn ip_list_from_response(success: bool, status: &str, body: &str) -> (r: Result<Vec<Ipv4>, String>)
    ensures
        !success ==> (r matches Err(m) && m@ == "GOOGLE_IP_LIST_FAILED: Ponderfly IP list returned HTTP "@ + status@),
        success && spec_ip_list(spec_lines(body@)).len() == 0 ==> (r matches Err(m)
            && m@ == "GOOGLE_IP_LIST_FAILED: Ponderfly IP list contained no IPv4 addresses"@),
        success && spec_ip_list(spec_lines(body@)).len() > 0 ==> (r matches Ok(ips) && ips@ == spec_ip_list(
            spec_lines(body@),
        )),
{
    if !success {
        return Err(crate::text::concat("GOOGLE_IP_LIST_FAILED: Ponderfly IP list returned HTTP ", status));
    }
    let ips = parse_ip_list(body);
    if ips.len() == 0 {
        return Err(crate::text::to_owned("GOOGLE_IP_LIST_FAILED: Ponderfly IP list contained no IPv4 addresses"));
    }
    Ok(ips)
}

/// The error when no address of the pool can be used.
pub fn unavailable_error() -> (r: String)
    ensures
        r@ == "GOOGLE_IP_UNAVAILABLE: no usable Google Translate IP found"@,
{
    crate::text::to_owned("GOOGLE_IP_UNAVAILABLE: no usable Google Translate IP found")
}

/// A ranked pool is sorted by latency, holds at most `TOP_IPS` candidates,
/// each with an IPv4 address, and no address text twice.
pub proof fn ranking_is_sorted_bounded_and_unique(cs: Seq<(Seq<char>, u64)>, r: Seq<(Seq<char>, u64)>)
    requires
        is_ranking(cs, r),
    ensures
        r.len() <= TOP_IPS,
        latency_sorted(r),
        forall|k: int| 0 <= k < r.len() ==> spec_parse_ipv4(#[trigger] r[k].0) is Some,
        forall|a: int, b: int| 0 <= a < b < r.len() ==> #[trigger] r[a].0 != #[trigger] r[b].0,
{
    let f = spec_rank_filter(cs);
    let perm = choose|perm: Seq<int>|
        is_rank_order(f, perm) && forall|k: int| 0 <= k < r.len() ==> r[k] == f[#[trigger] perm[k]];
    lemma_rank_filter_valid_unique(cs);
    assert forall|a: int, b: int| 0 <= a < b < r.len() implies r[a].1 <= r[b].1 by {
        assert(rank_before(f, perm[a], perm[b]));
    }
    assert forall|k: int| 0 <= k < r.len() implies spec_parse_ipv4(#[trigger] r[k].0) is Some by {
        assert(r[k] == f[perm[k]]);
    }
    assert forall|a: int, b: int| 0 <= a < b < r.len() implies #[trigger] r[a].0 != #[trigger] r[b].0 by {
        assert(r[a] == f[perm[a]] && r[b] == f[perm[b]]);
        assert(rank_before(f, perm[a], perm[b]));
        assert(perm[a] != perm[b]);
    }
}

proof fn lemma_rank_filter_valid_unique(cs: Seq<(Seq<char>, u64)>)
    ensures
        forall|k: int| 0 <= k < spec_rank_filter(cs).len() ==> spec_parse_ipv4(#[trigger] spec_rank_filter(cs)[k].0) is Some,
        forall|a: int, b: int|
            0 <= a < b < spec_rank_filter(cs).len() ==> #[trigger] spec_rank_filter(cs)[a].0 != #[trigger] spec_rank_filter(
                cs,
            )[b].0,
    decreases cs.len(),
{
    if cs.len() > 0 {
        lemma_rank_filter_valid_unique(cs.drop_last());
        let rest = spec_rank_filter(cs.drop_last());
        let c = cs.last();
        if spec_parse_ipv4(c.0) is Some && !ip_texts(rest).contains(c.0) {
            let f = rest.push(c);
            assert forall|a: int, b: int| 0 <= a < b < f.len() implies #[trigger] f[a].0 != #[trigger] f[b].0 by {
                if b == rest.len() {
                    assert(ip_texts(rest)[a] == rest[a].0);
                }
            }
        }
    }
}

/// The addresses of an IP list are each there once.
proof fn lemma_filter_keeps_valid_unique(r: Seq<(Seq<char>, u64)>)
    requires
        forall|k: int| 0 <= k < r.len() ==> spec_parse_ipv4(#[trigger] r[k].0) is Some,
        forall|a: int, b: int| 0 <= a < b < r.len() ==> #[trigger] r[a].0 != #[trigger] r[b].0,
    ensures
        spec_rank_filter(r) == r,
    decreases r.len(),
{
    if r.len() > 0 {
        let d = r.drop_last();
        assert forall|k: int| 0 <= k < d.len() implies spec_parse_ipv4(#[trigger] d[k].0) is Some by {
            assert(d[k] == r[k]);
        }
        assert forall|a: int, b: int| 0 <= a < b < d.len() implies #[trigger] d[a].0 != #[trigger] d[b].0 by {
            assert(d[a] == r[a] && d[b] == r[b]);
        }
        lemma_filter_keeps_valid_unique(d);
        assert(spec_parse_ipv4(r.last().0) is Some);
        assert(!ip_texts(d).contains(r.last().0)) by {
            if ip_texts(d).contains(r.last().0) {
                let w = choose|w: int| 0 <= w < ip_texts(d).len() && ip_texts(d)[w] == r.last().0;
                assert(r[w].0 == r[r.len() - 1].0);
            }
        }
        assert(d.push(r.last()) =~= r);
    }
}

/// A stable order by latency of an already sorted pool keeps every position.
proof fn lemma_sorted_rank_order_is_identity(r: Seq<(Seq<char>, u64)>, perm: Seq<int>)
    requires
        latency_sorted(r),
        is_rank_order(r, perm),
    ensures
        forall|k: int| 0 <= k < perm.len() ==> #[trigger] perm[k] == k,
{
    assert forall|a: int, b: int| 0 <= a < b < perm.len() implies #[trigger] perm[a] < #[trigger] perm[b] by {
        assert(rank_before(r, perm[a], perm[b]));
        if perm[a] > perm[b] {
            assert(r[perm[b]].1 <= r[perm[a]].1);
        }
    }
    assert forall|k: int| 0 <= k < perm.len() implies #[trigger] perm[k] == k by {
        lemma_at_least_index(perm, k);
        lemma_at_most_index(perm, k, r.len() as int);
    }
}

proof fn lemma_at_least_index(perm: Seq<int>, j: int)
    requires
        0 <= j < perm.len(),
        forall|i: int| 0 <= i < perm.len() ==> 0 <= #[trigger] perm[i],
        forall|a: int, b: int| 0 <= a < b < perm.len() ==> #[trigger] perm[a] < #[trigger] perm[b],
    ensures
        perm[j] >= j,
    decreases j,
{
    if j > 0 {
        lemma_at_least_index(perm, j - 1);
        assert(perm[j - 1] < perm[j]);
    }
}

proof fn lemma_at_most_index(perm: Seq<int>, j: int, n: int)
    requires
        0 <= j < perm.len(),
        perm.len() == n,
        forall|i: int| 0 <= i < perm.len() ==> #[trigger] perm[i] < n,
        forall|a: int, b: int| 0 <= a < b < perm.len() ==> #[trigger] perm[a] < #[trigger] perm[b],
    ensures
        perm[j] <= j,
    decreases n - j,
{
    if j < n - 1 {
        lemma_at_most_index(perm, j + 1, n);
        assert(perm[j] < perm[j + 1]);
    }
}

/// Ranking an already ranked pool gives it back unchanged.
pub proof fn ranking_twice_is_unchanged(
    cs: Seq<(Seq<char>, u64)>,
    r: Seq<(Seq<char>, u64)>,
    r2: Seq<(Seq<char>, u64)>,
)
    requires
        is_ranking(cs, r),
        is_ranking(r, r2),
    ensures
        r2 == r,
{
    ranking_is_sorted_bounded_and_unique(cs, r);
    lemma_filter_keeps_valid_unique(r);
    let perm = choose|perm: Seq<int>|
        is_rank_order(r, perm) && forall|k: int| 0 <= k < r2.len() ==> r2[k] == r[#[trigger] perm[k]];
    lemma_sorted_rank_order_is_identity(r, perm);
    assert forall|k: int| 0 <= k < r2.len() implies r2[k] == r[k] by {
        assert(perm[k] == k);
        assert(r2[k] == r[perm[k]]);
    }
    assert(r2 =~= r);
}

pub proof fn ip_list_has_no_duplicates(lines: Seq<Seq<char>>)
    ensures
        forall|a: int, b: int| 0 <= a < b < spec_ip_list(lines).len() ==> #[trigger] spec_ip_list(lines)[a] != #[trigger] spec_ip_list(lines)[b],
    decreases lines.len(),
{
    if lines.len() > 0 {
        ip_list_has_no_duplicates(lines.drop_last());
        let rest = spec_ip_list(lines.drop_last());
        match spec_list_line(lines.last()) {
            Some(ip) => {
                if !rest.contains(ip) {
                    let f = rest.push(ip);
                    assert forall|a: int, b: int| 0 <= a < b < f.len() implies #[trigger] f[a] != #[trigger] f[b] by {
                        if b == rest.len() {
                            assert(rest[a] == f[a]);
                        }
                    }
                }
            },
            None => {},
        }
    }
}

} // verus!
