//! The native HTTP/2 download engine: when a route may use it, how a file is
//! split into range streams, the headers those streams send and check, and
//! the registry of shared connections per authority.
use vstd::prelude::*;
use crate::text::{spec_after_last, spec_decimal, spec_parse_u32};

verus! {

/// How a download route reaches the network.
#[derive(Debug, Clone, Copy, PartialEq, Eq, Structural)]
pub enum ProxyPolicy {
    /// Straight to the host, ignoring any system proxy.
    Direct,
    /// Through the system's proxy settings, where there are any.
    System,
}

/// Where a route's URL comes from.
#[derive(Debug, Clone, Copy, PartialEq, Eq, Structural)]
pub enum DownloadRouteSource {
    Official,
    Mirror,
}

/// One way to fetch a file.
#[derive(Debug, Clone)]
pub struct DownloadRoute {
    pub url: String,
    pub source: DownloadRouteSource,
    pub is_mirror: bool,
    pub allow_sensitive_headers: bool,
    pub supports_range: bool,
    pub proxy: ProxyPolicy,
}

/// Why a route cannot use the native HTTP/2 engine.
#[derive(Debug, Clone, Copy, PartialEq, Eq, Structural)]
pub enum NativeH2IneligibleReason {
    Http1Fallback,
    SystemProxy,
}

impl NativeH2IneligibleReason {
    pub fn as_str(self) -> (r: &'static str)
        ensures
            self == NativeH2IneligibleReason::Http1Fallback ==> r@ == "authority is temporarily using HTTP/1.1"@,
            self == NativeH2IneligibleReason::SystemProxy ==> r@ == "system proxy requires the reqwest transport"@,
    {
        match self {
            NativeH2IneligibleReason::Http1Fallback => "authority is temporarily using HTTP/1.1",
            NativeH2IneligibleReason::SystemProxy => "system proxy requires the reqwest transport",
        }
    }
}

/// Whether a route may not use the native HTTP/2 engine, and why. A route
/// whose URL has no authority is not refused; one whose authority fell back
/// to HTTP/1.1 is; one that follows the system proxy is, where a system proxy
/// is configured. A direct route never waits on the system proxy.
pub fn h2_ineligible_reason(
    route: &DownloadRoute,
    has_authority: bool,
    authority_uses_http1_fallback: bool,
    system_proxy_configured: bool,
) -> (r: Option<NativeH2IneligibleReason>)
    ensures
        r == if !has_authority {
            None
        } else if authority_uses_http1_fallback {
            Some(NativeH2IneligibleReason::Http1Fallback)
        } else if route.proxy == ProxyPolicy::System && system_proxy_configured {
            Some(NativeH2IneligibleReason::SystemProxy)
        } else {
            None
        },
{
    if !has_authority {
        return None;
    }
    if authority_uses_http1_fallback {
        return Some(NativeH2IneligibleReason::Http1Fallback);
    }
    if route.proxy == ProxyPolicy::System && system_proxy_configured {
        return Some(NativeH2IneligibleReason::SystemProxy);
    }
    None
}

/// The proxy variables of the environment, in the order they are read.
pub fn proxy_variable_names() -> (r: Vec<&'static str>)
    ensures
        r@.len() == 6,
        r@[0]@ == "HTTPS_PROXY"@,
        r@[1]@ == "https_proxy"@,
        r@[2]@ == "HTTP_PROXY"@,
        r@[3]@ == "http_proxy"@,
        r@[4]@ == "ALL_PROXY"@,
        r@[5]@ == "all_proxy"@,
{
    vec!["HTTPS_PROXY", "https_proxy", "HTTP_PROXY", "http_proxy", "ALL_PROXY", "all_proxy"]
}

/// A variable that is set to something.
pub open spec fn set_and_not_empty(value: Option<String>) -> bool {
    value matches Some(v) && v@.len() > 0
}

/// Whether the environment sets a proxy: any of its proxy variables is set
/// and not empty.
pub fn environment_proxy_configured(values: &Vec<Option<String>>) -> (r: bool)
    ensures
        r == exists|i: int| 0 <= i < values@.len() && #[trigger] set_and_not_empty(values@[i]),
{
    let mut i: usize = 0;
    while i < values.len()
        invariant
            i <= values.len(),
            forall|k: int| 0 <= k < i ==> !#[trigger] set_and_not_empty(values@[k]),
        decreases values.len() - i,
    {
        match &values[i] {
            Some(v) => {
                if !crate::text::is_empty_str(v.as_str()) {
                    assert(set_and_not_empty(values@[i as int]));
                    return true;
                }
            },
            None => {},
        }
        i += 1;
    }
    false
}

/// Whether Windows' Internet settings configure a proxy: `ProxyEnable` is
/// set and not zero, or `AutoConfigURL` is set and not blank.
pub fn windows_proxy_configured(proxy_enable: Option<u32>, auto_config_url: Option<String>) -> (r: bool)
    ensures
        r == ((proxy_enable matches Some(e) && e != 0) || (auto_config_url matches Some(u)
            && crate::text::spec_trim(u@).len() > 0)),
{
    let enabled = match proxy_enable {
        Some(e) => e != 0,
        None => false,
    };
    let auto_configured = match auto_config_url {
        Some(u) => {
            let v = crate::text::chars_of(u.as_str());
            let t = crate::text::trimmed(&v);
            t.len() > 0
        },
        None => false,
    };
    enabled || auto_configured
}

/// Whether a system proxy is configured: by the environment or by the
/// platform.
pub fn system_proxy_configured(environment: bool, platform: bool) -> (r: bool)
    ensures
        r == (environment || platform),
{
    environment || platform
}

/// One byte range of a file, both ends included.
#[derive(Debug, Clone, Copy, PartialEq, Eq, Structural)]
pub struct H2Range {
    pub start: u64,
    pub end: u64,
}

/// How many range streams a file of `total_size` bytes is split into: the
/// requested concurrency, at least one and at most one per byte.
pub fn range_count(concurrency: usize, total_size: u64) -> (r: usize)
    requires
        total_size > 0,
    ensures
        r == ({
            let c = if concurrency < 1 { 1 } else { concurrency as int };
            let cap = if total_size > usize::MAX { usize::MAX as int } else { total_size as int };
            if c < cap { c } else { cap }
        }),
{
    let c = if concurrency < 1 {
        1
    } else {
        concurrency
    };
    let cap: usize = if total_size > usize::MAX as u64 {
        usize::MAX
    } else {
        total_size as usize
    };
    if c < cap {
        c
    } else {
        cap
    }
}

/// Splits `size` bytes into `count` contiguous ranges: each `size / count`
/// bytes long, the first `size % count` of them one byte longer.
pub fn split_ranges(size: u64, count: usize) -> (r: Vec<H2Range>)
    requires
        1 <= count,
        count <= size,
    ensures
        r@.len() == count,
        r@[0].start == 0,
        r@[count - 1].end == size - 1,
        forall|i: int| 0 <= i < count - 1 ==> #[trigger] r@[i].end + 1 == r@[i + 1].start,
        forall|i: int|
            0 <= i < count ==> (#[trigger] r@[i]).end - r@[i].start + 1 == (size as int) / (count as int) + (if i < (
            size as int) % (count as int) { 1int } else { 0int }),
{
    let c = count as u64;
    let base = size / c;
    let remainder = size % c;
    proof {
        assert(size == c * base + remainder) by (nonlinear_arith)
            requires
                c > 0,
                base == size / c,
                remainder == size % c,
        ;
        assert(base >= 1 || remainder == size) by (nonlinear_arith)
            requires
                c > 0,
                c <= size,
                base == size / c,
                remainder == size % c,
        ;
        assert(base >= 1) by (nonlinear_arith)
            requires
                c > 0,
                c <= size,
                base == size / c,
        ;
    }
    let mut out: Vec<H2Range> = Vec::new();
    let mut start: u64 = 0;
    let mut index: usize = 0;
    while index < count
        invariant
            c == count,
            1 <= count <= size,
            base == size / c,
            remainder == size % c,
            remainder < c,
            base >= 1,
            size == c * base + remainder,
            index <= count,
            out@.len() == index,
            start == index * base + (if index < remainder { index as int } else { remainder as int }),
            index > 0 ==> out@[index - 1].end + 1 == start,
            index == 0 ==> start == 0,
            out@.len() > 0 ==> out@[0].start == 0,
            forall|i: int| 0 <= i < index - 1 ==> #[trigger] out@[i].end + 1 == out@[i + 1].start,
            forall|i: int|
                0 <= i < index ==> (#[trigger] out@[i]).end - out@[i].start + 1 == base + (if i < remainder { 1int } else { 0int }),
        decreases count - index,
    {
        proof {
            assert(remainder > 0 ==> base < u64::MAX) by (nonlinear_arith)
                requires
                    c >= 1,
                    size == c * base + remainder,
                    size <= u64::MAX,
            ;
        }
        let length = if (index as u64) < remainder {
            base + 1
        } else {
            base
        };
        proof {
            assert(start + length <= size) by (nonlinear_arith)
                requires
                    index < c,
                    remainder < c,
                    size == c * base + remainder,
                    start == index * base + (if index < remainder { index as int } else { remainder as int }),
                    length == base + (if index < remainder { 1int } else { 0int }),
            ;
            assert((index + 1) * base == index * base + base) by (nonlinear_arith);
        }
        let range = H2Range { start, end: start + length - 1 };
        out.push(range);
        start = start + length;
        index += 1;
    }
    proof {
        assert(start == size) by (nonlinear_arith)
            requires
                start == c * base + remainder,
                size == c * base + remainder,
        ;
    }
    out
}

/// The `Range` header value of a range: `bytes=START-END`.
pub open spec fn spec_range_header(range: H2Range) -> Seq<char> {
    "bytes="@ + spec_decimal(range.start as nat) + "-"@ + spec_decimal(range.end as nat)
}

pub fn range_header(range: H2Range) -> (r: String)
    ensures
        r@ == spec_range_header(range),
{
    let a = crate::text::decimal(range.start);
    let b = crate::text::decimal(range.end);
    let s1 = crate::text::concat("bytes=", a.as_str());
    let s2 = crate::text::concat(s1.as_str(), "-");
    crate::text::concat(s2.as_str(), b.as_str())
}

/// The `Content-Range` value a range's answer must carry:
/// `bytes START-END/TOTAL`.
pub open spec fn spec_content_range(range: H2Range, total_size: u64) -> Seq<char> {
    "bytes "@ + spec_decimal(range.start as nat) + "-"@ + spec_decimal(range.end as nat) + "/"@ + spec_decimal(
        total_size as nat,
    )
}

/// Whether a response's `Content-Range` header (absent, or not text, as
/// `None`) is exactly the one the range asked for.
pub fn content_range_matches(header: Option<&str>, range: H2Range, total_size: u64) -> (r: bool)
    ensures
        r == (header matches Some(h) && h@ == spec_content_range(range, total_size)),
{
    match header {
        Some(h) => {
            let a = crate::text::decimal(range.start);
            let b = crate::text::decimal(range.end);
            let t = crate::text::decimal(total_size);
            let s1 = crate::text::concat("bytes ", a.as_str());
            let s2 = crate::text::concat(s1.as_str(), "-");
            let s3 = crate::text::concat(s2.as_str(), b.as_str());
            let s4 = crate::text::concat(s3.as_str(), "/");
            let want = crate::text::concat(s4.as_str(), t.as_str());
            crate::text::same_text(h, want.as_str())
        },
        None => false,
    }
}

/// How many more bytes a range accepts at `offset`.
pub fn range_remaining(range: H2Range, offset: u64) -> (r: u64)
    ensures
        r == ({
            let after = if range.end == u64::MAX { u64::MAX as int } else { range.end + 1 };
            if after < offset { 0 } else { after - offset }
        }),
{
    range.end.saturating_add(1).saturating_sub(offset)
}

/// Whether a received chunk fits in what the range still accepts.
pub fn chunk_fits(range: H2Range, offset: u64, chunk_len: u64) -> (r: bool)
    ensures
        r == (chunk_len <= ({
            let after = if range.end == u64::MAX { u64::MAX as int } else { range.end + 1 };
            if after < offset { 0 } else { after - offset }
        })),
{
    chunk_len <= range_remaining(range, offset)
}

/// Whether a range stream ended exactly after the last byte of its range.
pub fn range_complete(range: H2Range, offset: u64) -> (r: bool)
    ensures
        r == (offset == range.end + 1),
{
    range.end < u64::MAX && offset == range.end + 1
}

/// How many bytes make one step of reported progress: a two-hundredth of
/// the file, at least 256 KiB.
pub fn progress_delta(total_size: u64) -> (r: u64)
    ensures
        r == (if total_size / 200 > 262144 { total_size / 200 } else { 262144 }),
{
    let d = total_size / 200;
    if d > 262144 {
        d
    } else {
        262144
    }
}

/// Whether progress is reported after a chunk: once all bytes are in, or
/// when the count crossed into a new step. Returns the step reached too.
pub fn progress_step(current: u64, total_size: u64, delta: u64, previous_step: u64) -> (r: (u64, bool))
    requires
        delta > 0,
    ensures
        r.0 == current / delta,
        r.1 == (current >= total_size || current / delta > previous_step),
{
    let step = current / delta;
    (step, current >= total_size || step > previous_step)
}

/// The host and port of an authority `host[:port]`: the text after the last
/// `:` is the port (443 where it is not a port number); 443 where there is
/// no `:`.
pub open spec fn spec_authority_host_port(authority: Seq<char>) -> (Seq<char>, u16) {
    if exists|i: int| 0 <= i < authority.len() && authority[i] == ':' {
        let port_text = spec_after_last(authority, ':');
        let host = authority.take(authority.len() - port_text.len() - 1);
        (host, match crate::text::spec_parse_uint(port_text, 65535) {
            Some(p) => p as u16,
            None => 443,
        })
    } else {
        (authority, 443)
    }
}

proof fn lemma_after_last_len(s: Seq<char>, c: char)
    ensures
        spec_after_last(s, c).len() <= s.len(),
        (exists|i: int| 0 <= i < s.len() && s[i] == c) ==> spec_after_last(s, c).len() < s.len() && s[s.len()
            - spec_after_last(s, c).len() - 1] == c,
        spec_after_last(s, c) == s.skip(s.len() - spec_after_last(s, c).len()),
    decreases s.len(),
{
    if s.len() > 0 {
        lemma_after_last_len(s.drop_last(), c);
        if s.last() != c {
            if exists|i: int| 0 <= i < s.len() && s[i] == c {
                let i = choose|i: int| 0 <= i < s.len() && s[i] == c;
                assert(s.drop_last()[i] == c);
            }
            let d = s.drop_last();
            assert(spec_after_last(s, c) =~= s.skip(s.len() - spec_after_last(s, c).len()));
        } else {
            assert(s.skip(s.len() as int) =~= Seq::<char>::empty());
        }
    } else {
        assert(s.skip(0) =~= s);
    }
}

pub fn authority_host_port(authority: &str) -> (r: (String, u16))
    ensures
        r.0@ == spec_authority_host_port(authority@).0,
        r.1 == spec_authority_host_port(authority@).1,
{
    let v = crate::text::chars_of(authority);
    let mut has_colon = false;
    let mut i: usize = 0;
    while i < v.len()
        invariant
            i <= v.len(),
            has_colon == exists|k: int| 0 <= k < i && v@[k] == ':',
        decreases v.len() - i,
    {
        if v[i] == ':' {
            has_colon = true;
        }
        i += 1;
    }
    if !has_colon {
        return (crate::text::to_owned(authority), 443);
    }
    let port_text = crate::text::after_last(&v, ':');
    proof {
        lemma_after_last_len(v@, ':');
    }
    let host = crate::text::slice_vec(&v, 0, v.len() - port_text.len() - 1);
    assert(host@ =~= v@.take(v@.len() - port_text@.len() - 1));
    let port = match crate::text::parse_uint(&port_text, 65535) {
        Some(p) => p as u16,
        None => 443,
    };
    (crate::text::string_from(&host), port)
}

/// The shared HTTP/2 connections, one per authority, each known by the id
/// its owner gave it. An authority is listed at most once.
#[derive(Debug)]
pub struct ConnectionRegistry {
    entries: Vec<(String, u64)>,
}

impl ConnectionRegistry {
    /// No authority is listed twice.
    pub closed spec fn well_formed(&self) -> bool {
        forall|i: int, j: int|
            0 <= i < j < self.entries@.len() ==> #[trigger] self.entries@[i].0@ != #[trigger] self.entries@[j].0@
    }

    /// Which connection each authority has.
    pub closed spec fn view(&self) -> Map<Seq<char>, u64> {
        Map::new(
            |k: Seq<char>| exists|i: int| 0 <= i < self.entries@.len() && #[trigger] self.entries@[i].0@ == k,
            |k: Seq<char>|
                self.entries@[choose|i: int| 0 <= i < self.entries@.len() && #[trigger] self.entries@[i].0@ == k].1,
        )
    }

    pub fn new() -> (r: Self)
        ensures
            r.well_formed(),
            r.view() == Map::<Seq<char>, u64>::empty(),
    {
        let r = ConnectionRegistry { entries: Vec::new() };
        assert(r.view() =~= Map::<Seq<char>, u64>::empty());
        r
    }

    fn position(&self, authority: &str) -> (r: Option<usize>)
        requires
            self.well_formed(),
        ensures
            match r {
                Some(i) => i < self.entries@.len() && self.entries@[i as int].0@ == authority@,
                None => forall|i: int| 0 <= i < self.entries@.len() ==> self.entries@[i].0@ != authority@,
            },
    {
        let mut i: usize = 0;
        while i < self.entries.len()
            invariant
                i <= self.entries@.len(),
                forall|k: int| 0 <= k < i ==> self.entries@[k].0@ != authority@,
            decreases self.entries@.len() - i,
        {
            if crate::text::same_text(self.entries[i].0.as_str(), authority) {
                return Some(i);
            }
            i += 1;
        }
        None
    }

    /// The connection cached for an authority, if any.
    pub fn cached(&self, authority: &str) -> (r: Option<u64>)
        requires
            self.well_formed(),
        ensures
            r == (if self.view().dom().contains(authority@) { Some(self.view()[authority@]) } else { None }),
    {
        match self.position(authority) {
            Some(i) => {
                proof {
                    let j = choose|j: int| 0 <= j < self.entries@.len() && #[trigger] self.entries@[j].0@ == authority@;
                    if j != i {
                        if j < i {
                            assert(self.entries@[j].0@ != self.entries@[i as int].0@);
                        } else {
                            assert(self.entries@[i as int].0@ != self.entries@[j].0@);
                        }
                    }
                }
                Some(self.entries[i].1)
            },
            None => None,
        }
    }

    /// Forgets the connection of an authority.
    pub fn remove(&mut self, authority: &str)
        requires
            old(self).well_formed(),
        ensures
            final(self).well_formed(),
            final(self).view() == old(self).view().remove(authority@),
    {
        match self.position(authority) {
            Some(i) => {
                let ghost before = self.entries@;
                self.entries.remove(i);
                proof {
                    assert(self.entries@ =~= before.subrange(0, i as int) + before.subrange(i + 1, before.len() as int));
                    assert forall|a: int, b: int| 0 <= a < b < self.entries@.len() implies #[trigger] self.entries@[a].0@
                        != #[trigger] self.entries@[b].0@ by {
                        let a0 = if a < i { a } else { a + 1 };
                        let b0 = if b < i { b } else { b + 1 };
                        assert(self.entries@[a] == before[a0] && self.entries@[b] == before[b0]);
                    }
                    assert forall|k: Seq<char>| #[trigger] self.view().dom().contains(k) == old(self).view().remove(authority@).dom().contains(k) by {
                        if self.view().dom().contains(k) {
                            let j = choose|j: int| 0 <= j < self.entries@.len() && #[trigger] self.entries@[j].0@ == k;
                            let j0 = if j < i { j } else { j + 1 };
                            assert(before[j0].0@ == k);
                        }
                        if old(self).view().remove(authority@).dom().contains(k) {
                            let j = choose|j: int| 0 <= j < before.len() && #[trigger] before[j].0@ == k;
                            if j < i {
                                assert(self.entries@[j].0@ == k);
                            } else if j > i {
                                assert(self.entries@[j - 1].0@ == k);
                            }
                        }
                    }
                    assert forall|k: Seq<char>| #[trigger] self.view().dom().contains(k) implies self.view()[k] == old(self).view()[k] by {
                        let j = choose|j: int| 0 <= j < self.entries@.len() && #[trigger] self.entries@[j].0@ == k;
                        let j0 = if j < i { j } else { j + 1 };
                        assert(before[j0].0@ == k);
                        let jo = choose|jo: int| 0 <= jo < before.len() && #[trigger] before[jo].0@ == k;
                        if jo != j0 {
                            if jo < j0 {
                                assert(before[jo].0@ != before[j0].0@);
                            } else {
                                assert(before[j0].0@ != before[jo].0@);
                            }
                        }
                    }
                    assert(self.view() =~= old(self).view().remove(authority@));
                }
            },
            None => {
                assert(self.view() =~= old(self).view().remove(authority@));
            },
        }
    }

    /// Records the connection of an authority, in place of any earlier one.
    pub fn insert(&mut self, authority: &str, id: u64)
        requires
            old(self).well_formed(),
        ensures
            final(self).well_formed(),
            final(self).view() == old(self).view().insert(authority@, id),
    {
        self.remove(authority);
        let ghost before = self.entries@;
        let ghost mid = self.view();
        self.entries.push((crate::text::to_owned(authority), id));
        proof {
            assert forall|a: int, b: int| 0 <= a < b < self.entries@.len() implies #[trigger] self.entries@[a].0@
                != #[trigger] self.entries@[b].0@ by {
                if b == before.len() {
                    assert(!mid.dom().contains(authority@));
                    if before[a].0@ == authority@ {
                        assert(mid.dom().contains(authority@));
                    }
                } else {
                    assert(self.entries@[a] == before[a] && self.entries@[b] == before[b]);
                }
            }
            let n = before.len() as int;
            assert forall|k: Seq<char>| #[trigger] self.view().dom().contains(k) == mid.insert(authority@, id).dom().contains(k) by {
                if self.view().dom().contains(k) {
                    let j = choose|j: int| 0 <= j < self.entries@.len() && #[trigger] self.entries@[j].0@ == k;
                    if j < n {
                        assert(before[j].0@ == k);
                    }
                }
                if mid.dom().contains(k) {
                    let j = choose|j: int| 0 <= j < before.len() && #[trigger] before[j].0@ == k;
                    assert(self.entries@[j].0@ == k);
                }
                if k == authority@ {
                    assert(self.entries@[n].0@ == k);
                }
            }
            assert forall|k: Seq<char>| #[trigger] self.view().dom().contains(k) implies self.view()[k] == mid.insert(authority@, id)[k] by {
                let j = choose|j: int| 0 <= j < self.entries@.len() && #[trigger] self.entries@[j].0@ == k;
                if k == authority@ {
                    if j != n {
                        assert(self.entries@[j].0@ != self.entries@[n].0@);
                    }
                } else {
                    assert(j < n);
                    assert(before[j].0@ == k);
                    let jo = choose|jo: int| 0 <= jo < before.len() && #[trigger] before[jo].0@ == k;
                    if jo != j {
                        if jo < j {
                            assert(self.entries@[jo].0@ != self.entries@[j].0@);
                        } else {
                            assert(self.entries@[j].0@ != self.entries@[jo].0@);
                        }
                    }
                    assert(self.entries@[jo] == before[jo]);
                }
            }
            assert(self.view() =~= mid.insert(authority@, id));
            assert(mid.insert(authority@, id) =~= old(self).view().insert(authority@, id));
        }
    }
}

/// Drops every cached connection.
pub fn reset_for_tests(registry: &mut ConnectionRegistry)
    ensures
        final(registry).well_formed(),
        final(registry).view() == Map::<Seq<char>, u64>::empty(),
{
    registry.entries = Vec::new();
    assert(registry.view() =~= Map::<Seq<char>, u64>::empty());
}

/// What `cached` gives back of what `insert` recorded: the connection last
/// recorded for an authority, and nothing once it was removed or the
/// registry was reset.
pub proof fn cached_reads_back_inserts(m: Map<Seq<char>, u64>, authority: Seq<char>, other: Seq<char>, id: u64)
    ensures
        m.insert(authority, id).dom().contains(authority),
        m.insert(authority, id)[authority] == id,
        other != authority ==> m.insert(authority, id).dom().contains(other) == m.dom().contains(other),
        other != authority && m.dom().contains(other) ==> m.insert(authority, id)[other] == m[other],
        !m.remove(authority).dom().contains(authority),
        !Map::<Seq<char>, u64>::empty().dom().contains(authority),
{
}

/// The ranges of a split cover the file exactly: they start at its first
/// byte, follow each other without gap or overlap, end at its last byte, and
/// their lengths add up to its size.
pub proof fn split_ranges_cover_the_file(size: u64, count: usize, r: Seq<H2Range>)
    requires
        1 <= count <= size,
        r.len() == count,
        r[0].start == 0,
        r[count - 1].end == size - 1,
        forall|i: int| 0 <= i < count - 1 ==> #[trigger] r[i].end + 1 == r[i + 1].start,
        forall|i: int| 0 <= i < count ==> (#[trigger] r[i]).start <= r[i].end + 1,
    ensures
        forall|i: int| 0 <= i < count ==> 0 <= (#[trigger] r[i]).start && r[i].end < size,
        forall|i: int, j: int| 0 <= i < j < count ==> (#[trigger] r[i]).end < (#[trigger] r[j]).start,
{
    assert forall|i: int, j: int| 0 <= i < j < count implies (#[trigger] r[i]).end < (#[trigger] r[j]).start by {
        lemma_ranges_increase(r, i, j);
    }
    assert forall|i: int| 0 <= i < count implies 0 <= (#[trigger] r[i]).start && r[i].end < size by {
        if i < count - 1 {
            lemma_ranges_increase(r, i, count - 1);
        }
    }
}

proof fn lemma_ranges_increase(r: Seq<H2Range>, i: int, j: int)
    requires
        0 <= i < j < r.len(),
        forall|k: int| 0 <= k < r.len() - 1 ==> #[trigger] r[k].end + 1 == r[k + 1].start,
        forall|k: int| 0 <= k < r.len() ==> (#[trigger] r[k]).start <= r[k].end + 1,
    ensures
        r[i].end < r[j].start,
        r[i].end <= r[j].end,
    decreases j - i,
{
    if j > i + 1 {
        lemma_ranges_increase(r, i, j - 1);
    }
}

} // verus!
