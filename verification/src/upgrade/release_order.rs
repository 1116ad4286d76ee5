//! The order in which releases are offered: stable channels first, then the
//! newest publication, then the greater version id.
use vstd::prelude::*;
use crate::upgrade::candidates::{cands_view, CandView, UpgradeCandidate};
use crate::upgrade::order::{lemma_lex_total, lex_less, lex_lt};
use crate::upgrade::provider::{modrinth_channel, spec_modrinth_channel, ModrinthVersionInfo};
use std::cmp::Ordering;

verus! {

/// The sort key of a release: channel rank, publication time (seconds and
/// nanoseconds), version id.
pub type ReleaseKey = (u8, (i64, u32), Seq<char>);

/// `a` was published later than `b`.
pub open spec fn later(a: (i64, u32), b: (i64, u32)) -> bool {
    a.0 > b.0 || (a.0 == b.0 && a.1 > b.1)
}

/// `a` is offered strictly before `b`: higher channel rank, else later
/// publication, else the version id that sorts last.
pub open spec fn release_lt(a: ReleaseKey, b: ReleaseKey) -> bool {
    a.0 > b.0 || (a.0 == b.0 && (later(a.1, b.1) || (a.1 == b.1 && lex_lt(b.2, a.2))))
}

/// Position `x` comes before position `y` in a stable sort of `f` by
/// `release_lt`.
pub open spec fn release_before(f: Seq<ReleaseKey>, x: int, y: int) -> bool {
    release_lt(f[x], f[y]) || (f[x] == f[y] && x < y)
}

/// `perm` lists each position of `f` exactly once, in the order of a stable
/// sort by `release_lt`.
pub open spec fn is_release_order(f: Seq<ReleaseKey>, perm: Seq<usize>) -> bool {
    &&& perm.len() == f.len()
    &&& forall|k: int| 0 <= k < perm.len() ==> (#[trigger] perm[k]) < f.len()
    &&& forall|a: int, b: int| 0 <= a < b < perm.len() ==> #[trigger] perm[a] != #[trigger] perm[b]
    &&& forall|a: int, b: int|
        0 <= a < b < perm.len() ==> release_before(f, #[trigger] perm[a] as int, #[trigger] perm[b] as int)
}

pub proof fn lemma_lex_trans(a: Seq<char>, b: Seq<char>, c: Seq<char>)
    requires
        lex_lt(a, b),
        lex_lt(b, c),
    ensures
        lex_lt(a, c),
    decreases a.len(),
{
    if a.len() > 0 && a[0] == b[0] && b[0] == c[0] {
        lemma_lex_trans(a.drop_first(), b.drop_first(), c.drop_first());
    }
}

pub proof fn lemma_release_lt_order(a: ReleaseKey, b: ReleaseKey, c: ReleaseKey)
    ensures
        release_lt(a, b) || release_lt(b, a) || a == b,
        !release_lt(a, a),
        release_lt(a, b) && release_lt(b, c) ==> release_lt(a, c),
{
    lemma_lex_total(a.2, b.2);
    lemma_lex_total(a.2, a.2);
    if release_lt(a, b) && release_lt(b, c) && a.0 == b.0 && b.0 == c.0 && a.1 == b.1 && b.1 == c.1 {
        lemma_lex_trans(c.2, b.2, a.2);
    }
}

pub open spec fn key_views(keys: Seq<(u8, (i64, u32), Vec<char>)>) -> Seq<ReleaseKey> {
    keys.map_values(|k: (u8, (i64, u32), Vec<char>)| (k.0, k.1, k.2@))
}

fn release_less(a: &(u8, (i64, u32), Vec<char>), b: &(u8, (i64, u32), Vec<char>)) -> (r: bool)
    ensures
        r == release_lt((a.0, a.1, a.2@), (b.0, b.1, b.2@)),
{
    if a.0 != b.0 {
        a.0 > b.0
    } else if a.1.0 != b.1.0 {
        a.1.0 > b.1.0
    } else if a.1.1 != b.1.1 {
        a.1.1 > b.1.1
    } else {
        lex_less(&b.2, &a.2)
    }
}

/// The positions of `keys` in the order a stable sort by `release_lt` puts
/// them.
pub fn release_order(keys: &Vec<(u8, (i64, u32), Vec<char>)>) -> (order: Vec<usize>)
    ensures
        is_release_order(key_views(keys@), order@),
{
    let ghost f = key_views(keys@);
    let mut order: Vec<usize> = Vec::new();
    let mut n: usize = 0;
    while n < keys.len()
        invariant
            n <= keys.len(),
            f == key_views(keys@),
            order@.len() == n,
            forall|k: int| 0 <= k < n ==> (#[trigger] order@[k]) < n,
            forall|a: int, b: int| 0 <= a < b < n ==> #[trigger] order@[a] != #[trigger] order@[b],
            forall|a: int, b: int|
                0 <= a < b < n ==> release_before(f, #[trigger] order@[a] as int, #[trigger] order@[b] as int),
        decreases keys.len() - n,
    {
        let mut p: usize = 0;
        while p < order.len() && !release_less(&keys[n], &keys[order[p]])
            invariant
                p <= order@.len(),
                order@.len() == n,
                n < keys@.len(),
                f == key_views(keys@),
                forall|k: int| 0 <= k < n ==> (#[trigger] order@[k]) < n,
                forall|k: int| 0 <= k < p ==> !release_lt(f[n as int], f[(#[trigger] order@[k]) as int]),
            decreases order@.len() - p,
        {
            p += 1;
        }
        proof {
            if p < order@.len() {
                let op = order@[p as int] as int;
                assert(release_lt(f[n as int], f[op]));
                assert forall|k: int| p <= k < n implies release_lt(f[n as int], f[(#[trigger] order@[k]) as int]) by {
                    if k > p {
                        assert(release_before(f, order@[p as int] as int, order@[k] as int));
                        lemma_release_lt_order(f[n as int], f[op], f[order@[k] as int]);
                    }
                }
            }
            assert forall|k: int| 0 <= k < p implies release_before(f, (#[trigger] order@[k]) as int, n as int) by {
                lemma_release_lt_order(f[order@[k] as int], f[n as int], f[n as int]);
            }
        }
        let ghost old_order = order@;
        order.insert(p, n);
        proof {
            assert(order@ =~= old_order.subrange(0, p as int).push(n) + old_order.subrange(p as int, old_order.len() as int));
            assert forall|k: int| 0 <= k < n + 1 implies (#[trigger] order@[k]) < n + 1 by {
                if k < p {
                    assert(order@[k] == old_order[k]);
                } else if k > p {
                    assert(order@[k] == old_order[k - 1]);
                }
            }
            assert forall|a: int, b: int| 0 <= a < b < n + 1 implies #[trigger] order@[a] != #[trigger] order@[b] by {
                if b < p {
                    assert(order@[a] == old_order[a] && order@[b] == old_order[b]);
                } else if b == p {
                    assert(order@[a] == old_order[a]);
                } else if a < p {
                    assert(order@[a] == old_order[a] && order@[b] == old_order[b - 1]);
                } else if a == p {
                    assert(order@[b] == old_order[b - 1]);
                } else {
                    assert(order@[a] == old_order[a - 1] && order@[b] == old_order[b - 1]);
                }
            }
            assert forall|a: int, b: int| 0 <= a < b < n + 1 implies release_before(
                f,
                #[trigger] order@[a] as int,
                #[trigger] order@[b] as int,
            ) by {
                if b < p {
                    assert(order@[a] == old_order[a] && order@[b] == old_order[b]);
                } else if b == p {
                    assert(order@[a] == old_order[a]);
                } else if a < p {
                    assert(order@[a] == old_order[a] && order@[b] == old_order[b - 1]);
                } else if a == p {
                    assert(order@[b] == old_order[b - 1]);
                } else {
                    assert(order@[a] == old_order[a - 1] && order@[b] == old_order[b - 1]);
                }
            }
        }
        n += 1;
    }
    order
}

/// In a stable release order no release comes after one it sorts strictly
/// before: the keys never rise along the order.
pub proof fn release_order_is_sorted(f: Seq<ReleaseKey>, perm: Seq<usize>)
    requires
        is_release_order(f, perm),
    ensures
        forall|a: int, b: int|
            0 <= a < b < perm.len() ==> !release_lt(f[#[trigger] perm[b] as int], f[#[trigger] perm[a] as int]),
{
    assert forall|a: int, b: int| 0 <= a < b < perm.len() implies !release_lt(
        f[#[trigger] perm[b] as int],
        f[#[trigger] perm[a] as int],
    ) by {
        assert(release_before(f, perm[a] as int, perm[b] as int));
        lemma_release_lt_order(f[perm[a] as int], f[perm[b] as int], f[perm[a] as int]);
        lemma_release_lt_order(f[perm[b] as int], f[perm[b] as int], f[perm[b] as int]);
    }
}

/// The sort key of a candidate.
pub open spec fn candidate_key(c: CandView) -> ReleaseKey {
    (c.channel.spec_rank(), (c.published, c.published_nanos), c.version_id)
}

pub open spec fn candidate_keys(cs: Seq<CandView>) -> Seq<ReleaseKey> {
    cs.map_values(|c: CandView| candidate_key(c))
}

/// Sorts candidates stably: stable channels first, then the newest, then
/// the greater version id.
pub fn sort_candidates(candidates: &mut Vec<UpgradeCandidate>)
    ensures
        final(candidates)@.len() == old(candidates)@.len(),
        exists|perm: Seq<usize>|
            is_release_order(candidate_keys(cands_view(old(candidates)@)), perm) && forall|k: int|
                0 <= k < perm.len() ==> cands_view(final(candidates)@)[k] == cands_view(
                    old(candidates)@,
                )[#[trigger] perm[k] as int],
{
    let ghost cs = cands_view(candidates@);
    let mut keys: Vec<(u8, (i64, u32), Vec<char>)> = Vec::new();
    let mut i: usize = 0;
    while i < candidates.len()
        invariant
            i <= candidates.len(),
            cs == cands_view(candidates@),
            key_views(keys@) == candidate_keys(cs).subrange(0, i as int),
        decreases candidates.len() - i,
    {
        let c = &candidates[i];
        let ghost before = keys@;
        keys.push((c.channel.rank(), (c.published, c.published_nanos), crate::text::chars_of(c.version_id.as_str())));
        assert(key_views(keys@) =~= key_views(before).push(candidate_key(cs[i as int])));
        assert(candidate_keys(cs).subrange(0, i + 1) =~= candidate_keys(cs).subrange(0, i as int).push(
            candidate_key(cs[i as int]),
        ));
        i += 1;
    }
    assert(candidate_keys(cs).subrange(0, candidates.len() as int) =~= candidate_keys(cs));
    let order = release_order(&keys);
    let mut out: Vec<UpgradeCandidate> = Vec::new();
    let mut k: usize = 0;
    while k < order.len()
        invariant
            k <= order.len(),
            cs == cands_view(candidates@),
            order@.len() == candidates@.len(),
            forall|q: int| 0 <= q < order@.len() ==> (#[trigger] order@[q]) < candidates@.len(),
            out@.len() == k,
            forall|q: int| 0 <= q < k ==> cands_view(out@)[q] == cs[(#[trigger] order@[q]) as int],
        decreases order.len() - k,
    {
        let ghost before = out@;
        out.push(candidates[order[k]].copy());
        assert forall|q: int| 0 <= q < k + 1 implies cands_view(out@)[q] == cs[(#[trigger] order@[q]) as int] by {
            if q < k {
                assert(out@[q] == before[q]);
            }
        }
        k += 1;
    }
    *candidates = out;
}

/// The sort key of a Modrinth version.
pub open spec fn modrinth_key(v: ModrinthVersionInfo) -> ReleaseKey {
    (spec_modrinth_channel(v.version_type@).spec_rank(), (v.date_published, v.date_published_nanos), v.id@)
}

/// How two Modrinth versions compare in the order they are offered in:
/// `Less` when `left` comes first.
pub fn compare_modrinth_version(left: &ModrinthVersionInfo, right: &ModrinthVersionInfo) -> (r: Ordering)
    ensures
        (r == Ordering::Less) == release_lt(modrinth_key(*left), modrinth_key(*right)),
        (r == Ordering::Greater) == release_lt(modrinth_key(*right), modrinth_key(*left)),
{
    let left_key = (
        modrinth_channel(left.version_type.as_str()).rank(),
        (left.date_published, left.date_published_nanos),
        crate::text::chars_of(left.id.as_str()),
    );
    let right_key = (
        modrinth_channel(right.version_type.as_str()).rank(),
        (right.date_published, right.date_published_nanos),
        crate::text::chars_of(right.id.as_str()),
    );
    proof {
        lemma_release_lt_order(modrinth_key(*left), modrinth_key(*right), modrinth_key(*left));
    }
    if release_less(&left_key, &right_key) {
        Ordering::Less
    } else if release_less(&right_key, &left_key) {
        Ordering::Greater
    } else {
        Ordering::Equal
    }
}

} // verus!
