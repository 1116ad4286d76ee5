//! Ranking of solutions: the newest solution and the one that changes the
//! installed content least.
use vstd::prelude::*;
use crate::upgrade::candidates::{CandView, KeyView, cands_view};
use crate::upgrade::snapshot::{AliasView, InstalledNode, NodeView, nodes_view};
use crate::upgrade::solver::{RootRequest, SolverResult, result_view};

verus! {

/// `k` is the project of some root.
pub open spec fn is_root_key(roots: Seq<RootRequest>, k: KeyView) -> bool {
    exists|i: int| 0 <= i < roots.len() && (#[trigger] roots[i]).key@ == k
}

/// The lowest channel rank of the chosen releases (0 when none is chosen).
pub open spec fn min_rank(s: Seq<CandView>) -> int
    decreases s.len(),
{
    if s.len() == 0 {
        0
    } else {
        let r = s.last().channel.spec_rank() as int;
        let p = s.drop_last();
        if p.len() == 0 {
            r
        } else if min_rank(p) < r {
            min_rank(p)
        } else {
            r
        }
    }
}

/// Sum of the publication times of the releases chosen for root projects
/// (`roots_side`) or for the other projects.
pub open spec fn fresh_sum(s: Seq<CandView>, roots: Seq<RootRequest>, roots_side: bool) -> int
    decreases s.len(),
{
    if s.len() == 0 {
        0
    } else {
        fresh_sum(s.drop_last(), roots, roots_side) + if is_root_key(roots, s.last().key)
            == roots_side {
            s.last().published as int
        } else {
            0
        }
    }
}

/// The roots whose project receives a release other than the installed one.
pub open spec fn changed_count(roots: Seq<RootRequest>, s: Seq<CandView>) -> int
    decreases roots.len(),
{
    if roots.len() == 0 {
        0
    } else {
        let root = roots.last();
        changed_count(roots.drop_last(), s) + if exists|j: int|
            0 <= j < s.len() && (#[trigger] s[j]).key == root.key@ && s[j].version_id
                != root.current_release_id@ {
            1int
        } else {
            0int
        }
    }
}

/// The key by which the newest solution is the greatest: most stable
/// channel, then freshest roots, then freshest dependencies, then fewest
/// changed roots.
pub open spec fn newest_key(s: Seq<CandView>, roots: Seq<RootRequest>) -> (int, int, int, int) {
    (min_rank(s), fresh_sum(s, roots, true), fresh_sum(s, roots, false), -changed_count(roots, s))
}

pub open spec fn lt4(a: (int, int, int, int), b: (int, int, int, int)) -> bool {
    a.0 < b.0 || (a.0 == b.0 && (a.1 < b.1 || (a.1 == b.1 && (a.2 < b.2 || (a.2 == b.2
        && a.3 < b.3)))))
}

/// Every alias of every installed node, node by node.
pub open spec fn all_aliases(nodes: Seq<NodeView>) -> Seq<AliasView>
    decreases nodes.len(),
{
    if nodes.len() == 0 {
        Seq::empty()
    } else {
        all_aliases(nodes.drop_last()) + nodes.last().aliases
    }
}

/// The installed release of project `k`: the last alias that names it.
pub open spec fn alias_release(aliases: Seq<AliasView>, k: KeyView) -> Option<Seq<char>>
    decreases aliases.len(),
{
    if aliases.len() == 0 {
        None
    } else if aliases.last().0 == k {
        Some(aliases.last().1)
    } else {
        alias_release(aliases.drop_last(), k)
    }
}

/// Chosen dependencies (not roots) that replace an installed release.
pub open spec fn dependency_replacements(
    s: Seq<CandView>,
    roots: Seq<RootRequest>,
    aliases: Seq<AliasView>,
) -> int
    decreases s.len(),
{
    if s.len() == 0 {
        0
    } else {
        let c = s.last();
        dependency_replacements(s.drop_last(), roots, aliases) + if !is_root_key(roots, c.key)
            && alias_release(aliases, c.key) is Some && alias_release(aliases, c.key)
            != Some(c.version_id) {
            1int
        } else {
            0int
        }
    }
}

/// Chosen dependencies (not roots) that nothing installed provides.
pub open spec fn dependency_additions(
    s: Seq<CandView>,
    roots: Seq<RootRequest>,
    aliases: Seq<AliasView>,
) -> int
    decreases s.len(),
{
    if s.len() == 0 {
        0
    } else {
        let c = s.last();
        dependency_additions(s.drop_last(), roots, aliases) + if !is_root_key(roots, c.key)
            && alias_release(aliases, c.key) is None {
            1int
        } else {
            0int
        }
    }
}

/// An automatically added dependency that the solution no longer needs and
/// that no user-owned copy protects.
pub open spec fn removable(node: NodeView, nodes: Seq<NodeView>, s: Seq<CandView>) -> bool {
    &&& node.auto_dependency
    &&& node.migratable
    &&& !exists|a: int, j: int|
        0 <= a < node.aliases.len() && 0 <= j < s.len() && (#[trigger] node.aliases[a]).0 == (
        #[trigger] s[j]).key
    &&& !exists|o: int| 0 <= o < nodes.len() && (#[trigger] nodes[o]).key == node.key && nodes[o].user_owned
}

pub open spec fn removal_count(prefix: Seq<NodeView>, nodes: Seq<NodeView>, s: Seq<CandView>) -> int
    decreases prefix.len(),
{
    if prefix.len() == 0 {
        0
    } else {
        removal_count(prefix.drop_last(), nodes, s) + if removable(prefix.last(), nodes, s) {
            1int
        } else {
            0int
        }
    }
}

/// The key by which the minimal-change solution is the least: fewest
/// replaced roots, replaced dependencies, added dependencies, removed
/// dependencies, and then the freshest releases.
pub open spec fn minimal_key(s: Seq<CandView>, roots: Seq<RootRequest>, nodes: Seq<NodeView>) -> (
    int,
    int,
    int,
    int,
    int,
) {
    (
        changed_count(roots, s),
        dependency_replacements(s, roots, all_aliases(nodes)),
        dependency_additions(s, roots, all_aliases(nodes)),
        removal_count(nodes, nodes, s),
        -(fresh_sum(s, roots, true) + fresh_sum(s, roots, false)),
    )
}

pub open spec fn lt5(a: (int, int, int, int, int), b: (int, int, int, int, int)) -> bool {
    a.0 < b.0 || (a.0 == b.0 && lt4((a.1, a.2, a.3, a.4), (b.1, b.2, b.3, b.4)))
}

/// `s1` and `s2` choose the same releases but at position `k`, where both
/// choose a release of the same project.
pub open spec fn differ_only_at(s1: Seq<CandView>, s2: Seq<CandView>, k: int) -> bool {
    &&& s1.len() == s2.len()
    &&& 0 <= k < s1.len()
    &&& s1[k].key == s2[k].key
    &&& forall|i: int| 0 <= i < s1.len() && i != k ==> s1[i] == s2[i]
}

proof fn lemma_replacements_differ_at(s1: Seq<CandView>, s2: Seq<CandView>, k: int, roots: Seq<RootRequest>, aliases: Seq<AliasView>)
    requires
        differ_only_at(s1, s2, k),
        !is_root_key(roots, s1[k].key),
        alias_release(aliases, s1[k].key) == Some(s1[k].version_id),
        s2[k].version_id != s1[k].version_id,
    ensures
        dependency_replacements(s2, roots, aliases) == dependency_replacements(s1, roots, aliases) + 1,
    decreases s1.len(),
{
    let n = s1.len() - 1;
    if k == n {
        assert(s1.drop_last() =~= s2.drop_last()) by {
            assert forall|i: int| 0 <= i < n implies s1.drop_last()[i] == s2.drop_last()[i] by {
                assert(s1[i] == s2[i]);
            }
        }
        assert(s1.last() == s1[k] && s2.last() == s2[k]);
    } else {
        assert(differ_only_at(s1.drop_last(), s2.drop_last(), k)) by {
            assert forall|i: int| 0 <= i < n && i != k implies s1.drop_last()[i] == s2.drop_last()[i] by {
                assert(s1[i] == s2[i]);
            }
        }
        lemma_replacements_differ_at(s1.drop_last(), s2.drop_last(), k, roots, aliases);
        assert(s1.last() == s2.last()) by {
            assert(s1[n] == s2[n]);
        }
    }
}

proof fn lemma_changed_differ_at(roots: Seq<RootRequest>, s1: Seq<CandView>, s2: Seq<CandView>, k: int)
    requires
        differ_only_at(s1, s2, k),
        !is_root_key(roots, s1[k].key),
    ensures
        changed_count(roots, s1) == changed_count(roots, s2),
    decreases roots.len(),
{
    if roots.len() > 0 {
        let d = roots.drop_last();
        assert(!is_root_key(d, s1[k].key)) by {
            if is_root_key(d, s1[k].key) {
                let i = choose|i: int| 0 <= i < d.len() && (#[trigger] d[i]).key@ == s1[k].key;
                assert(roots[i] == d[i]);
            }
        }
        lemma_changed_differ_at(d, s1, s2, k);
        let root = roots.last();
        assert(root.key@ != s1[k].key) by {
            assert(roots[roots.len() - 1] == root);
        }
        let e1 = exists|j: int|
            0 <= j < s1.len() && (#[trigger] s1[j]).key == root.key@ && s1[j].version_id != root.current_release_id@;
        let e2 = exists|j: int|
            0 <= j < s2.len() && (#[trigger] s2[j]).key == root.key@ && s2[j].version_id != root.current_release_id@;
        if e1 {
            let j = choose|j: int|
                0 <= j < s1.len() && (#[trigger] s1[j]).key == root.key@ && s1[j].version_id != root.current_release_id@;
            assert(s2[j] == s1[j]);
        }
        if e2 {
            let j = choose|j: int|
                0 <= j < s2.len() && (#[trigger] s2[j]).key == root.key@ && s2[j].version_id != root.current_release_id@;
            assert(s2[j] == s1[j]);
        }
    }
}

/// A dependency kept at its installed release is no replacement: of two
/// solutions that differ only in the release of one dependency (no root),
/// the one that keeps the installed release counts one replacement fewer,
/// the same replaced roots, and so is the smaller change.
pub proof fn keeping_an_installed_dependency_is_the_smaller_change(
    s1: Seq<CandView>,
    s2: Seq<CandView>,
    k: int,
    roots: Seq<RootRequest>,
    nodes: Seq<NodeView>,
)
    requires
        differ_only_at(s1, s2, k),
        !is_root_key(roots, s1[k].key),
        alias_release(all_aliases(nodes), s1[k].key) == Some(s1[k].version_id),
        s2[k].version_id != s1[k].version_id,
    ensures
        minimal_key(s1, roots, nodes).0 == minimal_key(s2, roots, nodes).0,
        minimal_key(s2, roots, nodes).1 == minimal_key(s1, roots, nodes).1 + 1,
        lt5(minimal_key(s1, roots, nodes), minimal_key(s2, roots, nodes)),
{
    lemma_replacements_differ_at(s1, s2, k, roots, all_aliases(nodes));
    lemma_changed_differ_at(roots, s1, s2, k);
}

/// So the minimal-change pick never replaces an installed dependency where a
/// solution that keeps it, and is otherwise the same, was found.
pub proof fn minimal_pick_keeps_installed_dependencies(
    sols: Seq<SolverResult>,
    m: int,
    i: int,
    k: int,
    roots: Seq<RootRequest>,
    nodes: Seq<NodeView>,
)
    requires
        0 <= m < sols.len(),
        0 <= i < sols.len(),
        forall|j: int|
            0 <= j < sols.len() ==> !lt5(
                minimal_key(result_view(#[trigger] sols[j]), roots, nodes),
                minimal_key(result_view(sols[m]), roots, nodes),
            ),
        differ_only_at(result_view(sols[i]), result_view(sols[m]), k),
        !is_root_key(roots, result_view(sols[i])[k].key),
        alias_release(all_aliases(nodes), result_view(sols[i])[k].key) == Some(result_view(sols[i])[k].version_id),
    ensures
        result_view(sols[m])[k].version_id == result_view(sols[i])[k].version_id,
{
    if result_view(sols[m])[k].version_id != result_view(sols[i])[k].version_id {
        keeping_an_installed_dependency_is_the_smaller_change(
            result_view(sols[i]),
            result_view(sols[m]),
            k,
            roots,
            nodes,
        );
        assert(!lt5(minimal_key(result_view(sols[i]), roots, nodes), minimal_key(result_view(sols[m]), roots, nodes)));
    }
}

pub fn is_root(roots: &Vec<RootRequest>, key: &crate::upgrade::candidates::NodeKey) -> (r: bool)
    ensures
        r == is_root_key(roots@, key@),
{
    let mut i: usize = 0;
    while i < roots.len()
        invariant
            i <= roots.len(),
            forall|k: int| 0 <= k < i ==> (#[trigger] roots@[k]).key@ != key@,
        decreases roots.len() - i,
    {
        if roots[i].key.same(key) {
            return true;
        }
        i += 1;
    }
    false
}

/// The two freshness sums of a solution.
fn freshness(solution: &SolverResult, roots: &Vec<RootRequest>) -> (r: (i128, i128, i128))
    ensures
        r.0 == fresh_sum(result_view(*solution), roots@, true),
        r.1 == fresh_sum(result_view(*solution), roots@, false),
        r.2 == r.0 + r.1,
{
    let ghost s = result_view(*solution);
    let mut a: i128 = 0;
    let mut b: i128 = 0;
    let mut t: i128 = 0;
    let mut i: usize = 0;
    assert(s.subrange(0, 0) =~= Seq::<CandView>::empty());
    while i < solution.assignments.len()
        invariant
            i <= solution.assignments.len(),
            s == result_view(*solution),
            s.len() == solution.assignments@.len(),
            a == fresh_sum(s.subrange(0, i as int), roots@, true),
            b == fresh_sum(s.subrange(0, i as int), roots@, false),
            -(i as int) * 0x8000_0000_0000_0000 <= a <= (i as int) * 0x8000_0000_0000_0000,
            -(i as int) * 0x8000_0000_0000_0000 <= b <= (i as int) * 0x8000_0000_0000_0000,
            -(i as int) * 0x8000_0000_0000_0000 <= t <= (i as int) * 0x8000_0000_0000_0000,
            t == a + b,
            i <= usize::MAX,
        decreases solution.assignments.len() - i,
    {
        let c = &solution.assignments[i];
        assert(s.subrange(0, i + 1).drop_last() =~= s.subrange(0, i as int));
        assert(s[i as int] == c@);
        assert((i as int) * 0x8000_0000_0000_0000 + 0x8000_0000_0000_0000 < 0x8000_0000_0000_0000_0000_0000_0000_0000)
            by (nonlinear_arith)
            requires
                i < usize::MAX,
                usize::MAX <= 0xffff_ffff_ffff_ffff,
        ;
        assert((i as int) * 0x8000_0000_0000_0000 + 0x8000_0000_0000_0000 == (i + 1) as int
            * 0x8000_0000_0000_0000) by (nonlinear_arith);
        if is_root(roots, &c.key) {
            a = a + c.published as i128;
        } else {
            b = b + c.published as i128;
        }
        t = t + c.published as i128;
        i += 1;
    }
    assert(s.subrange(0, s.len() as int) =~= s);
    (a, b, t)
}

fn changed(solution: &SolverResult, roots: &Vec<RootRequest>) -> (r: usize)
    ensures
        r == changed_count(roots@, result_view(*solution)),
{
    let ghost s = result_view(*solution);
    let mut count: usize = 0;
    let mut i: usize = 0;
    assert(roots@.subrange(0, 0) =~= Seq::<RootRequest>::empty());
    while i < roots.len()
        invariant
            i <= roots.len(),
            s == result_view(*solution),
            count == changed_count(roots@.subrange(0, i as int), s),
            count <= i,
        decreases roots.len() - i,
    {
        let root = &roots[i];
        assert(roots@.subrange(0, i + 1).drop_last() =~= roots@.subrange(0, i as int));
        let mut hit = false;
        let mut j: usize = 0;
        while j < solution.assignments.len()
            invariant
                j <= solution.assignments.len(),
                s == result_view(*solution),
                hit == exists|k: int|
                    0 <= k < j && (#[trigger] s[k]).key == root.key@ && s[k].version_id
                        != root.current_release_id@,
            decreases solution.assignments.len() - j,
        {
            let c = &solution.assignments[j];
            assert(s[j as int] == c@);
            if c.key.same(&root.key) && c.version_id != root.current_release_id {
                hit = true;
            }
            j += 1;
        }
        if hit {
            count += 1;
        }
        i += 1;
    }
    assert(roots@.subrange(0, roots@.len() as int) =~= roots@);
    count
}

/// The newest-solution key of a solution.
pub fn newest_score(solution: &SolverResult, roots: &Vec<RootRequest>) -> (r: (u8, i128, i128, usize))
    ensures
        (r.0 as int, r.1 as int, r.2 as int, -(r.3 as int)) == newest_key(result_view(*solution), roots@),
{
    let ghost s = result_view(*solution);
    let mut stable: u8 = 0;
    let mut i: usize = 0;
    assert(s.subrange(0, 0) =~= Seq::<CandView>::empty());
    while i < solution.assignments.len()
        invariant
            i <= solution.assignments.len(),
            s == result_view(*solution),
            s.len() == solution.assignments@.len(),
            stable == min_rank(s.subrange(0, i as int)),
            stable <= 3,
        decreases solution.assignments.len() - i,
    {
        let rank = solution.assignments[i].channel.rank();
        assert(s.subrange(0, i + 1).drop_last() =~= s.subrange(0, i as int));
        assert(s[i as int] == solution.assignments@[i as int]@);
        if i == 0 || rank < stable {
            stable = rank;
        }
        i += 1;
    }
    assert(s.subrange(0, s.len() as int) =~= s);
    let (a, b, _) = freshness(solution, roots);
    let c = changed(solution, roots);
    (stable, a, b, c)
}

/// Index of the newest solution: the last one of greatest key.
pub fn pick_newest(solutions: &Vec<SolverResult>, roots: &Vec<RootRequest>) -> (r: Option<usize>)
    ensures
        r is None <==> solutions@.len() == 0,
        r matches Some(k) ==> k < solutions@.len() && (forall|j: int|
            0 <= j < solutions@.len() ==> !lt4(
                newest_key(result_view(solutions@[k as int]), roots@),
                newest_key(result_view(#[trigger] solutions@[j]), roots@),
            )) && (forall|j: int|
            k < j < solutions@.len() ==> lt4(
                newest_key(result_view(#[trigger] solutions@[j]), roots@),
                newest_key(result_view(solutions@[k as int]), roots@),
            )),
{
    if solutions.len() == 0 {
        return None;
    }
    let mut best: usize = 0;
    let mut best_score = newest_score(&solutions[0], roots);
    let mut i: usize = 1;
    while i < solutions.len()
        invariant
            1 <= i <= solutions.len(),
            best < i,
            (best_score.0 as int, best_score.1 as int, best_score.2 as int, -(best_score.3 as int))
                == newest_key(result_view(solutions@[best as int]), roots@),
            forall|j: int|
                0 <= j < i ==> !lt4(
                    newest_key(result_view(solutions@[best as int]), roots@),
                    newest_key(result_view(#[trigger] solutions@[j]), roots@),
                ),
            forall|j: int|
                best < j < i ==> lt4(
                    newest_key(result_view(#[trigger] solutions@[j]), roots@),
                    newest_key(result_view(solutions@[best as int]), roots@),
                ),
        decreases solutions.len() - i,
    {
        let score = newest_score(&solutions[i], roots);
        let lower = score.0 < best_score.0 || (score.0 == best_score.0 && (score.1 < best_score.1
            || (score.1 == best_score.1 && (score.2 < best_score.2 || (score.2 == best_score.2
            && score.3 > best_score.3)))));
        if !lower {
            best = i;
            best_score = score;
        }
        i += 1;
    }
    Some(best)
}

/// The minimal-change key of a solution.
pub fn minimal_score(
    solution: &SolverResult,
    roots: &Vec<RootRequest>,
    installed: &Vec<InstalledNode>,
) -> (r: (usize, usize, usize, usize, i128))
    ensures
        (r.0 as int, r.1 as int, r.2 as int, r.3 as int, -(r.4 as int)) == minimal_key(
            result_view(*solution),
            roots@,
            nodes_view(installed@),
        ),
{
    let ghost s = result_view(*solution);
    let ghost nv = nodes_view(installed@);
    let ghost aliases = all_aliases(nv);
    let root_replacements = changed(solution, roots);
    let mut replacements: usize = 0;
    let mut additions: usize = 0;
    let mut i: usize = 0;
    assert(s.subrange(0, 0) =~= Seq::<CandView>::empty());
    while i < solution.assignments.len()
        invariant
            i <= solution.assignments.len(),
            s == result_view(*solution),
            s.len() == solution.assignments@.len(),
            nv == nodes_view(installed@),
            aliases == all_aliases(nv),
            replacements == dependency_replacements(s.subrange(0, i as int), roots@, aliases),
            additions == dependency_additions(s.subrange(0, i as int), roots@, aliases),
            replacements <= i,
            additions <= i,
        decreases solution.assignments.len() - i,
    {
        let c = &solution.assignments[i];
        assert(s.subrange(0, i + 1).drop_last() =~= s.subrange(0, i as int));
        assert(s[i as int] == c@);
        if !is_root(roots, &c.key) {
            match installed_release(installed, &c.key) {
                Some(current) => {
                    if current != c.version_id {
                        replacements += 1;
                    }
                },
                None => {
                    additions += 1;
                },
            }
        }
        i += 1;
    }
    assert(s.subrange(0, s.len() as int) =~= s);
    let removals = auto_removals(solution, installed);
    let (_, _, total) = freshness(solution, roots);
    (root_replacements, replacements, additions, removals, total)
}

/// The release installed for project `key`, as the last alias naming it
/// gives it.
pub fn installed_release(installed: &Vec<InstalledNode>, key: &crate::upgrade::candidates::NodeKey) -> (r: Option<String>)
    ensures
        crate::model::opt_str_view(r) == alias_release(all_aliases(nodes_view(installed@)), key@),
{
    let ghost nv = nodes_view(installed@);
    let mut n = installed.len();
    assert(nv.subrange(0, n as int) =~= nv);
    while n > 0
        invariant
            n <= installed.len(),
            nv == nodes_view(installed@),
            alias_release(all_aliases(nv), key@) == alias_release(all_aliases(nv.subrange(0, n as int)), key@),
        decreases n,
    {
        let node = &installed[n - 1];
        let ghost pre = nv.subrange(0, n - 1);
        assert(nv.subrange(0, n as int).drop_last() =~= pre);
        assert(nv.subrange(0, n as int).last() == node@);
        let ghost base = all_aliases(pre);
        let ghost al = node@.aliases;
        let mut a = node.aliases.len();
        assert((base + al).subrange(0, (base.len() + a) as int) =~= base + al);
        while a > 0
            invariant
                a <= node.aliases.len(),
                nv == nodes_view(installed@),
                al == node@.aliases,
                al.len() == node.aliases@.len(),
                alias_release(all_aliases(nv), key@) == alias_release(
                    (base + al).subrange(0, base.len() + a),
                    key@,
                ),
            decreases a,
        {
            let ghost cur = (base + al).subrange(0, base.len() + a);
            assert(cur.last() == al[a - 1]);
            assert(al[a - 1] == node.aliases@[a - 1]@);
            if node.aliases[a - 1].key.same(key) {
                let r = node.aliases[a - 1].current_release_id.clone();
                assert(cur.last().0 == key@);
                assert(alias_release(cur, key@) == Some(cur.last().1));
                assert(r@ == cur.last().1);
                return Some(r);
            }
            assert(cur.drop_last() =~= (base + al).subrange(0, base.len() + a - 1));
            a -= 1;
        }
        assert((base + al).subrange(0, base.len() as int) =~= base);
        n -= 1;
    }
    assert(all_aliases(nv.subrange(0, 0)) =~= Seq::<AliasView>::empty()) by {
        assert(nv.subrange(0, 0) =~= Seq::<NodeView>::empty());
    }
    None
}

/// Whether one of `node`'s aliases is a project the solution assigns.
fn node_assigned(node: &InstalledNode, solution: &SolverResult) -> (r: bool)
    ensures
        r == exists|a: int, j: int|
            0 <= a < node@.aliases.len() && 0 <= j < result_view(*solution).len() && (
            #[trigger] node@.aliases[a]).0 == (#[trigger] result_view(*solution)[j]).key,
{
    let ghost s = result_view(*solution);
    let mut a: usize = 0;
    while a < node.aliases.len()
        invariant
            a <= node.aliases.len(),
            s == result_view(*solution),
            forall|x: int, j: int|
                0 <= x < a && 0 <= j < s.len() ==> (#[trigger] node@.aliases[x]).0 != (#[trigger] s[j]).key,
        decreases node.aliases.len() - a,
    {
        assert(node@.aliases[a as int] == node.aliases@[a as int]@);
        match crate::upgrade::solver::find_assignment(&solution.assignments, &node.aliases[a].key) {
            Some(j) => {
                assert(s[j as int] == solution.assignments@[j as int]@);
                return true;
            },
            None => {
                assert forall|j: int| 0 <= j < s.len() implies node@.aliases[a as int].0 != (#[trigger] s[j]).key by {
                    assert(s[j] == solution.assignments@[j]@);
                }
            },
        }
        a += 1;
    }
    false
}

fn auto_removals(solution: &SolverResult, installed: &Vec<InstalledNode>) -> (r: usize)
    ensures
        r == removal_count(nodes_view(installed@), nodes_view(installed@), result_view(*solution)),
{
    let ghost s = result_view(*solution);
    let ghost nv = nodes_view(installed@);
    let mut count: usize = 0;
    let mut i: usize = 0;
    assert(nv.subrange(0, 0) =~= Seq::<NodeView>::empty());
    while i < installed.len()
        invariant
            i <= installed.len(),
            s == result_view(*solution),
            nv == nodes_view(installed@),
            count == removal_count(nv.subrange(0, i as int), nv, s),
            count <= i,
        decreases installed.len() - i,
    {
        let node = &installed[i];
        assert(nv.subrange(0, i + 1).drop_last() =~= nv.subrange(0, i as int));
        assert(nv[i as int] == node@);
        if node.auto_dependency && node.migratable && !node_assigned(node, solution) {
            let mut protected = false;
            let mut o: usize = 0;
            while o < installed.len()
                invariant
                    o <= installed.len(),
                    nv == nodes_view(installed@),
                    protected == exists|x: int| 0 <= x < o && (#[trigger] nv[x]).key == node@.key && nv[x].user_owned,
                decreases installed.len() - o,
            {
                assert(nv[o as int] == installed@[o as int]@);
                if installed[o].key.same(&node.key) && installed[o].user_owned {
                    protected = true;
                }
                o += 1;
            }
            if !protected {
                count += 1;
            }
        }
        i += 1;
    }
    assert(nv.subrange(0, nv.len() as int) =~= nv);
    count
}

/// Index of the minimal-change solution: the first one of least key.
pub fn pick_minimal(
    solutions: &Vec<SolverResult>,
    roots: &Vec<RootRequest>,
    installed: &Vec<InstalledNode>,
) -> (r: Option<usize>)
    ensures
        r is None <==> solutions@.len() == 0,
        r matches Some(k) ==> k < solutions@.len() && (forall|j: int|
            0 <= j < solutions@.len() ==> !lt5(
                minimal_key(result_view(#[trigger] solutions@[j]), roots@, nodes_view(installed@)),
                minimal_key(result_view(solutions@[k as int]), roots@, nodes_view(installed@)),
            )) && (forall|j: int|
            0 <= j < k ==> lt5(
                minimal_key(result_view(solutions@[k as int]), roots@, nodes_view(installed@)),
                minimal_key(result_view(#[trigger] solutions@[j]), roots@, nodes_view(installed@)),
            )),
{
    if solutions.len() == 0 {
        return None;
    }
    let ghost nv = nodes_view(installed@);
    let mut best: usize = 0;
    let mut best_score = minimal_score(&solutions[0], roots, installed);
    let mut i: usize = 1;
    while i < solutions.len()
        invariant
            1 <= i <= solutions.len(),
            best < i,
            nv == nodes_view(installed@),
            (best_score.0 as int, best_score.1 as int, best_score.2 as int, best_score.3 as int, -(best_score.4 as int))
                == minimal_key(result_view(solutions@[best as int]), roots@, nv),
            forall|j: int|
                0 <= j < i ==> !lt5(
                    minimal_key(result_view(#[trigger] solutions@[j]), roots@, nv),
                    minimal_key(result_view(solutions@[best as int]), roots@, nv),
                ),
            forall|j: int|
                0 <= j < best ==> lt5(
                    minimal_key(result_view(solutions@[best as int]), roots@, nv),
                    minimal_key(result_view(#[trigger] solutions@[j]), roots@, nv),
                ),
        decreases solutions.len() - i,
    {
        let score = minimal_score(&solutions[i], roots, installed);
        let lower = score.0 < best_score.0 || (score.0 == best_score.0 && (score.1 < best_score.1
            || (score.1 == best_score.1 && (score.2 < best_score.2 || (score.2 == best_score.2
            && (score.3 < best_score.3 || (score.3 == best_score.3 && score.4 > best_score.4)))))));
        if lower {
            proof {
                assert forall|j: int| 0 <= j < i implies lt5(
                    minimal_key(result_view(solutions@[i as int]), roots@, nv),
                    #[trigger] minimal_key(result_view(solutions@[j]), roots@, nv),
                ) by {
                    let a = minimal_key(result_view(solutions@[i as int]), roots@, nv);
                    let b = minimal_key(result_view(solutions@[best as int]), roots@, nv);
                    let c = minimal_key(result_view(solutions@[j]), roots@, nv);
                    assert(lt5(a, b));
                    assert(!lt5(c, b));
                }
            }
            best = i;
            best_score = score;
        }
        i += 1;
    }
    Some(best)
}

} // verus!
