//! Candidates, catalog and installed-node data of the upgrade planner, with
//! their mathematical views.
use vstd::prelude::*;
use crate::model::ContentProvider;
use crate::upgrade::provider::EARLIEST_PUBLISHED;
use crate::upgrade::ranking::all_aliases;
use crate::upgrade::snapshot::{aliases_view, nodes_view, AliasView, InstalledAlias, InstalledNode};

verus! {

pub type KeyView = (ContentProvider, Seq<char>);

/// A project of one provider.
#[derive(Debug)]
pub struct NodeKey {
    pub provider: ContentProvider,
    pub project_id: String,
}

impl View for NodeKey {
    type V = KeyView;

    open spec fn view(&self) -> KeyView {
        (self.provider, self.project_id@)
    }
}

impl NodeKey {
    pub fn new(provider: ContentProvider, project_id: &str) -> (k: NodeKey)
        ensures
            k@ == (provider, project_id@),
    {
        NodeKey { provider, project_id: crate::text::to_owned(project_id) }
    }

    pub fn copy(&self) -> (k: NodeKey)
        ensures
            k@ == self@,
    {
        NodeKey { provider: self.provider, project_id: self.project_id.clone() }
    }

    pub fn same(&self, other: &NodeKey) -> (r: bool)
        ensures
            r == (self@ == other@),
    {
        self.provider == other.provider && self.project_id == other.project_id
    }

    pub open spec fn spec_label(k: KeyView) -> Seq<char> {
        k.0.spec_as_str() + ":"@ + k.1
    }

    /// `provider:project` as shown in issue messages.
    pub fn label(&self) -> (r: String)
        ensures
            r@ == Self::spec_label(self@),
    {
        let a = crate::text::concat(self.provider.as_str(), ":");
        crate::text::concat(a.as_str(), self.project_id.as_str())
    }
}

#[derive(Clone, Copy, Debug, PartialEq, Eq, Structural)]
pub enum CandidateChannel {
    Release,
    Beta,
    Alpha,
}

impl CandidateChannel {
    pub open spec fn spec_rank(self) -> u8 {
        match self {
            CandidateChannel::Release => 3,
            CandidateChannel::Beta => 2,
            CandidateChannel::Alpha => 1,
        }
    }

    pub fn rank(&self) -> (r: u8)
        ensures
            r == self.spec_rank(),
    {
        match self {
            CandidateChannel::Release => 3,
            CandidateChannel::Beta => 2,
            CandidateChannel::Alpha => 1,
        }
    }

    pub fn is_prerelease(&self) -> (r: bool)
        ensures
            r == (*self != CandidateChannel::Release),
    {
        match self {
            CandidateChannel::Release => false,
            _ => true,
        }
    }
}

#[derive(Clone, Copy, Debug, PartialEq, Eq, Structural)]
pub enum CandidateDependencyKind {
    Required,
    Optional,
    Incompatible,
    Embedded,
}

pub open spec fn opt_view(o: Option<String>) -> Option<Seq<char>> {
    match o {
        Some(s) => Some(s@),
        None => None,
    }
}

pub fn copy_opt(o: &Option<String>) -> (r: Option<String>)
    ensures
        opt_view(r) == opt_view(*o),
        r == *o,
{
    match o {
        Some(s) => Some(s.clone()),
        None => None,
    }
}

pub fn same_opt(a: &Option<String>, b: &Option<String>) -> (r: bool)
    ensures
        r == (opt_view(*a) == opt_view(*b)),
{
    match a {
        Some(x) => match b {
            Some(y) => {
                let r = *x == *y;
                r
            },
            None => false,
        },
        None => b.is_none(),
    }
}

pub struct DepView {
    pub key: KeyView,
    pub version_id: Option<Seq<char>>,
    pub kind: CandidateDependencyKind,
}

#[derive(Debug)]
pub struct CandidateDependency {
    pub key: NodeKey,
    pub version_id: Option<String>,
    pub kind: CandidateDependencyKind,
}

impl View for CandidateDependency {
    type V = DepView;

    open spec fn view(&self) -> DepView {
        DepView { key: self.key@, version_id: opt_view(self.version_id), kind: self.kind }
    }
}

impl CandidateDependency {
    pub fn copy(&self) -> (r: CandidateDependency)
        ensures
            r@ == self@,
    {
        CandidateDependency {
            key: self.key.copy(),
            version_id: copy_opt(&self.version_id),
            kind: self.kind,
        }
    }
}

pub struct CandView {
    pub key: KeyView,
    pub version_id: Seq<char>,
    pub published: i64,
    pub published_nanos: u32,
    pub channel: CandidateChannel,
    pub compatible: bool,
    pub installed_current: bool,
    pub dependencies: Seq<DepView>,
}

/// One release of a project that the planner may select.
#[derive(Debug)]
pub struct UpgradeCandidate {
    pub key: NodeKey,
    pub version_id: String,
    /// Publication time, in seconds since the Unix epoch.
    pub published: i64,
    /// The nanoseconds of the publication time past `published`.
    pub published_nanos: u32,
    pub channel: CandidateChannel,
    pub compatible: bool,
    pub installed_current: bool,
    pub dependencies: Vec<CandidateDependency>,
}

pub open spec fn deps_view(d: Seq<CandidateDependency>) -> Seq<DepView> {
    d.map_values(|x: CandidateDependency| x@)
}

impl View for UpgradeCandidate {
    type V = CandView;

    open spec fn view(&self) -> CandView {
        CandView {
            key: self.key@,
            version_id: self.version_id@,
            published: self.published,
            published_nanos: self.published_nanos,
            channel: self.channel,
            compatible: self.compatible,
            installed_current: self.installed_current,
            dependencies: deps_view(self.dependencies@),
        }
    }
}

pub open spec fn cands_view(v: Seq<UpgradeCandidate>) -> Seq<CandView> {
    v.map_values(|c: UpgradeCandidate| c@)
}

pub fn copy_deps(v: &Vec<CandidateDependency>) -> (r: Vec<CandidateDependency>)
    ensures
        deps_view(r@) == deps_view(v@),
{
    let mut r: Vec<CandidateDependency> = Vec::new();
    let mut i: usize = 0;
    while i < v.len()
        invariant
            i <= v.len(),
            deps_view(r@) == deps_view(v@.subrange(0, i as int)),
        decreases v.len() - i,
    {
        r.push(v[i].copy());
        assert(deps_view(v@.subrange(0, i + 1)) =~= deps_view(v@.subrange(0, i as int)).push(v@[i as int]@));
        assert(deps_view(r@) =~= deps_view(v@.subrange(0, i + 1)));
        i += 1;
    }
    assert(v@.subrange(0, v@.len() as int) == v@);
    r
}

impl UpgradeCandidate {
    pub fn copy(&self) -> (r: UpgradeCandidate)
        ensures
            r@ == self@,
    {
        UpgradeCandidate {
            key: self.key.copy(),
            version_id: self.version_id.clone(),
            published: self.published,
            published_nanos: self.published_nanos,
            channel: self.channel,
            compatible: self.compatible,
            installed_current: self.installed_current,
            dependencies: copy_deps(&self.dependencies),
        }
    }
}

pub fn copy_cands(v: &Vec<UpgradeCandidate>) -> (r: Vec<UpgradeCandidate>)
    ensures
        cands_view(r@) == cands_view(v@),
{
    let mut r: Vec<UpgradeCandidate> = Vec::new();
    let mut i: usize = 0;
    while i < v.len()
        invariant
            i <= v.len(),
            cands_view(r@) == cands_view(v@.subrange(0, i as int)),
        decreases v.len() - i,
    {
        r.push(v[i].copy());
        assert(cands_view(v@.subrange(0, i + 1)) =~= cands_view(v@.subrange(0, i as int)).push(v@[i as int]@));
        assert(cands_view(r@) =~= cands_view(v@.subrange(0, i + 1)));
        i += 1;
    }
    assert(v@.subrange(0, v@.len() as int) == v@);
    r
}

/// Candidates of one project, newest-preferred order.
#[derive(Debug)]
pub struct CandidatePool {
    pub candidates: Vec<UpgradeCandidate>,
    /// More compatible releases existed than were explored.
    pub exploration_limited: bool,
}

#[derive(Debug)]
pub struct CatalogEntry {
    key: NodeKey,
    pool: CandidatePool,
}

/// Candidate pools by project. Each project occurs once, and every candidate
/// of a pool belongs to the pool's project.
#[derive(Debug)]
pub struct UpgradeCatalog {
    entries: Vec<CatalogEntry>,
}

pub struct PoolView {
    pub key: KeyView,
    pub candidates: Seq<CandView>,
    pub exploration_limited: bool,
}

impl View for UpgradeCatalog {
    type V = Seq<PoolView>;

    closed spec fn view(&self) -> Seq<PoolView> {
        entries_view(self.entries@)
    }
}

spec fn entries_view(e: Seq<CatalogEntry>) -> Seq<PoolView> {
    e.map_values(
        |e: CatalogEntry|
            PoolView {
                key: e.key@,
                candidates: cands_view(e.pool.candidates@),
                exploration_limited: e.pool.exploration_limited,
            },
    )
}

/// Every pool's candidates belong to the pool's project, and each project has
/// one pool.
pub open spec fn catalog_wf(c: Seq<PoolView>) -> bool {
    &&& forall|e: int, k: int|
        0 <= e < c.len() && 0 <= k < c[e].candidates.len() ==> #[trigger] c[e].candidates[k].key
            == c[e].key
    &&& forall|e: int, f: int| 0 <= e < c.len() && 0 <= f < c.len() && e != f ==> c[e].key != c[f].key
}

/// `cand` is one of the catalog's candidates.
pub open spec fn in_catalog(cand: CandView, c: Seq<PoolView>) -> bool {
    exists|e: int, k: int| 0 <= e < c.len() && 0 <= k < c[e].candidates.len() && c[e].candidates[k] == cand
}

/// The candidates that the catalog holds for `key` (none when it has no pool).
pub open spec fn pool_of(c: Seq<PoolView>, key: KeyView) -> Seq<CandView> {
    if exists|e: int| 0 <= e < c.len() && c[e].key == key {
        c[choose|e: int| 0 <= e < c.len() && c[e].key == key].candidates
    } else {
        Seq::empty()
    }
}

impl UpgradeCatalog {
    #[verifier::type_invariant]
    closed spec fn inv(self) -> bool {
        catalog_wf(self@)
    }

    pub fn new() -> (c: UpgradeCatalog)
        ensures
            c@ == Seq::<PoolView>::empty(),
    {
        let c = UpgradeCatalog { entries: Vec::new() };
        assert(c@ =~= Seq::<PoolView>::empty());
        c
    }

    /// Sets the pool of `key`, replacing an earlier one. Candidates whose
    /// project is not `key` are left out of the pool.
    pub fn insert(&mut self, key: NodeKey, pool: CandidatePool)
        ensures
            catalog_wf(final(self)@),
            exists|e: int|
                0 <= e < final(self)@.len() && #[trigger] final(self)@[e].key == key@
                    && final(self)@[e].exploration_limited == pool.exploration_limited
                    && final(self)@[e].candidates == cands_view(pool.candidates@).filter(
                    |c: CandView| c.key == key@,
                ),
            forall|e: int|
                0 <= e < old(self)@.len() && old(self)@[e].key != key@ ==> exists|f: int|
                    0 <= f < final(self)@.len() && final(self)@[f] == old(self)@[e],
    {
        proof {
            use_type_invariant(&*self);
        }
        let CandidatePool { candidates, exploration_limited } = pool;
        let ghost cv = cands_view(candidates@);
        let ghost pred = |c: CandView| c.key == key@;
        let mut kept: Vec<UpgradeCandidate> = Vec::new();
        let mut i: usize = 0;
        while i < candidates.len()
            invariant
                i <= candidates.len(),
                cv == cands_view(candidates@),
                pred == (|c: CandView| c.key == key@),
                cands_view(kept@) == cv.subrange(0, i as int).filter(pred),
                forall|k: int| 0 <= k < kept@.len() ==> (#[trigger] kept@[k])@.key == key@,
            decreases candidates.len() - i,
        {
            proof {
                let s1 = cv.subrange(0, i + 1);
                assert(s1.drop_last() =~= cv.subrange(0, i as int));
                assert(s1.last() == candidates@[i as int]@);
                reveal(Seq::filter);
                assert(s1.filter(pred) == if pred(s1.last()) {
                    cv.subrange(0, i as int).filter(pred).push(s1.last())
                } else {
                    cv.subrange(0, i as int).filter(pred)
                });
            }
            assert(cv[i as int] == candidates@[i as int]@);
            let ghost pre = cv.subrange(0, i as int).filter(pred);
            if candidates[i].key.same(&key) {
                let c = candidates[i].copy();
                let ghost before = kept@;
                kept.push(c);
                assert(cands_view(kept@) =~= cands_view(before).push(c@)) by {
                    assert(kept@ =~= before.push(c));
                }
                assert(pred(cv[i as int]));
                assert(cands_view(kept@) == pre.push(cv[i as int]));
            } else {
                assert(!pred(cv[i as int]));
            }
            assert(cands_view(kept@) == cv.subrange(0, i + 1).filter(pred));
            i += 1;
        }
        assert(cv.subrange(0, cv.len() as int) == cv);
        let ghost old_view = self@;
        let mut entries: Vec<CatalogEntry> = Vec::new();
        std::mem::swap(&mut entries, &mut self.entries);
        assert(entries_view(entries@) == old_view);
        let mut idx: usize = 0;
        while idx < entries.len()
            invariant
                idx <= entries.len(),
                entries_view(entries@) == old_view,
                forall|j: int| 0 <= j < idx ==> old_view[j].key != key@,
            ensures
                idx <= entries.len(),
                entries_view(entries@) == old_view,
                forall|j: int| 0 <= j < idx ==> old_view[j].key != key@,
                idx < entries.len() ==> old_view[idx as int].key == key@,
            decreases entries.len() - idx,
        {
            if entries[idx].key.same(&key) {
                assert(old_view[idx as int].key == entries@[idx as int].key@);
                break;
            }
            idx += 1;
        }
        assert(idx < entries.len() ==> old_view[idx as int].key == key@);
        let ghost new_pool = PoolView {
            key: key@,
            candidates: cands_view(kept@),
            exploration_limited,
        };
        let entry = CatalogEntry {
            key,
            pool: CandidatePool { candidates: kept, exploration_limited },
        };
        if idx < entries.len() {
            entries.set(idx, entry);
            proof {
                assert(entries_view(entries@) =~= old_view.update(idx as int, new_pool));
            }
        } else {
            entries.push(entry);
            proof {
                assert(entries_view(entries@) =~= old_view.push(new_pool));
            }
        }
        let ghost nv = entries_view(entries@);
        assert(nv[idx as int] == new_pool);
        assert(cands_view(kept@) == cv.filter(pred));
        assert forall|e: int| 0 <= e < old_view.len() && old_view[e].key != key@ implies exists|f: int|
            0 <= f < nv.len() && nv[f] == old_view[e] by {
            assert(nv[e] == old_view[e]);
        }
        assert(catalog_wf(nv)) by {
            assert forall|e: int, f: int| 0 <= e < nv.len() && 0 <= f < nv.len() && e != f implies nv[e].key != nv[f].key by {
                if e != idx && f != idx {
                    assert(nv[e] == old_view[e] && nv[f] == old_view[f]);
                } else if e == idx {
                    assert(nv[f] == old_view[f]);
                    if idx < old_view.len() {
                        assert(old_view[idx as int].key == key@);
                    } else {
                        assert(entries@[f].key@ != key@ || f >= idx);
                    }
                } else {
                    assert(nv[e] == old_view[e]);
                    if idx < old_view.len() {
                        assert(old_view[idx as int].key == key@);
                    }
                }
            }
            assert forall|e: int, k: int|
                0 <= e < nv.len() && 0 <= k < nv[e].candidates.len() implies #[trigger] nv[e].candidates[k].key
                == nv[e].key by {
                if e == idx {
                    assert(nv[e] == new_pool);
                    assert(cands_view(kept@)[k] == kept@[k]@);
                } else {
                    assert(nv[e] == old_view[e]);
                }
            }
        }
        self.entries = entries;
        assert(self@ == nv);
        assert(self@[idx as int].key == key@);
        assert(self@[idx as int].candidates == cands_view(pool.candidates@).filter(
            |c: CandView| c.key == key@,
        ));
    }

    /// The pool of `key`, when the catalog has one.
    pub fn get(&self, key: &NodeKey) -> (r: Option<&CandidatePool>)
        ensures
            catalog_wf(self@),
            r is None ==> forall|e: int| 0 <= e < self@.len() ==> self@[e].key != key@,
            r matches Some(p) ==> exists|e: int|
                0 <= e < self@.len() && self@[e].key == key@ && #[trigger] self@[e].candidates
                    == cands_view(p.candidates@) && self@[e].exploration_limited
                    == p.exploration_limited,
    {
        proof {
            use_type_invariant(self);
        }
        let mut idx: usize = 0;
        while idx < self.entries.len()
            invariant
                idx <= self.entries.len(),
                catalog_wf(self@),
                forall|j: int| 0 <= j < idx ==> self@[j].key != key@,
            decreases self.entries.len() - idx,
        {
            if self.entries[idx].key.same(key) {
                assert(self@[idx as int].key == key@);
                assert(self@[idx as int].candidates == cands_view(self.entries@[idx as int].pool.candidates@));
                return Some(&self.entries[idx].pool);
            }
            idx += 1;
        }
        None
    }

    /// Whether any pool stopped exploring compatible releases early.
    pub fn any_exploration_limited(&self) -> (r: bool)
        ensures
            catalog_wf(self@),
            r == exists|e: int| 0 <= e < self@.len() && self@[e].exploration_limited,
    {
        proof {
            use_type_invariant(self);
        }
        let mut idx: usize = 0;
        while idx < self.entries.len()
            invariant
                idx <= self.entries.len(),
                catalog_wf(self@),
                forall|j: int| 0 <= j < idx ==> !self@[j].exploration_limited,
            decreases self.entries.len() - idx,
        {
            assert(self@[idx as int].exploration_limited == self.entries@[idx as int].pool.exploration_limited);
            if self.entries[idx].pool.exploration_limited {
                return true;
            }
            idx += 1;
        }
        false
    }
}

/// The candidate an installed release becomes where its project's pool
/// lacks it: a stable release, not compatible, published at the earliest
/// time, with no dependencies.
pub open spec fn installed_candidate(alias: AliasView) -> CandView {
    CandView {
        key: alias.0,
        version_id: alias.1,
        published: EARLIEST_PUBLISHED,
        published_nanos: 0,
        channel: CandidateChannel::Release,
        compatible: false,
        installed_current: true,
        dependencies: Seq::empty(),
    }
}

/// The position of the first candidate of `cands` whose version is
/// `release` (the length where there is none).
pub open spec fn first_release(cands: Seq<CandView>, release: Seq<char>) -> int
    decreases cands.len(),
{
    if cands.len() == 0 {
        0
    } else if cands[0].version_id == release {
        0
    } else {
        1 + first_release(cands.drop_first(), release)
    }
}

proof fn lemma_first_release(cands: Seq<CandView>, release: Seq<char>)
    ensures
        0 <= first_release(cands, release) <= cands.len(),
        first_release(cands, release) < cands.len() ==> cands[first_release(cands, release)].version_id == release,
        forall|j: int| 0 <= j < first_release(cands, release) ==> (#[trigger] cands[j]).version_id != release,
    decreases cands.len(),
{
    if cands.len() > 0 && cands[0].version_id != release {
        lemma_first_release(cands.drop_first(), release);
        assert forall|j: int| 0 <= j < first_release(cands, release) implies (#[trigger] cands[j]).version_id != release by {
            if j > 0 {
                assert(cands[j] == cands.drop_first()[j - 1]);
            }
        }
    }
}

pub open spec fn marked(c: CandView) -> CandView {
    CandView {
        key: c.key,
        version_id: c.version_id,
        published: c.published,
        published_nanos: c.published_nanos,
        channel: c.channel,
        compatible: c.compatible,
        installed_current: true,
        dependencies: c.dependencies,
    }
}

/// A pool once an installed release is marked in it: its first candidate of
/// that version marked as installed, else the release added at the end.
pub open spec fn mark_in_pool(cands: Seq<CandView>, alias: AliasView) -> Seq<CandView> {
    let i = first_release(cands, alias.1);
    if i < cands.len() {
        cands.update(i, marked(cands[i]))
    } else {
        cands.push(installed_candidate(alias))
    }
}

/// The pool of `key` in `c`.
pub open spec fn pool_index(c: Seq<PoolView>, key: KeyView) -> int {
    choose|e: int| 0 <= e < c.len() && c[e].key == key
}

/// The catalog once an installed release is marked: in the pool of its
/// project, which is created empty where the catalog has none.
pub open spec fn mark_alias(c: Seq<PoolView>, alias: AliasView) -> Seq<PoolView> {
    if exists|e: int| 0 <= e < c.len() && (#[trigger] c[e]).key == alias.0 {
        let e = pool_index(c, alias.0);
        c.update(
            e,
            PoolView {
                key: c[e].key,
                candidates: mark_in_pool(c[e].candidates, alias),
                exploration_limited: c[e].exploration_limited,
            },
        )
    } else {
        c.push(PoolView { key: alias.0, candidates: seq![installed_candidate(alias)], exploration_limited: false })
    }
}

/// The catalog once every release of `aliases` is marked, in order.
pub open spec fn mark_aliases(c: Seq<PoolView>, aliases: Seq<AliasView>) -> Seq<PoolView>
    decreases aliases.len(),
{
    if aliases.len() == 0 {
        c
    } else {
        mark_alias(mark_aliases(c, aliases.drop_last()), aliases.last())
    }
}

proof fn lemma_mark_alias_wf(c: Seq<PoolView>, alias: AliasView)
    requires
        catalog_wf(c),
    ensures
        catalog_wf(mark_alias(c, alias)),
{
    let n = mark_alias(c, alias);
    if exists|e: int| 0 <= e < c.len() && (#[trigger] c[e]).key == alias.0 {
        let e = pool_index(c, alias.0);
        let cands = c[e].candidates;
        let m = mark_in_pool(cands, alias);
        lemma_first_release(cands, alias.1);
        assert(c[e].key == alias.0);
        assert forall|x: int, k: int| 0 <= x < n.len() && 0 <= k < n[x].candidates.len() implies #[trigger] n[x].candidates[k].key
            == n[x].key by {
            if x == e {
                let i = first_release(cands, alias.1);
                if k < cands.len() && k != i {
                    assert(m[k] == cands[k]);
                }
            } else {
                assert(n[x] == c[x]);
            }
        }
        assert forall|x: int, y: int| 0 <= x < n.len() && 0 <= y < n.len() && x != y implies n[x].key != n[y].key by {
            assert(n[x].key == c[x].key && n[y].key == c[y].key);
        }
    } else {
        assert forall|x: int, k: int| 0 <= x < n.len() && 0 <= k < n[x].candidates.len() implies #[trigger] n[x].candidates[k].key
            == n[x].key by {
            if x < c.len() {
                assert(n[x] == c[x]);
            }
        }
    }
}

fn find_release(cands: &Vec<UpgradeCandidate>, release: &String) -> (r: Option<usize>)
    ensures
        match r {
            Some(i) => i < cands@.len() && i == first_release(cands_view(cands@), release@),
            None => first_release(cands_view(cands@), release@) == cands@.len(),
        },
{
    proof {
        lemma_first_release(cands_view(cands@), release@);
    }
    let mut i: usize = 0;
    while i < cands.len()
        invariant
            i <= cands.len(),
            forall|j: int| 0 <= j < i ==> (#[trigger] cands@[j])@.version_id != release@,
        decreases cands.len() - i,
    {
        if cands[i].version_id == *release {
            proof {
                lemma_first_release(cands_view(cands@), release@);
                let f = first_release(cands_view(cands@), release@);
                if f < i {
                    assert(cands_view(cands@)[f].version_id == cands@[f]@.version_id);
                } else if f > i {
                    assert(cands_view(cands@)[i as int].version_id == release@);
                }
            }
            return Some(i);
        }
        i += 1;
    }
    proof {
        lemma_first_release(cands_view(cands@), release@);
        let f = first_release(cands_view(cands@), release@);
        if f < cands@.len() {
            assert(cands_view(cands@)[f].version_id == cands@[f]@.version_id);
        }
    }
    None
}

impl UpgradeCatalog {
    fn mark_one(entries: &mut Vec<CatalogEntry>, alias: &InstalledAlias)
        requires
            catalog_wf(entries_view(old(entries)@)),
        ensures
            entries_view(final(entries)@) == mark_alias(entries_view(old(entries)@), alias@),
    {
        let ghost c = entries_view(entries@);
        let mut idx: usize = 0;
        while idx < entries.len()
            invariant
                idx <= entries.len(),
                c == entries_view(entries@),
                forall|j: int| 0 <= j < idx ==> c[j].key != alias@.0,
            ensures
                idx <= entries.len(),
                c == entries_view(entries@),
                forall|j: int| 0 <= j < idx ==> c[j].key != alias@.0,
                idx < entries.len() ==> c[idx as int].key == alias@.0,
            decreases entries.len() - idx,
        {
            if entries[idx].key.same(&alias.key) {
                assert(c[idx as int].key == entries@[idx as int].key@);
                break;
            }
            idx += 1;
        }
        if idx < entries.len() {
            proof {
                assert(c[idx as int].key == alias@.0);
                assert(pool_index(c, alias@.0) == idx) by {
                    let e = pool_index(c, alias@.0);
                    if e != idx {
                        assert(c[e].key == c[idx as int].key);
                    }
                }
            }
            let mut entry = entries.remove(idx);
            let ghost cands = cands_view(entry.pool.candidates@);
            match find_release(&entry.pool.candidates, &alias.current_release_id) {
                Some(i) => {
                    let mut cand = entry.pool.candidates.remove(i);
                    cand.installed_current = true;
                    entry.pool.candidates.insert(i, cand);
                    assert(cands_view(entry.pool.candidates@) =~= mark_in_pool(cands, alias@));
                },
                None => {
                    let cand = UpgradeCandidate {
                        key: alias.key.copy(),
                        version_id: alias.current_release_id.clone(),
                        published: EARLIEST_PUBLISHED,
                        published_nanos: 0,
                        channel: CandidateChannel::Release,
                        compatible: false,
                        installed_current: true,
                        dependencies: Vec::new(),
                    };
                    let ghost before = entry.pool.candidates@;
                    entry.pool.candidates.push(cand);
                    assert(cands_view(entry.pool.candidates@) =~= cands_view(before).push(cand@));
                    assert(cand@.dependencies =~= Seq::<DepView>::empty());
                    assert(cands_view(entry.pool.candidates@) =~= mark_in_pool(cands, alias@));
                },
            }
            let ghost marked_entry = entry;
            entries.insert(idx, entry);
            assert(entries_view(entries@) =~= mark_alias(c, alias@));
        } else {
            let cand = UpgradeCandidate {
                key: alias.key.copy(),
                version_id: alias.current_release_id.clone(),
                published: EARLIEST_PUBLISHED,
                published_nanos: 0,
                channel: CandidateChannel::Release,
                compatible: false,
                installed_current: true,
                dependencies: Vec::new(),
            };
            assert(cand@.dependencies =~= Seq::<DepView>::empty());
            let mut candidates: Vec<UpgradeCandidate> = Vec::new();
            candidates.push(cand);
            entries.push(CatalogEntry { key: alias.key.copy(), pool: CandidatePool { candidates, exploration_limited: false } });
            assert(cands_view(candidates@) =~= seq![installed_candidate(alias@)]);
            assert(entries_view(entries@) =~= mark_alias(c, alias@));
        }
    }

    /// Marks the installed release of every alias of the installed nodes, in
    /// order, in the pool of the alias's project: the first candidate of that
    /// version is marked as installed; where the pool lacks it, the release is
    /// added as a stable, incompatible candidate published at the earliest
    /// time (a pool is created where the catalog has none).
    pub fn mark_installed_releases(&mut self, installed: &Vec<InstalledNode>)
        ensures
            final(self)@ == mark_aliases(old(self)@, all_aliases(nodes_view(installed@))),
    {
        proof {
            use_type_invariant(&*self);
        }
        let ghost start = self@;
        let mut entries: Vec<CatalogEntry> = Vec::new();
        std::mem::swap(&mut entries, &mut self.entries);
        let ghost nv = nodes_view(installed@);
        let mut n: usize = 0;
        assert(all_aliases(nv.subrange(0, 0)) =~= Seq::<AliasView>::empty());
        while n < installed.len()
            invariant
                n <= installed.len(),
                nv == nodes_view(installed@),
                entries_view(entries@) == mark_aliases(start, all_aliases(nv.subrange(0, n as int))),
                catalog_wf(entries_view(entries@)),
            decreases installed.len() - n,
        {
            let aliases = &installed[n].aliases;
            let ghost done = all_aliases(nv.subrange(0, n as int));
            let ghost av = aliases_view(aliases@);
            assert(nv[n as int].aliases == av);
            let mut a: usize = 0;
            assert(done + av.subrange(0, 0) =~= done);
            while a < aliases.len()
                invariant
                    a <= aliases.len(),
                    av == aliases_view(aliases@),
                    entries_view(entries@) == mark_aliases(start, done + av.subrange(0, a as int)),
                    catalog_wf(entries_view(entries@)),
                decreases aliases.len() - a,
            {
                proof {
                    let s1 = done + av.subrange(0, a + 1);
                    assert(s1.drop_last() =~= done + av.subrange(0, a as int));
                    assert(s1.last() == aliases@[a as int]@);
                    lemma_mark_alias_wf(entries_view(entries@), aliases@[a as int]@);
                }
                UpgradeCatalog::mark_one(&mut entries, &aliases[a]);
                a += 1;
            }
            proof {
                assert(av.subrange(0, aliases@.len() as int) =~= av);
                assert(nv.subrange(0, n + 1).drop_last() =~= nv.subrange(0, n as int));
                assert(nv.subrange(0, n + 1).last() == nv[n as int]);
            }
            n += 1;
        }
        assert(nv.subrange(0, installed@.len() as int) =~= nv);
        self.entries = entries;
    }
}

} // verus!
