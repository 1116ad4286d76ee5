//! The order in which the catalog's projects are loaded: a queue of
//! projects, the projects already loaded, and the versions that must be
//! looked up exactly for each project.
use vstd::prelude::*;
use crate::model::ProjectType;
use crate::upgrade::candidates::{
    cands_view, CandView, CandidateDependency, CandidateDependencyKind, DepView, KeyView, NodeKey, UpgradeCandidate,
};

verus! {

/// The state of the loading as plain values.
pub struct WorkView {
    /// The projects still to load, with their kind of content, in order.
    pub queue: Seq<(KeyView, ProjectType)>,
    /// The projects loaded so far.
    pub seen: Set<KeyView>,
    /// The versions that must be looked up exactly, by project.
    pub exact: Map<KeyView, Set<Seq<char>>>,
}

/// What is left to load.
pub struct CatalogWork {
    queue: Vec<(NodeKey, ProjectType)>,
    seen: Vec<NodeKey>,
    exact: Vec<(NodeKey, Vec<String>)>,
}

pub open spec fn texts(v: Seq<String>) -> Set<Seq<char>> {
    v.map_values(|s: String| s@).to_set()
}

pub open spec fn queue_view(q: Seq<(NodeKey, ProjectType)>) -> Seq<(KeyView, ProjectType)> {
    q.map_values(|e: (NodeKey, ProjectType)| (e.0@, e.1))
}

pub open spec fn key_set(v: Seq<NodeKey>) -> Set<KeyView> {
    v.map_values(|k: NodeKey| k@).to_set()
}

pub open spec fn exact_index(e: Seq<(NodeKey, Vec<String>)>, k: KeyView) -> int {
    choose|j: int| 0 <= j < e.len() && e[j].0@ == k
}

pub open spec fn exact_map(e: Seq<(NodeKey, Vec<String>)>) -> Map<KeyView, Set<Seq<char>>> {
    Map::new(
        |k: KeyView| exists|j: int| 0 <= j < e.len() && (#[trigger] e[j]).0@ == k,
        |k: KeyView| texts(e[exact_index(e, k)].1@),
    )
}

/// The versions that must be looked up exactly for `k`.
pub open spec fn exact_of(w: WorkView, k: KeyView) -> Set<Seq<char>> {
    if w.exact.contains_key(k) {
        w.exact[k]
    } else {
        Set::empty()
    }
}

/// The position of the first queued project not loaded yet (the queue's
/// length where there is none).
pub open spec fn first_unseen(q: Seq<(KeyView, ProjectType)>, seen: Set<KeyView>) -> int
    decreases q.len(),
{
    if q.len() == 0 {
        0
    } else if !seen.contains(q[0].0) {
        0
    } else {
        1 + first_unseen(q.drop_first(), seen)
    }
}

proof fn lemma_first_unseen(q: Seq<(KeyView, ProjectType)>, seen: Set<KeyView>)
    ensures
        0 <= first_unseen(q, seen) <= q.len(),
        first_unseen(q, seen) < q.len() ==> !seen.contains(q[first_unseen(q, seen)].0),
        forall|j: int| 0 <= j < first_unseen(q, seen) ==> seen.contains((#[trigger] q[j]).0),
    decreases q.len(),
{
    if q.len() > 0 && seen.contains(q[0].0) {
        lemma_first_unseen(q.drop_first(), seen);
        assert forall|j: int| 0 <= j < first_unseen(q, seen) implies seen.contains((#[trigger] q[j]).0) by {
            if j > 0 {
                assert(q[j] == q.drop_first()[j - 1]);
            }
        }
    }
}

/// The state after one dependency of a loaded release is followed: a
/// required one queues its project as a mod; where it names a version that
/// was not yet to be looked up for that project, the version is added and a
/// project already loaded is queued once more, to be loaded again.
pub open spec fn follow_dependency(w: WorkView, d: DepView) -> WorkView {
    if d.kind != CandidateDependencyKind::Required {
        w
    } else {
        let newly = match d.version_id {
            Some(v) => !exact_of(w, d.key).contains(v),
            None => false,
        };
        let exact = match d.version_id {
            Some(v) => w.exact.insert(d.key, exact_of(w, d.key).insert(v)),
            None => w.exact,
        };
        let again = newly && w.seen.contains(d.key);
        let seen = if again {
            w.seen.remove(d.key)
        } else {
            w.seen
        };
        let queue = if again {
            w.queue.push((d.key, ProjectType::Mod))
        } else {
            w.queue
        };
        WorkView { queue: queue.push((d.key, ProjectType::Mod)), seen, exact }
    }
}

/// The state after the dependencies `deps` are followed in order.
pub open spec fn follow_dependencies(w: WorkView, deps: Seq<DepView>) -> WorkView
    decreases deps.len(),
{
    if deps.len() == 0 {
        w
    } else {
        follow_dependency(follow_dependencies(w, deps.drop_last()), deps.last())
    }
}

/// The dependencies of the candidates, candidate by candidate.
pub open spec fn all_dependencies(cands: Seq<CandView>) -> Seq<DepView>
    decreases cands.len(),
{
    if cands.len() == 0 {
        Seq::empty()
    } else {
        all_dependencies(cands.drop_last()) + cands.last().dependencies
    }
}

impl View for CatalogWork {
    type V = WorkView;

    closed spec fn view(&self) -> WorkView {
        WorkView { queue: queue_view(self.queue@), seen: key_set(self.seen@), exact: exact_map(self.exact@) }
    }
}

fn copy_strings(v: &Vec<String>) -> (r: Vec<String>)
    ensures
        r@.map_values(|s: String| s@) == v@.map_values(|s: String| s@),
{
    let mut r: Vec<String> = Vec::new();
    let mut i: usize = 0;
    while i < v.len()
        invariant
            i <= v.len(),
            r@.map_values(|s: String| s@) == v@.subrange(0, i as int).map_values(|s: String| s@),
        decreases v.len() - i,
    {
        let ghost before = r@;
        r.push(v[i].clone());
        assert(r@.map_values(|s: String| s@) =~= before.map_values(|s: String| s@).push(v@[i as int]@));
        assert(v@.subrange(0, i + 1).map_values(|s: String| s@) =~= v@.subrange(0, i as int).map_values(
            |s: String| s@,
        ).push(v@[i as int]@));
        i += 1;
    }
    assert(v@.subrange(0, v@.len() as int) =~= v@);
    r
}

impl CatalogWork {
    /// No project is listed twice as loaded or in the exact versions.
    pub closed spec fn wf(&self) -> bool {
        &&& forall|a: int, b: int|
            0 <= a < b < self.seen@.len() ==> (#[trigger] self.seen@[a])@ != (#[trigger] self.seen@[b])@
        &&& forall|a: int, b: int|
            0 <= a < b < self.exact@.len() ==> (#[trigger] self.exact@[a]).0@ != (#[trigger] self.exact@[b]).0@
    }

    /// The loading of `roots`, nothing loaded yet, with the version the user
    /// fixed for each of the projects of `fixed` to be looked up exactly.
    pub fn new(roots: Vec<(NodeKey, ProjectType)>, fixed: &Vec<(NodeKey, String)>) -> (w: CatalogWork)
        requires
            forall|a: int, b: int| 0 <= a < b < fixed@.len() ==> (#[trigger] fixed@[a]).0@ != (#[trigger] fixed@[b]).0@,
        ensures
            w.wf(),
            w@.queue == queue_view(roots@),
            w@.seen == Set::<KeyView>::empty(),
            w@.exact == Map::new(
                |k: KeyView| exists|j: int| 0 <= j < fixed@.len() && (#[trigger] fixed@[j]).0@ == k,
                |k: KeyView|
                    set![fixed@[choose|j: int| 0 <= j < fixed@.len() && (#[trigger] fixed@[j]).0@ == k].1@],
            ),
    {
        let mut exact: Vec<(NodeKey, Vec<String>)> = Vec::new();
        let mut i: usize = 0;
        while i < fixed.len()
            invariant
                i <= fixed.len(),
                exact@.len() == i,
                forall|j: int|
                    0 <= j < i ==> (#[trigger] exact@[j]).0@ == fixed@[j].0@ && exact@[j].1@.map_values(
                        |s: String| s@,
                    ) == seq![fixed@[j].1@],
            decreases fixed.len() - i,
        {
            let mut versions: Vec<String> = Vec::new();
            versions.push(fixed[i].1.clone());
            assert(versions@.map_values(|s: String| s@) =~= seq![fixed@[i as int].1@]);
            exact.push((fixed[i].0.copy(), versions));
            i += 1;
        }
        let w = CatalogWork { queue: roots, seen: Vec::new(), exact };
        proof {
            assert(key_set(w.seen@) =~= Set::<KeyView>::empty());
            let m = exact_map(exact@);
            let f = Map::new(
                |k: KeyView| exists|j: int| 0 <= j < fixed@.len() && (#[trigger] fixed@[j]).0@ == k,
                |k: KeyView|
                    set![fixed@[choose|j: int| 0 <= j < fixed@.len() && (#[trigger] fixed@[j]).0@ == k].1@],
            );
            assert forall|k: KeyView| m.dom().contains(k) <==> f.dom().contains(k) by {
                if m.dom().contains(k) {
                    let j = choose|j: int| 0 <= j < exact@.len() && (#[trigger] exact@[j]).0@ == k;
                    assert(fixed@[j].0@ == k);
                }
                if f.dom().contains(k) {
                    let j = choose|j: int| 0 <= j < fixed@.len() && (#[trigger] fixed@[j]).0@ == k;
                    assert(exact@[j].0@ == k);
                }
            }
            assert forall|k: KeyView| #[trigger] m.dom().contains(k) implies m[k] == f[k] by {
                let j = exact_index(exact@, k);
                let j2 = choose|j: int| 0 <= j < fixed@.len() && (#[trigger] fixed@[j]).0@ == k;
                assert(j == j2);
                assert(texts(exact@[j].1@) =~= set![fixed@[j].1@]) by {
                    assert(exact@[j].1@.map_values(|s: String| s@) == seq![fixed@[j].1@]);
                    assert(seq![fixed@[j].1@].to_set() =~= set![fixed@[j].1@]) by {
                        assert(seq![fixed@[j].1@][0] == fixed@[j].1@);
                    }
                }
            }
            assert(m =~= f);
        }
        w
    }

    fn seen_position(&self, key: &NodeKey) -> (r: Option<usize>)
        requires
            self.wf(),
        ensures
            match r {
                Some(i) => i < self.seen@.len() && self.seen@[i as int]@ == key@ && self@.seen.contains(key@),
                None => !self@.seen.contains(key@),
            },
    {
        let mut i: usize = 0;
        while i < self.seen.len()
            invariant
                i <= self.seen.len(),
                forall|j: int| 0 <= j < i ==> (#[trigger] self.seen@[j])@ != key@,
            decreases self.seen.len() - i,
        {
            if self.seen[i].same(key) {
                assert(self.seen@.map_values(|k: NodeKey| k@)[i as int] == key@);
                return Some(i);
            }
            i += 1;
        }
        proof {
            if key_set(self.seen@).contains(key@) {
                let ks = self.seen@.map_values(|k: NodeKey| k@);
                let j = choose|j: int| 0 <= j < ks.len() && #[trigger] ks[j] == key@;
                assert(self.seen@[j]@ == key@);
            }
        }
        None
    }

    fn exact_position(&self, key: &NodeKey) -> (r: Option<usize>)
        requires
            self.wf(),
        ensures
            match r {
                Some(i) => i < self.exact@.len() && self.exact@[i as int].0@ == key@ && i == exact_index(
                    self.exact@,
                    key@,
                ) && self@.exact.contains_key(key@),
                None => !self@.exact.contains_key(key@),
            },
    {
        let mut i: usize = 0;
        while i < self.exact.len()
            invariant
                i <= self.exact.len(),
                self.wf(),
                forall|j: int| 0 <= j < i ==> (#[trigger] self.exact@[j]).0@ != key@,
            decreases self.exact.len() - i,
        {
            if self.exact[i].0.same(key) {
                proof {
                    assert(self.exact@[i as int].0@ == key@);
                    let j = exact_index(self.exact@, key@);
                    assert(self.exact@[j].0@ == key@);
                    if j != i {
                        assert(self.exact@[j].0@ == self.exact@[i as int].0@);
                    }
                }
                return Some(i);
            }
            i += 1;
        }
        None
    }

    /// The next project to load, with its kind of content and the versions
    /// to look up exactly for it; projects already loaded are passed over.
    /// None once the queue is empty.
    pub fn next(&mut self) -> (r: Option<(NodeKey, ProjectType, Vec<String>)>)
        requires
            old(self).wf(),
        ensures
            final(self).wf(),
            ({
                let w = old(self)@;
                let i = first_unseen(w.queue, w.seen);
                if i == w.queue.len() {
                    &&& r is None
                    &&& final(self)@ == WorkView { queue: Seq::empty(), seen: w.seen, exact: w.exact }
                } else {
                    &&& r matches Some(x) && x.0@ == w.queue[i].0 && x.1 == w.queue[i].1 && texts(x.2@) == exact_of(
                        w,
                        w.queue[i].0,
                    )
                    &&& final(self)@ == WorkView {
                        queue: w.queue.skip(i + 1),
                        seen: w.seen.insert(w.queue[i].0),
                        exact: w.exact,
                    }
                }
            }),
    {
        let ghost w = self@;
        proof {
            lemma_first_unseen(w.queue, w.seen);
        }
        let ghost i0 = first_unseen(w.queue, w.seen);
        let n0 = self.queue.len();
        assert(w.queue.len() == n0);
        let mut popped: usize = 0;
        loop
            invariant_except_break
                popped <= i0,
                w.queue.len() == popped + self.queue@.len(),
                w.queue.len() == n0,
                i0 == first_unseen(w.queue, w.seen),
                0 <= i0 <= w.queue.len(),
                i0 < w.queue.len() ==> !w.seen.contains(w.queue[i0].0),
                forall|j: int| 0 <= j < i0 ==> w.seen.contains((#[trigger] w.queue[j]).0),
                queue_view(self.queue@) == w.queue.skip(popped as int),
                key_set(self.seen@) == w.seen,
                exact_map(self.exact@) == w.exact,
                self.wf(),
            ensures
                self.wf(),
                i0 == first_unseen(w.queue, w.seen),
                i0 == w.queue.len() ==> self.queue@.len() == 0 && key_set(self.seen@) == w.seen
                    && exact_map(self.exact@) == w.exact,
                i0 < w.queue.len() ==> popped == i0 && queue_view(self.queue@) == w.queue.skip(i0 as int)
                    && key_set(self.seen@) == w.seen && exact_map(self.exact@) == w.exact,
            decreases w.queue.len() - popped,
        {
            if self.queue.len() == 0 {
                proof {
                    assert(w.queue.skip(popped as int).len() == 0);
                    if i0 < w.queue.len() {
                        assert(popped >= w.queue.len());
                    }
                }
                break;
            }
            assert(w.queue.skip(popped as int)[0] == w.queue[popped as int]);
            assert(queue_view(self.queue@)[0] == w.queue[popped as int]);
            let unseen = match self.seen_position(&self.queue[0].0) {
                Some(_) => false,
                None => true,
            };
            if unseen {
                proof {
                    if popped < i0 {
                        assert(w.seen.contains(w.queue[popped as int].0));
                    }
                }
                break;
            }
            proof {
                if popped == i0 && i0 < w.queue.len() {
                    assert(false);
                }
            }
            let ghost before = self.queue@;
            let _ = self.queue.remove(0);
            assert(queue_view(self.queue@) =~= w.queue.skip(popped + 1)) by {
                assert(self.queue@ =~= before.remove(0));
                assert(queue_view(self.queue@) =~= queue_view(before).skip(1));
                assert(w.queue.skip(popped as int).skip(1) =~= w.queue.skip(popped + 1));
            }
            popped += 1;
        }
        if self.queue.len() == 0 {
            assert(queue_view(self.queue@) =~= Seq::<(KeyView, ProjectType)>::empty());
            return None;
        }
        proof {
            assert(w.queue.skip(i0)[0] == w.queue[i0]);
            assert(queue_view(self.queue@)[0] == w.queue[i0]);
        }
        let ghost before_pop = self.queue@;
        let (key, project_type) = self.queue.remove(0);
        let ghost after_pop = self.queue@;
        assert(after_pop =~= before_pop.remove(0));
        assert(queue_view(after_pop) =~= queue_view(before_pop).skip(1));
        assert(w.queue.skip(i0).skip(1) =~= w.queue.skip(i0 + 1));
        assert(queue_view(after_pop) =~= w.queue.skip(i0 + 1));
        let versions = match self.exact_position(&key) {
            Some(j) => copy_strings(&self.exact[j].1),
            None => Vec::new(),
        };
        proof {
            assert(texts(versions@) == exact_of(w, key@)) by {
                if !w.exact.contains_key(key@) {
                    assert(versions@.map_values(|s: String| s@) =~= Seq::<Seq<char>>::empty());
                    assert(texts(versions@) =~= Set::<Seq<char>>::empty());
                }
            }
            assert(!key_set(self.seen@).contains(key@));
        }
        let ghost seen_before = self.seen@;
        self.seen.push(key.copy());
        proof {
            assert(key_set(self.seen@) =~= w.seen.insert(key@)) by {
                assert(self.seen@.map_values(|k: NodeKey| k@) =~= seen_before.map_values(|k: NodeKey| k@).push(key@));
                seen_before.map_values(|k: NodeKey| k@).lemma_push_to_set_commute(key@);
            }
            assert forall|a: int, b: int| 0 <= a < b < self.seen@.len() implies (#[trigger] self.seen@[a])@
                != (#[trigger] self.seen@[b])@ by {
                if b == seen_before.len() {
                    assert(seen_before.map_values(|k: NodeKey| k@)[a] == seen_before[a]@);
                }
            }
        }
        Some((key, project_type, versions))
    }
    fn contains_text(v: &Vec<String>, t: &String) -> (r: bool)
        ensures
            r == texts(v@).contains(t@),
    {
        let mut i: usize = 0;
        while i < v.len()
            invariant
                i <= v.len(),
                forall|j: int| 0 <= j < i ==> (#[trigger] v@[j])@ != t@,
            decreases v.len() - i,
        {
            if v[i] == *t {
                assert(v@.map_values(|s: String| s@)[i as int] == t@);
                return true;
            }
            i += 1;
        }
        proof {
            let ts = v@.map_values(|s: String| s@);
            if ts.to_set().contains(t@) {
                let j = choose|j: int| 0 <= j < ts.len() && #[trigger] ts[j] == t@;
                assert(v@[j]@ == t@);
            }
        }
        false
    }

    /// Takes `key` out of the loaded projects, where it is there.
    fn unsee(&mut self, key: &NodeKey) -> (r: bool)
        requires
            old(self).wf(),
        ensures
            final(self).wf(),
            r == old(self)@.seen.contains(key@),
            final(self)@ == (WorkView { seen: old(self)@.seen.remove(key@), ..old(self)@ }),
    {
        let ghost ks = self.seen@.map_values(|k: NodeKey| k@);
        match self.seen_position(key) {
            Some(p) => {
                let ghost before = self.seen@;
                let _ = self.seen.remove(p);
                proof {
                    assert(self.seen@ =~= before.remove(p as int));
                    let ks2 = self.seen@.map_values(|k: NodeKey| k@);
                    assert forall|x: KeyView| ks2.to_set().contains(x) <==> ks.to_set().remove(key@).contains(x) by {
                        if ks2.to_set().contains(x) {
                            let j = choose|j: int| 0 <= j < ks2.len() && #[trigger] ks2[j] == x;
                            if j < p {
                                assert(ks[j] == x);
                            } else {
                                assert(ks[j + 1] == x);
                                assert(before[j + 1]@ != before[p as int]@);
                            }
                        }
                        if ks.to_set().remove(key@).contains(x) {
                            let j = choose|j: int| 0 <= j < ks.len() && #[trigger] ks[j] == x;
                            assert(j != p);
                            if j < p {
                                assert(ks2[j] == x);
                            } else {
                                assert(ks2[j - 1] == x);
                            }
                        }
                    }
                    assert(ks2.to_set() =~= ks.to_set().remove(key@));
                    assert forall|a: int, b: int| 0 <= a < b < self.seen@.len() implies (#[trigger] self.seen@[a])@
                        != (#[trigger] self.seen@[b])@ by {
                        let a0 = if a < p { a } else { a + 1 };
                        let b0 = if b < p { b } else { b + 1 };
                        assert(self.seen@[a] == before[a0] && self.seen@[b] == before[b0]);
                    }
                }
                true
            },
            None => {
                assert(ks.to_set().remove(key@) =~= ks.to_set());
                false
            },
        }
    }

    /// Adds `version` to the versions to look up exactly for `key`; whether
    /// it was not there yet.
    fn add_exact(&mut self, key: &NodeKey, version: &String) -> (r: bool)
        requires
            old(self).wf(),
        ensures
            final(self).wf(),
            r == !exact_of(old(self)@, key@).contains(version@),
            final(self)@ == (WorkView {
                exact: old(self)@.exact.insert(key@, exact_of(old(self)@, key@).insert(version@)),
                ..old(self)@
            }),
    {
        let ghost e0 = self.exact@;
        let ghost w0 = self@;
        match self.exact_position(key) {
            Some(j) => {
                let present = CatalogWork::contains_text(&self.exact[j].1, version);
                let ghost vs0 = self.exact@[j as int].1@;
                assert(exact_of(w0, key@) == texts(vs0));
                if present {
                    assert(texts(vs0).insert(version@) =~= texts(vs0));
                    assert(w0.exact.insert(key@, texts(vs0)) =~= w0.exact);
                    return false;
                }
                let mut entry = self.exact.remove(j);
                entry.1.push(version.clone());
                let ghost new_entry = entry;
                self.exact.insert(j, entry);
                proof {
                    assert(self.exact@ =~= e0.update(j as int, new_entry));
                    assert(new_entry.1@.map_values(|s: String| s@) =~= vs0.map_values(|s: String| s@).push(version@));
                    vs0.map_values(|s: String| s@).lemma_push_to_set_commute(version@);
                    assert(texts(new_entry.1@) =~= texts(vs0).insert(version@));
                    let m = exact_map(self.exact@);
                    let target = w0.exact.insert(key@, texts(vs0).insert(version@));
                    assert forall|k: KeyView| m.dom().contains(k) <==> target.dom().contains(k) by {
                        if m.dom().contains(k) {
                            let i = choose|i: int| 0 <= i < self.exact@.len() && (#[trigger] self.exact@[i]).0@ == k;
                            if i != j {
                                assert(e0[i].0@ == k);
                            }
                        }
                        if target.dom().contains(k) && k != key@ {
                            let i = choose|i: int| 0 <= i < e0.len() && (#[trigger] e0[i]).0@ == k;
                            assert(self.exact@[i].0@ == k);
                        }
                        if k == key@ {
                            assert(self.exact@[j as int].0@ == k);
                        }
                    }
                    assert forall|k: KeyView| #[trigger] m.dom().contains(k) implies m[k] == target[k] by {
                        let i = exact_index(self.exact@, k);
                        if k == key@ {
                            if i != j {
                                assert(self.exact@[i].0@ == self.exact@[j as int].0@);
                            }
                        } else {
                            let i0 = exact_index(e0, k);
                            assert(self.exact@[i].0@ == k);
                            assert(i != j);
                            assert(e0[i].0@ == k);
                            if i0 != i {
                                assert(e0[i0].0@ == e0[i].0@);
                            }
                        }
                    }
                    assert(m =~= target);
                    assert forall|a: int, b: int| 0 <= a < b < self.exact@.len() implies (#[trigger] self.exact@[a]).0@
                        != (#[trigger] self.exact@[b]).0@ by {
                        assert(self.exact@[a].0@ == e0[a].0@ && self.exact@[b].0@ == e0[b].0@);
                    }
                }
                true
            },
            None => {
                let mut versions: Vec<String> = Vec::new();
                versions.push(version.clone());
                self.exact.push((key.copy(), versions));
                proof {
                    assert(exact_of(w0, key@) =~= Set::<Seq<char>>::empty());
                    assert(self.exact@ =~= e0.push(self.exact@[e0.len() as int]));
                    let last = self.exact@[e0.len() as int];
                    assert(last.1@.map_values(|s: String| s@) =~= seq![version@]);
                    assert(seq![version@][0] == version@);
                    assert(texts(last.1@) =~= Set::<Seq<char>>::empty().insert(version@));
                    let m = exact_map(self.exact@);
                    let target = w0.exact.insert(key@, Set::<Seq<char>>::empty().insert(version@));
                    assert forall|k: KeyView| m.dom().contains(k) <==> target.dom().contains(k) by {
                        if m.dom().contains(k) {
                            let i = choose|i: int| 0 <= i < self.exact@.len() && (#[trigger] self.exact@[i]).0@ == k;
                            if i < e0.len() {
                                assert(e0[i].0@ == k);
                            }
                        }
                        if target.dom().contains(k) && k != key@ {
                            let i = choose|i: int| 0 <= i < e0.len() && (#[trigger] e0[i]).0@ == k;
                            assert(self.exact@[i].0@ == k);
                        }
                        if k == key@ {
                            assert(self.exact@[e0.len() as int].0@ == k);
                        }
                    }
                    assert forall|k: KeyView| #[trigger] m.dom().contains(k) implies m[k] == target[k] by {
                        let i = exact_index(self.exact@, k);
                        if k == key@ {
                            if i < e0.len() {
                                assert(e0[i].0@ == key@);
                            }
                        } else {
                            let i0 = exact_index(e0, k);
                            assert(self.exact@[i].0@ == k);
                            assert(i < e0.len());
                            assert(e0[i].0@ == k);
                            if i0 != i {
                                assert(e0[i0].0@ == e0[i].0@);
                            }
                        }
                    }
                    assert(m =~= target);
                    assert forall|a: int, b: int| 0 <= a < b < self.exact@.len() implies (#[trigger] self.exact@[a]).0@
                        != (#[trigger] self.exact@[b]).0@ by {
                        if b == e0.len() {
                            assert(e0[a].0@ != key@);
                        }
                    }
                }
                true
            },
        }
    }

    /// Follows one dependency of a loaded release (see `follow_dependency`).
    pub fn follow(&mut self, dependency: &CandidateDependency)
        requires
            old(self).wf(),
        ensures
            final(self).wf(),
            final(self)@ == follow_dependency(old(self)@, dependency@),
    {
        let ghost w0 = self@;
        match dependency.kind {
            CandidateDependencyKind::Required => {},
            _ => return,
        }
        let again = match &dependency.version_id {
            Some(v) => {
                let newly = self.add_exact(&dependency.key, v);
                if newly {
                    self.unsee(&dependency.key)
                } else {
                    false
                }
            },
            None => false,
        };
        if again {
            self.queue.push((dependency.key.copy(), ProjectType::Mod));
        }
        self.queue.push((dependency.key.copy(), ProjectType::Mod));
        proof {
            let w1 = follow_dependency(w0, dependency@);
            assert(self@.queue =~= w1.queue);
            assert(self@.seen =~= w1.seen);
            assert(self@.exact =~= w1.exact);
        }
    }

    /// Follows the dependencies of every candidate of a loaded pool, candidate
    /// by candidate.
    pub fn follow_all(&mut self, candidates: &Vec<UpgradeCandidate>)
        requires
            old(self).wf(),
        ensures
            final(self).wf(),
            final(self)@ == follow_dependencies(old(self)@, all_dependencies(cands_view(candidates@))),
    {
        let ghost w0 = self@;
        let ghost cv = cands_view(candidates@);
        let mut c: usize = 0;
        assert(all_dependencies(cv.subrange(0, 0)) =~= Seq::<DepView>::empty());
        while c < candidates.len()
            invariant
                c <= candidates.len(),
                cv == cands_view(candidates@),
                self.wf(),
                self@ == follow_dependencies(w0, all_dependencies(cv.subrange(0, c as int))),
            decreases candidates.len() - c,
        {
            let deps = &candidates[c].dependencies;
            let ghost done = all_dependencies(cv.subrange(0, c as int));
            let ghost dv = cv[c as int].dependencies;
            assert(dv == crate::upgrade::candidates::deps_view(deps@));
            let mut d: usize = 0;
            assert(done + dv.subrange(0, 0) =~= done);
            while d < deps.len()
                invariant
                    d <= deps.len(),
                    dv == crate::upgrade::candidates::deps_view(deps@),
                    self.wf(),
                    self@ == follow_dependencies(w0, done + dv.subrange(0, d as int)),
                decreases deps.len() - d,
            {
                proof {
                    let s1 = done + dv.subrange(0, d + 1);
                    assert(s1.drop_last() =~= done + dv.subrange(0, d as int));
                    assert(s1.last() == deps@[d as int]@);
                }
                self.follow(&deps[d]);
                d += 1;
            }
            proof {
                assert(dv.subrange(0, deps@.len() as int) =~= dv);
                assert(cv.subrange(0, c + 1).drop_last() =~= cv.subrange(0, c as int));
                assert(cv.subrange(0, c + 1).last() == cv[c as int]);
            }
            c += 1;
        }
        assert(cv.subrange(0, candidates@.len() as int) =~= cv);
    }
}

} // verus!
