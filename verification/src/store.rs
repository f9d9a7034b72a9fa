//! The project store: every known project under a stable identity, found by
//! its key, and listed in a display order that follows recent activity.

use vstd::prelude::*;
use crate::index::KeyIndex;
use crate::project::{Project, ProjectEvent, ProjectKey, Timestamp};

verus! {

/// Why an event could not be applied.
#[derive(Debug, Clone, Copy, PartialEq, Eq)]
pub enum StoreError {
    /// A project with this key is already stored.
    DuplicateKey,
    /// No project with this key is stored.
    NotFound,
}

/// What a store holds: the projects in arrival order, where a project's
/// position is its identity, and the display order as a sequence of identities.
pub struct StoreView {
    pub projects: Seq<Project>,
    pub order: Seq<int>,
}

impl StoreView {
    /// The empty store.
    pub open spec fn empty() -> StoreView {
        StoreView { projects: Seq::empty(), order: Seq::empty() }
    }

    /// Keys are unique, and the display order lists every identity once.
    pub open spec fn wf(self) -> bool {
        &&& self.order.len() == self.projects.len()
        &&& forall|i: int|
            0 <= i < self.order.len() ==> 0 <= (#[trigger] self.order[i]) < self.projects.len()
        &&& self.order.no_duplicates()
        &&& forall|id: int| 0 <= id < self.projects.len() ==> #[trigger] self.order.contains(id)
        &&& forall|i: int, j: int|
            0 <= i < j < self.projects.len() ==> (#[trigger] self.projects[i]).path@
                != (#[trigger] self.projects[j]).path@
    }

    /// Some stored project has the key.
    pub open spec fn has_key(self, key: Seq<char>) -> bool {
        exists|i: int| 0 <= i < self.projects.len() && (#[trigger] self.projects[i]).path@ == key
    }

    /// The identity of the project with the key, where one is stored.
    pub open spec fn id_of(self, key: Seq<char>) -> int {
        choose|i: int| 0 <= i < self.projects.len() && (#[trigger] self.projects[i]).path@ == key
    }

    /// The store after a project has arrived: it takes the next identity and
    /// the last place of the display order.
    pub open spec fn added(self, project: Project) -> StoreView {
        StoreView {
            projects: self.projects.push(project),
            order: self.order.push(self.projects.len() as int),
        }
    }

    /// The store after the project with the key took new activity values.
    pub open spec fn refined(self, key: Seq<char>, modified: Timestamp, file_count: usize) -> StoreView {
        let id = self.id_of(key);
        StoreView {
            projects: self.projects.update(id, self.projects[id].refined(modified, file_count)),
            order: self.order,
        }
    }

    /// What applying an event gives: the next store, or the reason why the
    /// event does not fit this one.
    pub open spec fn step(self, event: ProjectEvent) -> Result<StoreView, StoreError> {
        match event {
            ProjectEvent::Add(project) => if self.has_key(project.path@) {
                Err(StoreError::DuplicateKey)
            } else {
                Ok(self.added(project))
            },
            ProjectEvent::Update(key, modified, file_count) => if self.has_key(key@) {
                Ok(self.refined(key@, modified, file_count))
            } else {
                Err(StoreError::NotFound)
            },
        }
    }

    /// The project shown at a place of the display order.
    pub open spec fn shown(self, place: int) -> Project {
        self.projects[self.order[place]]
    }

    /// In a resort of this store, identity `x` is placed before `y`: its
    /// project outranks the other, or they tie and `x` stood first here.
    pub open spec fn places_before(self, x: int, y: int) -> bool {
        let p = self.projects[x];
        let q = self.projects[y];
        p.outranks(q) || (p.ties_with(q) && self.order.index_of(x) < self.order.index_of(y))
    }

    /// `self` is this store's resort of `before`: the same projects, the same
    /// identities listed, each placed before all that it must precede.
    pub open spec fn is_resort_of(self, before: StoreView) -> bool {
        &&& self.projects == before.projects
        &&& self.order.len() == before.order.len()
        &&& forall|x: int| #[trigger] self.order.contains(x) <==> before.order.contains(x)
        &&& forall|a: int, b: int|
            0 <= a < b < self.order.len() ==> before.places_before(
                #[trigger] self.order[a],
                #[trigger] self.order[b],
            )
    }

    /// A stored project's key leads back to its identity.
    pub proof fn lemma_id_of(self, id: int)
        requires
            self.wf(),
            0 <= id < self.projects.len(),
        ensures
            self.has_key(self.projects[id].path@),
            self.id_of(self.projects[id].path@) == id,
    {
        let key = self.projects[id].path@;
        let found = self.id_of(key);
        assert(0 <= found < self.projects.len() && self.projects[found].path@ == key);
        if found < id {
            assert(self.projects[found].path@ != self.projects[id].path@);
        } else if id < found {
            assert(self.projects[id].path@ != self.projects[found].path@);
        }
    }

    /// Refining a stored project keeps the store well formed and every key
    /// where it was.
    pub proof fn lemma_refined_wf(self, key: Seq<char>, modified: Timestamp, file_count: usize)
        requires
            self.wf(),
            self.has_key(key),
        ensures
            self.refined(key, modified, file_count).wf(),
            forall|k: Seq<char>| self.refined(key, modified, file_count).has_key(k) == self.has_key(k),
    {
        let next = self.refined(key, modified, file_count);
        let id = self.id_of(key);
        assert forall|i: int| 0 <= i < next.projects.len() implies (#[trigger] next.projects[i]).path@
            == self.projects[i].path@ by {}
        assert forall|k: Seq<char>| next.has_key(k) == self.has_key(k) by {
            if self.has_key(k) {
                let i = self.id_of(k);
                assert(next.projects[i].path@ == k);
            }
            if next.has_key(k) {
                let i = next.id_of(k);
                assert(self.projects[i].path@ == k);
            }
        }
    }

    /// The placing of a resort carries over a third identity.
    pub proof fn lemma_places_before_transitive(self, x: int, y: int, z: int)
        requires
            self.places_before(x, y),
            self.places_before(y, z),
        ensures
            self.places_before(x, z),
    {
        let p = self.projects[x];
        let q = self.projects[y];
        let r = self.projects[z];
        p.lemma_rank_trichotomy(q);
        q.lemma_rank_trichotomy(r);
        if p.outranks(q) && q.outranks(r) {
            p.lemma_outranks_transitive(q, r);
        }
    }

    /// Of two identities a resort places the one that does not outrank the
    /// other behind it, given that the other stood first.
    pub proof fn lemma_places_before_or_behind(self, x: int, y: int)
        requires
            !self.projects[y].outranks(self.projects[x]),
            self.order.index_of(x) < self.order.index_of(y),
        ensures
            self.places_before(x, y),
    {
        self.projects[x].lemma_rank_trichotomy(self.projects[y]);
    }

    /// A resort never places an identity before itself, nor two both ways.
    pub proof fn lemma_places_before_strict(self, x: int, y: int)
        requires
            self.places_before(x, y),
        ensures
            x != y,
            !self.places_before(y, x),
            !self.projects[y].outranks(self.projects[x]),
    {
        self.projects[x].lemma_rank_trichotomy(self.projects[y]);
    }

    /// Later activity is listed first, and equal activity by name.
    pub open spec fn sorted(self) -> bool {
        forall|a: int, b: int|
            0 <= a < b < self.order.len() ==> !(#[trigger] self.shown(b)).outranks(
                #[trigger] self.shown(a),
            )
    }
}

/// The sequence with the items at two positions exchanged.
pub open spec fn exchanged(s: Seq<int>, a: int, b: int) -> Seq<int> {
    s.update(a, s[b]).update(b, s[a])
}

/// Exchanging two items changes neither which items a sequence holds.
pub proof fn lemma_exchanged_holds_same(s: Seq<int>, a: int, b: int)
    requires
        0 <= a < s.len(),
        0 <= b < s.len(),
    ensures
        forall|x: int| #[trigger] exchanged(s, a, b).contains(x) <==> s.contains(x),
{
    let t = exchanged(s, a, b);
    assert forall|x: int| #[trigger] t.contains(x) <==> s.contains(x) by {
        if s.contains(x) {
            let i = choose|i: int| 0 <= i < s.len() && s[i] == x;
            let k = if i == a { b } else if i == b { a } else { i };
            assert(t[k] == x);
        }
        if t.contains(x) {
            let i = choose|i: int| 0 <= i < t.len() && t[i] == x;
            let k = if i == a { b } else if i == b { a } else { i };
            assert(s[k] == x);
        }
    }
}

/// In a sequence without repeats every item is found at its own position.
pub proof fn lemma_index_of_own(s: Seq<int>, k: int)
    requires
        s.no_duplicates(),
        0 <= k < s.len(),
    ensures
        s.index_of(s[k]) == k,
{
    let found = s.index_of(s[k]);
    assert(0 <= found < s.len() && s[found] == s[k]);
}

/// Recomputing the display order of a well-formed store leaves a well-formed
/// store whose display order is sorted.
pub proof fn resort_is_wf(before: StoreView, after: StoreView)
    requires
        before.wf(),
        after.is_resort_of(before),
    ensures
        after.wf(),
        after.sorted(),
{
    let order = after.order;
    assert forall|a: int, b: int| 0 <= a < order.len() && 0 <= b < order.len() && a != b implies order[a]
        != order[b] by {
        if a < b {
            before.lemma_places_before_strict(order[a], order[b]);
        } else {
            before.lemma_places_before_strict(order[b], order[a]);
        }
    }
    assert forall|i: int| 0 <= i < order.len() implies 0 <= (#[trigger] order[i])
        < after.projects.len() by {
        assert(order.contains(order[i]));
        assert(before.order.contains(order[i]));
    }
    assert forall|a: int, b: int| 0 <= a < b < order.len() implies !(#[trigger] after.shown(b)).outranks(
        #[trigger] after.shown(a),
    ) by {
        before.lemma_places_before_strict(order[a], order[b]);
    }
}

/// Identities as the numbers they are.
pub open spec fn identities(order: Seq<usize>) -> Seq<int> {
    Seq::new(order.len(), |i: int| order[i] as int)
}

/// The index leads from each stored key to its project's identity, and
/// from no other key.
pub open spec fn agrees(index: Map<Seq<char>, usize>, projects: Seq<Project>) -> bool {
    &&& forall|key: Seq<char>| #[trigger]
        index.contains_key(key) ==> index[key] < projects.len() && projects[index[key] as int].path@
            == key
    &&& forall|id: int|
        0 <= id < projects.len() ==> index.contains_key((#[trigger] projects[id]).path@)
            && index[projects[id].path@] == id
}

/// An index that agrees with the projects still does once one of them is
/// replaced by a project of the same key.
pub proof fn lemma_agrees_after_change(
    index: Map<Seq<char>, usize>,
    projects: Seq<Project>,
    id: int,
    project: Project,
)
    requires
        agrees(index, projects),
        0 <= id < projects.len(),
        project.path@ == projects[id].path@,
    ensures
        agrees(index, projects.update(id, project)),
{
    let changed = projects.update(id, project);
    assert forall|key: Seq<char>| #[trigger] index.contains_key(key) implies index[key]
        < changed.len() && changed[index[key] as int].path@ == key by {
        assert(projects[index[key] as int].path@ == key);
    }
    assert forall|i: int| 0 <= i < changed.len() implies index.contains_key(
        (#[trigger] changed[i]).path@,
    ) && index[changed[i].path@] == i by {
        assert(index.contains_key(projects[i].path@));
    }
}

/// The store of all known projects.
#[derive(Debug)]
pub struct ProjectStore {
    project_by_key: KeyIndex,
    display_order: Vec<usize>,
    projects: Vec<Project>,
}

impl View for ProjectStore {
    type V = StoreView;

    closed spec fn view(&self) -> StoreView {
        StoreView { projects: self.projects@, order: identities(self.display_order@) }
    }
}

impl Default for ProjectStore {
    fn default() -> (s: ProjectStore)
        ensures
            s.wf(),
            s@ == StoreView::empty(),
    {
        ProjectStore::new()
    }
}

impl ProjectStore {
    /// The invariant of a store: that of what it holds, and an index from
    /// keys to identities that agrees with it.
    pub closed spec fn wf(&self) -> bool {
        &&& self@.wf()
        &&& agrees(self.project_by_key@, self.projects@)
    }

    /// What a well-formed store holds is well formed.
    pub proof fn lemma_wf(&self)
        requires
            self.wf(),
        ensures
            self@.wf(),
    {
    }

    /// A store without projects.
    pub fn new() -> (s: ProjectStore)
        ensures
            s.wf(),
            s@ == StoreView::empty(),
    {
        let s = ProjectStore {
            project_by_key: KeyIndex::new(),
            display_order: Vec::new(),
            projects: Vec::new(),
        };
        proof {
            assert(s@.order =~= StoreView::empty().order);
        }
        s
    }

    /// Number of projects stored.
    pub fn len(&self) -> (n: usize)
        ensures
            n == self@.projects.len(),
    {
        self.projects.len()
    }

    /// The identity of the project with the key.
    pub fn find(&self, key: &ProjectKey) -> (r: Option<usize>)
        requires
            self.wf(),
        ensures
            r is Some <==> self@.has_key(key@),
            r matches Some(id) ==> id == self@.id_of(key@) && id < self@.projects.len()
                && self@.projects[id as int].path@ == key@,
    {
        let found = self.project_by_key.get(key);
        proof {
            match found {
                Some(id) => {
                    assert(self.project_by_key@.contains_key(key@));
                    self@.lemma_id_of(id as int);
                },
                None => {
                    if self@.has_key(key@) {
                        let id = self@.id_of(key@);
                        assert(self.project_by_key@.contains_key(self.projects@[id].path@));
                    }
                },
            }
        }
        found
    }

    /// Stores a newly discovered project, unless its key is taken.
    pub fn add(&mut self, project: Project) -> (r: Result<(), StoreError>)
        requires
            old(self).wf(),
        ensures
            final(self).wf(),
            old(self)@.has_key(project.path@) ==> r == Err::<(), StoreError>(StoreError::DuplicateKey)
                && final(self)@ == old(self)@,
            !old(self)@.has_key(project.path@) ==> r is Ok && final(self)@ == old(self)@.added(
                project,
            ),
    {
        if self.find(&project.path).is_some() {
            return Err(StoreError::DuplicateKey);
        }
        let key = project.path.clone();
        let idx = self.projects.len();
        proof {
            if self.project_by_key@.contains_key(key@) {
                assert(self.projects@[self.project_by_key@[key@] as int].path@ == key@);
            }
        }
        self.projects.push(project);
        self.display_order.push(idx);
        self.project_by_key.insert(key, idx);
        proof {
            let v = self@;
            let o = old(self)@;
            assert(v.order =~= o.order.push(o.projects.len() as int));
            assert(v.order.no_duplicates());
            assert forall|x: int| 0 <= x < v.projects.len() implies #[trigger] v.order.contains(x) by {
                if x < o.projects.len() {
                    assert(o.order.contains(x));
                    let i = choose|i: int| 0 <= i < o.order.len() && o.order[i] == x;
                    assert(v.order[i] == x);
                } else {
                    assert(v.order[o.order.len() as int] == x);
                }
            }
            let index = self.project_by_key@;
            let before = old(self).project_by_key@;
            assert forall|k: Seq<char>| #[trigger] index.contains_key(k) implies index[k]
                < v.projects.len() && v.projects[index[k] as int].path@ == k by {
                if k != key@ {
                    assert(before.contains_key(k));
                }
            }
            assert forall|id: int| 0 <= id < v.projects.len() implies index.contains_key(
                (#[trigger] v.projects[id]).path@,
            ) && index[v.projects[id].path@] == id by {
                if id < o.projects.len() {
                    assert(before.contains_key(o.projects[id].path@));
                }
            }
        }
        Ok(())
    }

    /// The project with the key, open to change. While its key is left as it
    /// is, the store stays well formed.
    pub fn get_mut(&mut self, key: &ProjectKey) -> (r: Option<&mut Project>)
        requires
            old(self).wf(),
        ensures
            r is Some <==> old(self)@.has_key(key@),
            r is None ==> final(self)@ == old(self)@ && final(self).wf(),
            r matches Some(p) ==> {
                let id = old(self)@.id_of(key@);
                &&& *p == old(self)@.projects[id]
                &&& final(self)@.projects == old(self)@.projects.update(id, *final(p))
                &&& final(self)@.order == old(self)@.order
                &&& final(p).path@ == key@ ==> final(self).wf()
            },
    {
        match self.find(key) {
            Some(id) => {
                proof {
                    let held = self@;
                    let index = self.project_by_key@;
                    assert forall|project: Project| project.path@ == key@ implies (StoreView {
                        projects: #[trigger] held.projects.update(id as int, project),
                        order: held.order,
                    }).wf() && agrees(index, held.projects.update(id as int, project)) by {
                        lemma_agrees_after_change(index, held.projects, id as int, project);
                        let next = StoreView {
                            projects: held.projects.update(id as int, project),
                            order: held.order,
                        };
                        assert forall|i: int| 0 <= i < next.projects.len() implies (
                        #[trigger] next.projects[i]).path@ == held.projects[i].path@ by {}
                    }
                }
                Some(&mut self.projects[id])
            },
            None => None,
        }
    }

    /// Gives the project with the key its refined activity values.
    pub fn refine(&mut self, key: &ProjectKey, modified: Timestamp, file_count: usize) -> (r: Result<
        (),
        StoreError,
    >)
        requires
            old(self).wf(),
        ensures
            final(self).wf(),
            old(self)@.has_key(key@) ==> r is Ok && final(self)@ == old(self)@.refined(
                key@,
                modified,
                file_count,
            ),
            !old(self)@.has_key(key@) ==> r == Err::<(), StoreError>(StoreError::NotFound)
                && final(self)@ == old(self)@,
    {
        match self.get_mut(key) {
            Some(project) => {
                project.modified = modified;
                project.file_count = file_count;
                proof {
                    old(self)@.lemma_refined_wf(key@, modified, file_count);
                }
                Ok(())
            },
            None => Err(StoreError::NotFound),
        }
    }

    /// Applies one event: an arrival or a refinement.
    pub fn apply(&mut self, event: ProjectEvent) -> (r: Result<(), StoreError>)
        requires
            old(self).wf(),
        ensures
            final(self).wf(),
            match old(self)@.step(event) {
                Ok(next) => r is Ok && final(self)@ == next,
                Err(e) => r == Err::<(), StoreError>(e) && final(self)@ == old(self)@,
            },
    {
        match event {
            ProjectEvent::Add(project) => self.add(project),
            ProjectEvent::Update(key, modified, file_count) => self.refine(
                &key,
                modified,
                file_count,
            ),
        }
    }

    /// Recomputes the display order: later activity first, equal activity by
    /// name, and projects that tie in both in the order they had.
    pub fn sort(&mut self)
        requires
            old(self).wf(),
        ensures
            final(self).wf(),
            final(self)@.is_resort_of(old(self)@),
            final(self)@.sorted(),
    {
        let ghost base = self@;
        let n = self.display_order.len();
        let mut i: usize = 0;
        proof {
            assert forall|k: int| 0 <= k < n implies (#[trigger] self.display_order@[k]) < n by {
                assert(0 <= self@.order[k] < n);
            }
        }
        while i < n
            invariant
                base.wf(),
                agrees(self.project_by_key@, self.projects@),
                self@.projects == base.projects,
                self@.order.len() == n,
                n == base.order.len(),
                i <= n,
                self.display_order@.len() == n,
                forall|k: int| 0 <= k < n ==> (#[trigger] self.display_order@[k]) < n,
                forall|k: int| 0 <= k < n ==> 0 <= (#[trigger] self@.order[k]) < n,
                forall|x: int| #[trigger] self@.order.contains(x) <==> base.order.contains(x),
                forall|k: int| i <= k < n ==> #[trigger] self@.order[k] == base.order[k],
                forall|k: int| 0 <= k < i ==> base.order.index_of(#[trigger] self@.order[k]) < i,
                forall|a: int, b: int|
                    0 <= a < b < i ==> base.places_before(
                        #[trigger] self@.order[a],
                        #[trigger] self@.order[b],
                    ),
            decreases n - i,
        {
            let cur = self.display_order[i];
            proof {
                lemma_index_of_own(base.order, i as int);
                assert(self@.order[i as int] == cur);
            }
            let mut j: usize = i;
            while j > 0 && self.projects[cur].ranks_before(&self.projects[self.display_order[j - 1]])
                invariant
                    base.wf(),
                    agrees(self.project_by_key@, self.projects@),
                    self@.projects == base.projects,
                    self@.order.len() == n,
                    n == base.order.len(),
                    j <= i < n,
                    cur < n,
                    self.display_order@.len() == n,
                    forall|k: int| 0 <= k < n ==> (#[trigger] self.display_order@[k]) < n,
                    self@.order[j as int] == cur,
                    base.order.index_of(cur as int) == i,
                    forall|k: int| 0 <= k < n ==> 0 <= (#[trigger] self@.order[k]) < n,
                    forall|x: int| #[trigger] self@.order.contains(x) <==> base.order.contains(x),
                    forall|k: int| i < k < n ==> #[trigger] self@.order[k] == base.order[k],
                    forall|k: int|
                        0 <= k <= i && k != j ==> base.order.index_of(#[trigger] self@.order[k]) < i,
                    forall|a: int, b: int|
                        0 <= a < b <= i && a != j && b != j ==> base.places_before(
                            #[trigger] self@.order[a],
                            #[trigger] self@.order[b],
                        ),
                    forall|k: int| j < k <= i ==> base.places_before(cur as int, #[trigger] self@.order[k]),
                decreases j,
            {
                let prev = self.display_order[j - 1];
                let ghost before = self@.order;
                proof {
                    assert(before[j - 1] == prev);
                }
                self.display_order[j] = prev;
                self.display_order[j - 1] = cur;
                proof {
                    assert(self@.order =~= exchanged(before, j as int, j - 1));
                    lemma_exchanged_holds_same(before, j as int, j - 1);
                }
                j = j - 1;
            }
            proof {
                let order = self@.order;
                if j > 0 {
                    let prev = order[j - 1];
                    assert(prev == self.display_order@[j - 1]);
                    base.lemma_places_before_or_behind(prev, cur as int);
                    assert forall|a: int| 0 <= a < j implies base.places_before(
                        #[trigger] order[a],
                        cur as int,
                    ) by {
                        if a < j - 1 {
                            base.lemma_places_before_transitive(order[a], prev, cur as int);
                        }
                    }
                }
            }
            i = i + 1;
        }
        proof {
            resort_is_wf(base, self@);
        }
    }

    /// Applies one event and brings the display order up to date.
    pub fn update(&mut self, event: ProjectEvent) -> (r: Result<(), StoreError>)
        requires
            old(self).wf(),
        ensures
            final(self).wf(),
            match old(self)@.step(event) {
                Ok(next) => r is Ok && final(self)@.is_resort_of(next) && final(self)@.sorted(),
                Err(e) => r == Err::<(), StoreError>(e) && final(self)@ == old(self)@,
            },
    {
        let r = self.apply(event);
        if r.is_ok() {
            self.sort();
        }
        r
    }

    /// The project at a place of the display order.
    pub fn index(&self, index: usize) -> (p: &Project)
        requires
            self.wf(),
            index < self@.order.len(),
        ensures
            *p == self@.shown(index as int),
    {
        &self.projects[self.display_order[index]]
    }

    /// The project at a place of the display order, if the place exists.
    pub fn get(&self, index: usize) -> (r: Option<&Project>)
        requires
            self.wf(),
        ensures
            index < self@.order.len() ==> r == Some(&self@.shown(index as int)),
            index >= self@.order.len() ==> r is None,
    {
        if index < self.display_order.len() {
            Some(&self.projects[self.display_order[index]])
        } else {
            None
        }
    }

    /// All projects in display order.
    pub fn iter(&self) -> (r: Vec<&Project>)
        requires
            self.wf(),
        ensures
            r@.len() == self@.order.len(),
            forall|i: int| 0 <= i < r@.len() ==> *(#[trigger] r@[i]) == self@.shown(i),
    {
        let mut listed: Vec<&Project> = Vec::new();
        let mut i: usize = 0;
        proof {
            assert forall|k: int| 0 <= k < self.display_order@.len() implies (
            #[trigger] self.display_order@[k]) < self.projects@.len() by {
                assert(0 <= self@.order[k] < self.projects@.len());
            }
        }
        while i < self.display_order.len()
            invariant
                self.wf(),
                i <= self.display_order@.len(),
                listed@.len() == i,
                forall|k: int|
                    0 <= k < self.display_order@.len() ==> (#[trigger] self.display_order@[k])
                        < self.projects@.len(),
                forall|k: int| 0 <= k < i ==> *(#[trigger] listed@[k]) == self@.shown(k),
            decreases self.display_order@.len() - i,
        {
            listed.push(&self.projects[self.display_order[i]]);
            i = i + 1;
        }
        listed
    }
}

} // verus!
