//! What holds of every store, whatever events it has seen.

use vstd::prelude::*;
use crate::order::{lemma_lex_trichotomy, lex_le, lex_lt, name_bytes};
use crate::pipeline::{delivery, reports, Delivery, PipelineError, Received, Walk};
use crate::project::{Project, ProjectEvent, Timestamp};
use crate::store::{resort_is_wf, StoreError, StoreView};

verus! {

/// One move of a store's life: an event that fits is applied, or the display
/// order is recomputed.
pub open spec fn moves(from: StoreView, to: StoreView) -> bool {
    (exists|event: ProjectEvent| #[trigger] from.step(event) == Ok::<StoreView, StoreError>(to))
        || to.is_resort_of(from)
}

/// A history of a store: it starts empty and goes on by moves.
pub open spec fn history(trace: Seq<StoreView>) -> bool {
    &&& trace.len() > 0
    &&& trace[0] == StoreView::empty()
    &&& forall|k: int| 0 <= k < trace.len() - 1 ==> moves(#[trigger] trace[k], trace[k + 1])
}

/// An event that fits a well-formed store leaves a well-formed store.
pub proof fn step_keeps_wf(store: StoreView, event: ProjectEvent)
    requires
        store.wf(),
        store.step(event) is Ok,
    ensures
        store.step(event)->Ok_0.wf(),
{
    let next = store.step(event)->Ok_0;
    match event {
        ProjectEvent::Add(project) => {
            assert(next.order.no_duplicates());
            assert forall|id: int| 0 <= id < next.projects.len() implies #[trigger] next.order.contains(
                id,
            ) by {
                if id < store.projects.len() {
                    assert(store.order.contains(id));
                    let i = choose|i: int| 0 <= i < store.order.len() && store.order[i] == id;
                    assert(next.order[i] == id);
                } else {
                    assert(next.order[store.order.len() as int] == id);
                }
            }
            assert forall|i: int, j: int| 0 <= i < j < next.projects.len() implies (
            #[trigger] next.projects[i]).path@ != (#[trigger] next.projects[j]).path@ by {
                if j == store.projects.len() {
                    assert(store.projects[i].path@ != project.path@);
                }
            }
        },
        ProjectEvent::Update(key, modified, file_count) => {
            store.lemma_refined_wf(key@, modified, file_count);
        },
    }
}

/// At every point of a history the display order
/// lists each identity handed out so far exactly once, and nothing else.
pub proof fn display_order_is_permutation(trace: Seq<StoreView>, at: int)
    requires
        history(trace),
        0 <= at < trace.len(),
    ensures
        trace[at].wf(),
        trace[at].order.len() == trace[at].projects.len(),
        trace[at].order.no_duplicates(),
        forall|id: int| 0 <= id < trace[at].projects.len() <==> trace[at].order.contains(id),
    decreases at,
{
    if at > 0 {
        display_order_is_permutation(trace, at - 1);
        let from = trace[at - 1];
        let to = trace[at];
        assert(moves(from, to));
        if to.is_resort_of(from) {
            resort_is_wf(from, to);
        } else {
            let event = choose|event: ProjectEvent| #[trigger]
                from.step(event) == Ok::<StoreView, StoreError>(to);
            step_keeps_wf(from, event);
        }
    }
    let store = trace[at];
    assert forall|id: int| store.order.contains(id) implies 0 <= id < store.projects.len() by {
        let i = choose|i: int| 0 <= i < store.order.len() && store.order[i] == id;
        assert(0 <= store.order[i] < store.projects.len());
    }
}

/// In a sorted display order, of two neighbours the first
/// was modified later, or at the same time with a name that is not greater.
pub proof fn neighbours_are_ordered(store: StoreView, place: int)
    requires
        store.sorted(),
        0 <= place,
        place + 1 < store.order.len(),
    ensures
        store.shown(place).modified > store.shown(place + 1).modified || (store.shown(
            place,
        ).modified == store.shown(place + 1).modified && lex_le(
            name_bytes(store.shown(place).name@),
            name_bytes(store.shown(place + 1).name@),
        )),
{
    let first = store.shown(place);
    let second = store.shown(place + 1);
    assert(!second.outranks(first));
    lemma_lex_trichotomy(name_bytes(first.name@), name_bytes(second.name@));
}

/// In a history, right after the display order was recomputed, neighbours
/// are ordered.
pub proof fn resort_orders_neighbours(trace: Seq<StoreView>, at: int, place: int)
    requires
        history(trace),
        0 < at < trace.len(),
        trace[at].is_resort_of(trace[at - 1]),
        0 <= place,
        place + 1 < trace[at].order.len(),
    ensures
        trace[at].shown(place).modified > trace[at].shown(place + 1).modified || (trace[at].shown(
            place,
        ).modified == trace[at].shown(place + 1).modified && lex_le(
            name_bytes(trace[at].shown(place).name@),
            name_bytes(trace[at].shown(place + 1).name@),
        )),
{
    display_order_is_permutation(trace, at - 1);
    resort_is_wf(trace[at - 1], trace[at]);
    neighbours_are_ordered(trace[at], place);
}

/// Whatever key a store of a history holds, an earlier arrival of that
/// history has introduced.
pub proof fn key_comes_from_an_add(trace: Seq<StoreView>, at: int, key: Seq<char>)
    requires
        history(trace),
        0 <= at < trace.len(),
        trace[at].has_key(key),
    ensures
        exists|k: int, project: Project|
            0 <= k < at && project.path@ == key && #[trigger] trace[k].step(
                ProjectEvent::Add(project),
            ) == Ok::<StoreView, StoreError>(trace[k + 1]),
    decreases at,
{
    if at == 0 {
        assert(trace[0].projects.len() == 0);
    } else {
        let from = trace[at - 1];
        let to = trace[at];
        display_order_is_permutation(trace, at - 1);
        assert(moves(from, to));
        if from.has_key(key) {
            key_comes_from_an_add(trace, at - 1, key);
            let (k, project) = choose|k: int, project: Project|
                0 <= k < at - 1 && project.path@ == key && #[trigger] trace[k].step(
                    ProjectEvent::Add(project),
                ) == Ok::<StoreView, StoreError>(trace[k + 1]);
            assert(0 <= k < at && project.path@ == key && trace[k].step(ProjectEvent::Add(project))
                == Ok::<StoreView, StoreError>(trace[k + 1]));
        } else if to.is_resort_of(from) {
            let i = to.id_of(key);
            assert(from.projects[i].path@ == key);
        } else {
            let event = choose|event: ProjectEvent| #[trigger]
                from.step(event) == Ok::<StoreView, StoreError>(to);
            match event {
                ProjectEvent::Add(project) => {
                    let i = to.id_of(key);
                    if i < from.projects.len() {
                        assert(from.projects[i].path@ == key);
                    }
                    assert(project.path@ == key);
                    assert(trace[at - 1].step(ProjectEvent::Add(project)) == Ok::<
                        StoreView,
                        StoreError,
                    >(trace[at - 1 + 1]));
                },
                ProjectEvent::Update(k, modified, file_count) => {
                    from.lemma_refined_wf(k@, modified, file_count);
                },
            }
        }
    }
}

/// In a history in which no arrival has introduced the
/// key, a refinement for that key is refused as not found.
pub proof fn update_without_add_fails(
    trace: Seq<StoreView>,
    at: int,
    key: String,
    modified: Timestamp,
    file_count: usize,
)
    requires
        history(trace),
        0 <= at < trace.len(),
        forall|k: int, project: Project|
            0 <= k < at && project.path@ == key@ ==> #[trigger] trace[k].step(
                ProjectEvent::Add(project),
            ) != Ok::<StoreView, StoreError>(trace[k + 1]),
    ensures
        trace[at].step(ProjectEvent::Update(key, modified, file_count)) == Err::<
            StoreView,
            StoreError,
        >(StoreError::NotFound),
{
    if trace[at].has_key(key@) {
        key_comes_from_an_add(trace, at, key@);
    }
}

/// A refinement for a key that no arrival has introduced is refused as not
/// found: in the empty store, and in any store that lacks the key.
pub proof fn update_before_add_fails(
    store: StoreView,
    key: String,
    modified: Timestamp,
    file_count: usize,
)
    requires
        !store.has_key(key@),
    ensures
        store.step(ProjectEvent::Update(key, modified, file_count)) == Err::<StoreView, StoreError>(
            StoreError::NotFound,
        ),
        StoreView::empty().step(ProjectEvent::Update(key, modified, file_count)) == Err::<
            StoreView,
            StoreError,
        >(StoreError::NotFound),
{
}

/// Once a project has arrived, a second arrival under its key is refused as
/// a duplicate, also after the display order was recomputed in between.
pub proof fn second_add_fails(store: StoreView, first: Project, second: Project, resorted: StoreView)
    requires
        store.wf(),
        store.step(ProjectEvent::Add(first)) is Ok,
        second.path@ == first.path@,
        resorted.is_resort_of(store.added(first)),
    ensures
        store.added(first).step(ProjectEvent::Add(second)) == Err::<StoreView, StoreError>(
            StoreError::DuplicateKey,
        ),
        resorted.step(ProjectEvent::Add(second)) == Err::<StoreView, StoreError>(
            StoreError::DuplicateKey,
        ),
{
    let next = store.added(first);
    assert(next.projects[store.projects.len() as int].path@ == second.path@);
}

/// `after` lists what `before` lists, as many places long.
pub open spec fn same_listing(before: StoreView, after: StoreView) -> bool {
    &&& after.projects == before.projects
    &&& after.order.len() == before.order.len()
    &&& forall|x: int| #[trigger] after.order.contains(x) <==> before.order.contains(x)
}

/// `after` is `before` ordered by name alone, smaller names first, by an
/// ordering that keeps equal names in the order they had.
pub open spec fn is_name_pass_of(after: StoreView, before: StoreView) -> bool {
    &&& same_listing(before, after)
    &&& forall|a: int, b: int|
        0 <= a < b < after.order.len() ==> {
            let p = after.projects[#[trigger] after.order[a]];
            let q = after.projects[#[trigger] after.order[b]];
            lex_lt(name_bytes(p.name@), name_bytes(q.name@)) || (name_bytes(p.name@) == name_bytes(
                q.name@,
            ) && before.order.index_of(after.order[a]) < before.order.index_of(after.order[b]))
        }
}

/// `after` is `before` ordered by modification time alone, later times
/// first, by an ordering that keeps equal times in the order they had.
pub open spec fn is_recency_pass_of(after: StoreView, before: StoreView) -> bool {
    &&& same_listing(before, after)
    &&& forall|a: int, b: int|
        0 <= a < b < after.order.len() ==> {
            let p = after.projects[#[trigger] after.order[a]];
            let q = after.projects[#[trigger] after.order[b]];
            p.modified > q.modified || (p.modified == q.modified && before.order.index_of(
                after.order[a],
            ) < before.order.index_of(after.order[b]))
        }
}

/// Ordering by name and then, keeping ties in place, by modification time
/// gives the resort: the two passes and the one composite ordering agree.
pub proof fn two_passes_make_the_resort(before: StoreView, by_name: StoreView, after: StoreView)
    requires
        before.wf(),
        is_name_pass_of(by_name, before),
        is_recency_pass_of(after, by_name),
    ensures
        after.is_resort_of(before),
{
    assert forall|a: int, b: int| 0 <= a < b < after.order.len() implies before.places_before(
        #[trigger] after.order[a],
        #[trigger] after.order[b],
    ) by {
        let x = after.order[a];
        let y = after.order[b];
        if after.projects[x].modified == after.projects[y].modified {
            assert(after.order.contains(x) && after.order.contains(y));
            assert(by_name.order.contains(x) && by_name.order.contains(y));
            let i = by_name.order.index_of(x);
            let j = by_name.order.index_of(y);
            assert(by_name.order[i] == x && by_name.order[j] == y);
            assert(i < j);
        }
    }
}

proof fn lemma_same_order(before: StoreView, s: Seq<int>, t: Seq<int>)
    requires
        s.len() == t.len(),
        forall|x: int| #[trigger] s.contains(x) <==> t.contains(x),
        forall|a: int, b: int|
            0 <= a < b < s.len() ==> before.places_before(#[trigger] s[a], #[trigger] s[b]),
        forall|a: int, b: int|
            0 <= a < b < t.len() ==> before.places_before(#[trigger] t[a], #[trigger] t[b]),
    ensures
        s == t,
    decreases s.len(),
{
    if s.len() == 0 {
        assert(s =~= t);
    } else {
        assert(s.contains(s[0]));
        assert(t.contains(s[0]));
        assert(t.contains(t[0]));
        assert(s.contains(t[0]));
        let j = choose|j: int| 0 <= j < t.len() && t[j] == s[0];
        let k = choose|k: int| 0 <= k < s.len() && s[k] == t[0];
        if j > 0 && k > 0 {
            before.lemma_places_before_strict(t[0], t[j]);
            assert(before.places_before(s[0], s[k]));
        }
        assert(s[0] == t[0]);
        let s1 = s.drop_first();
        let t1 = t.drop_first();
        assert forall|x: int| #[trigger] s1.contains(x) <==> t1.contains(x) by {
            if s1.contains(x) {
                let i = choose|i: int| 0 <= i < s1.len() && s1[i] == x;
                assert(s[i + 1] == x);
                before.lemma_places_before_strict(s[0], s[i + 1]);
                assert(s.contains(x));
                assert(t.contains(x));
                let m = choose|m: int| 0 <= m < t.len() && t[m] == x;
                assert(t1[m - 1] == x);
            }
            if t1.contains(x) {
                let i = choose|i: int| 0 <= i < t1.len() && t1[i] == x;
                assert(t[i + 1] == x);
                before.lemma_places_before_strict(t[0], t[i + 1]);
                assert(t.contains(x));
                assert(s.contains(x));
                let m = choose|m: int| 0 <= m < s.len() && s[m] == x;
                assert(s1[m - 1] == x);
            }
        }
        assert forall|a: int, b: int| 0 <= a < b < s1.len() implies before.places_before(
            #[trigger] s1[a],
            #[trigger] s1[b],
        ) by {
            assert(before.places_before(s[a + 1], s[b + 1]));
        }
        assert forall|a: int, b: int| 0 <= a < b < t1.len() implies before.places_before(
            #[trigger] t1[a],
            #[trigger] t1[b],
        ) by {
            assert(before.places_before(t[a + 1], t[b + 1]));
        }
        lemma_same_order(before, s1, t1);
        assert(s =~= seq![s[0]] + s1);
        assert(t =~= seq![t[0]] + t1);
    }
}

/// A store has one resort only: what recomputing the display order gives
/// is determined by the store.
pub proof fn resort_is_unique(before: StoreView, one: StoreView, other: StoreView)
    requires
        one.is_resort_of(before),
        other.is_resort_of(before),
    ensures
        one == other,
{
    lemma_same_order(before, one.order, other.order);
}

/// The reports of two runs of walks, one after the other, are the reports
/// of the first followed by those of the second.
pub proof fn reports_of_joined_walks(first: Seq<Walk>, second: Seq<Walk>)
    ensures
        reports(first + second) == reports(first) + reports(second),
    decreases second.len(),
{
    if second.len() == 0 {
        assert(first + second =~= first);
        assert(reports(first) + reports(second) =~= reports(first));
    } else {
        let joined = first + second;
        assert(joined.drop_last() =~= first + second.drop_last());
        assert(joined.last() == second.last());
        reports_of_joined_walks(first, second.drop_last());
        match second.last().report() {
            Some(event) => {
                assert(reports(first) + reports(second.drop_last()).push(event) =~= (reports(first)
                    + reports(second.drop_last())).push(event));
            },
            None => {},
        }
    }
}

/// The report of one walk alone: its own, or none.
pub open spec fn own_report(walk: Walk) -> Seq<ProjectEvent> {
    match walk.report() {
        Some(event) => seq![event],
        None => seq![],
    }
}

/// Each walk reports for itself. A walk that came to an end, however little
/// it could read, gives one refinement for its project, and a walk that
/// could not start gives none; either way what the other walks report is
/// what they report without it.
pub proof fn each_walk_reports_for_itself(walks: Seq<Walk>, at: int)
    requires
        0 <= at < walks.len(),
    ensures
        reports(walks) == reports(walks.take(at)) + own_report(walks[at]) + reports(
            walks.skip(at + 1),
        ),
        own_report(walks[at]).len() == if walks[at].floor is Some {
            1nat
        } else {
            0nat
        },
        walks[at].floor is Some ==> (own_report(walks[at])[0] matches ProjectEvent::Update(
            key,
            _,
            _,
        ) && key == walks[at].path),
        walks[at].floor is None ==> reports(walks) == reports(walks.remove(at)),
{
    let before = walks.take(at);
    let after = walks.skip(at + 1);
    let one = seq![walks[at]];
    assert(walks =~= before + one + after);
    reports_of_joined_walks(before + one, after);
    reports_of_joined_walks(before, one);
    assert(one.drop_last() =~= Seq::<Walk>::empty());
    assert(reports(one.drop_last()) =~= Seq::<ProjectEvent>::empty());
    assert(reports(one) =~= own_report(walks[at]));
    if walks[at].floor is None {
        assert(walks.remove(at) =~= before + after);
        reports_of_joined_walks(before, after);
        assert(reports(before) + own_report(walks[at]) + reports(after) =~= reports(before)
            + reports(after));
    }
}

/// No report of a walk ends the stream: each is handed to the consumer as
/// the event it is, whether or not a stage has failed, and while the channel
/// is open and empty the consumer is asked to wait.
pub proof fn reports_do_not_end_the_stream(
    walks: Seq<Walk>,
    at: int,
    failure: Option<PipelineError>,
)
    requires
        0 <= at < reports(walks).len(),
    ensures
        delivery(Received::Event(reports(walks)[at]), failure) == Delivery::Event(
            reports(walks)[at],
        ),
        delivery(Received::Empty, failure) == Delivery::Pending,
{
}

} // verus!
