//! Order of tabs and of saved requests.
use crate::model::{SavedRequest, SavedView, TabDraft, TabDraftView, TabId, WorkspaceState};
use crate::strings::views;
use vstd::prelude::*;

verus! {

/// The active index after the tab at `closing` was closed.
pub open spec fn active_after(active: int, closing: int, len: int) -> int {
    if active >= len - 1 {
        if len >= 2 {
            len - 2
        } else {
            0
        }
    } else if closing < active {
        active - 1
    } else {
        active
    }
}

/// The active index after one of `len` tabs was closed.
pub fn active_after_close(active: usize, closing: usize, len: usize) -> (r: usize)
    requires
        len >= 1,
    ensures
        r == active_after(active as int, closing as int, len as int),
{
    let new_len = len - 1;
    if active >= new_len {
        new_len.saturating_sub(1)
    } else if closing < active {
        active - 1
    } else {
        active
    }
}

/// Closing another tab keeps the active one active; closing the active one makes
/// its right neighbour active, or the left one where it was the last.
pub proof fn closing_keeps_the_active_tab<T>(tabs: Seq<T>, active: int, closing: int)
    requires
        tabs.len() >= 2,
        0 <= active < tabs.len(),
        0 <= closing < tabs.len(),
    ensures
        ({
            let next = active_after(active, closing, tabs.len() as int);
            let rest = tabs.remove(closing);
            &&& 0 <= next < rest.len()
            &&& closing != active ==> rest[next] == tabs[active]
            &&& closing == active && active + 1 < tabs.len() ==> rest[next] == tabs[active + 1]
            &&& closing == active && active + 1 == tabs.len() ==> rest[next] == tabs[active - 1]
        }),
{
}

/// The first of `drafts` with the given identifier.
pub open spec fn draft_index(drafts: Seq<TabDraftView>, id: TabId) -> Option<int>
    decreases drafts.len(),
{
    if drafts.len() == 0 {
        None
    } else if drafts[0].id == id {
        Some(0)
    } else {
        match draft_index(drafts.skip(1), id) {
            Some(i) => Some(i + 1),
            None => None,
        }
    }
}

/// How many drafts stand before one with identifier `id` in the order of
/// identifiers; of equal ones, the earlier stands first.
pub open spec fn id_rank(sorted: Seq<TabDraftView>, id: TabId) -> int
    decreases sorted.len(),
{
    if sorted.len() == 0 || sorted[0].id.0 > id.0 {
        0
    } else {
        1 + id_rank(sorted.skip(1), id)
    }
}

/// Drafts in the order of their identifiers, that is of their creation.
pub open spec fn by_id(drafts: Seq<TabDraftView>) -> Seq<TabDraftView>
    decreases drafts.len(),
{
    if drafts.len() == 0 {
        Seq::empty()
    } else {
        let head = by_id(drafts.drop_last());
        head.insert(id_rank(head, drafts.last().id), drafts.last())
    }
}

/// Drafts taken out in the given order, and those that were not mentioned.
pub open spec fn picked(order: Seq<TabId>, drafts: Seq<TabDraftView>) -> (
    Seq<TabDraftView>,
    Seq<TabDraftView>,
)
    decreases order.len(),
{
    if order.len() == 0 {
        (Seq::empty(), drafts)
    } else {
        let (out, rest) = picked(order.drop_last(), drafts);
        match draft_index(rest, order.last()) {
            Some(i) => (out.push(rest[i]), rest.remove(i)),
            None => (out, rest),
        }
    }
}

/// The drafts in the order of the tabs; those that the order does not mention
/// follow by their identifiers.
pub open spec fn ordered(order: Seq<TabId>, drafts: Seq<TabDraftView>) -> Seq<TabDraftView> {
    let (out, rest) = picked(order, by_id(drafts));
    out + rest
}

pub(crate) proof fn lemma_draft_index(drafts: Seq<TabDraftView>, id: TabId)
    ensures
        match draft_index(drafts, id) {
            Some(i) => 0 <= i < drafts.len() && drafts[i].id == id && forall|j: int|
                0 <= j < i ==> (#[trigger] drafts[j]).id != id,
            None => forall|j: int| 0 <= j < drafts.len() ==> (#[trigger] drafts[j]).id != id,
        },
    decreases drafts.len(),
{
    if drafts.len() > 0 && drafts[0].id != id {
        let tail = drafts.skip(1);
        lemma_draft_index(tail, id);
        match draft_index(tail, id) {
            Some(i) => {
                assert(tail[i] == drafts[i + 1]);
                assert forall|j: int| 0 <= j < i + 1 implies (#[trigger] drafts[j]).id != id by {
                    if j > 0 {
                        assert(tail[j - 1] == drafts[j]);
                    }
                }
            },
            None => {
                assert forall|j: int| 0 <= j < drafts.len() implies (#[trigger] drafts[j]).id
                    != id by {
                    if j > 0 {
                        assert(tail[j - 1] == drafts[j]);
                    }
                }
            },
        }
    }
}

fn find_draft(drafts: &Vec<TabDraft>, id: TabId) -> (r: Option<usize>)
    ensures
        match r {
            Some(i) => draft_index(views(drafts@), id) == Some(i as int) && i < drafts@.len(),
            None => draft_index(views(drafts@), id) is None,
        },
{
    let ghost all = views(drafts@);
    let mut i: usize = 0;
    proof {
        assert(all.skip(0) =~= all);
    }
    while i < drafts.len()
        invariant
            i <= drafts@.len(),
            all == views(drafts@),
            draft_index(all, id) == (match draft_index(all.skip(i as int), id) {
                Some(k) => Some(k + i),
                None => None,
            }),
        decreases drafts@.len() - i,
    {
        proof {
            assert(all.skip(i as int)[0] == drafts@[i as int]@);
            assert(all.skip(i as int).skip(1) =~= all.skip(i + 1));
        }
        if drafts[i].id == id {
            return Some(i);
        }
        i = i + 1;
    }
    None
}

fn id_position(sorted: &Vec<TabDraft>, id: TabId) -> (r: usize)
    ensures
        r == id_rank(views(sorted@), id),
        r <= sorted@.len(),
{
    let ghost all = views(sorted@);
    let mut i: usize = 0;
    proof {
        assert(all.skip(0) =~= all);
    }
    while i < sorted.len() && sorted[i].id.0 <= id.0
        invariant
            i <= sorted@.len(),
            all == views(sorted@),
            id_rank(all, id) == i + id_rank(all.skip(i as int), id),
        decreases sorted@.len() - i,
    {
        proof {
            assert(all.skip(i as int)[0] == sorted@[i as int]@);
            assert(all.skip(i as int).skip(1) =~= all.skip(i + 1));
        }
        i = i + 1;
    }
    proof {
        if i < sorted@.len() {
            assert(all.skip(i as int)[0] == sorted@[i as int]@);
        }
    }
    i
}

fn sort_drafts(drafts: Vec<TabDraft>) -> (r: Vec<TabDraft>)
    ensures
        views(r@) == by_id(views(drafts@)),
{
    let ghost all = views(drafts@);
    let mut rest = drafts;
    let mut out: Vec<TabDraft> = Vec::new();
    proof {
        assert(all.take(0) =~= Seq::<TabDraftView>::empty());
        assert(views(out@) =~= by_id(all.take(0)));
        assert(all.skip(0) =~= all);
    }
    let ghost mut done: int = 0;
    while rest.len() > 0
        invariant
            0 <= done <= all.len(),
            rest@.len() == all.len() - done,
            views(rest@) == all.skip(done),
            views(out@) == by_id(all.take(done)),
        decreases rest@.len(),
    {
        let ghost before = views(rest@);
        let ghost head = views(out@);
        let d = rest.remove(0);
        let at = id_position(&out, d.id);
        let ghost view = d@;
        proof {
            assert(before[0] == view);
            assert(view == all[done]);
        }
        out.insert(at, d);
        proof {
            assert(views(rest@) =~= before.remove(0));
            assert(before.remove(0) =~= all.skip(done + 1));
            assert(views(out@) =~= head.insert(at as int, view));
            assert(all.take(done + 1).drop_last() =~= all.take(done));
            assert(all.take(done + 1).last() == view);
            done = done + 1;
        }
    }
    proof {
        assert(all.take(done) =~= all);
    }
    out
}

/// The drafts in the order of the tabs, and the active tab where it is among
/// them.
pub fn order_drafts(state: &WorkspaceState, drafts: Vec<TabDraft>) -> (r: (
    Vec<TabDraft>,
    Option<TabId>,
))
    ensures
        views(r.0@) == ordered(state.tab_order@, views(drafts@)),
        r.1 == still_there(state.active, ordered(state.tab_order@, views(drafts@))),
{
    let ghost order = state.tab_order@;
    let mut rest = sort_drafts(drafts);
    let ghost sorted = views(rest@);
    let mut out: Vec<TabDraft> = Vec::new();
    let mut i: usize = 0;
    proof {
        assert(order.take(0) =~= Seq::<TabId>::empty());
        assert(views(out@) =~= Seq::<TabDraftView>::empty());
    }
    while i < state.tab_order.len()
        invariant
            i <= state.tab_order@.len(),
            order == state.tab_order@,
            (views(out@), views(rest@)) == picked(order.take(i as int), sorted),
        decreases state.tab_order@.len() - i,
    {
        let ghost head = views(out@);
        let ghost before = views(rest@);
        let id = state.tab_order[i];
        proof {
            assert(order.take(i + 1).drop_last() =~= order.take(i as int));
            assert(order.take(i + 1).last() == id);
            lemma_draft_index(before, id);
        }
        match find_draft(&rest, id) {
            Some(pos) => {
                let d = rest.remove(pos);
                let ghost view = d@;
                out.push(d);
                proof {
                    assert(before[pos as int] == view);
                    assert(views(rest@) =~= before.remove(pos as int));
                    assert(views(out@) =~= head.push(view));
                }
            },
            None => {},
        }
        i = i + 1;
    }
    proof {
        assert(order.take(i as int) =~= order);
    }
    let ghost head = views(out@);
    let ghost tail = views(rest@);
    out.append(&mut rest);
    proof {
        assert(views(out@) =~= head + tail);
    }
    let active = match state.active {
        Some(id) => {
            proof {
                lemma_draft_index(views(out@), id);
            }
            if find_draft(&out, id).is_some() {
                Some(id)
            } else {
                None
            }
        },
        None => None,
    };
    (out, active)
}

/// The active tab, where it is among the drafts.
pub open spec fn still_there(active: Option<TabId>, drafts: Seq<TabDraftView>) -> Option<TabId> {
    match active {
        Some(id) => if draft_index(drafts, id) is Some {
            Some(id)
        } else {
            None
        },
        None => None,
    }
}

proof fn lemma_id_rank(sorted: Seq<TabDraftView>, id: TabId)
    ensures
        0 <= id_rank(sorted, id) <= sorted.len(),
        forall|j: int| 0 <= j < id_rank(sorted, id) ==> (#[trigger] sorted[j]).id.0 <= id.0,
        id_rank(sorted, id) < sorted.len() ==> sorted[id_rank(sorted, id)].id.0 > id.0,
    decreases sorted.len(),
{
    if sorted.len() > 0 && sorted[0].id.0 <= id.0 {
        let tail = sorted.skip(1);
        lemma_id_rank(tail, id);
        assert forall|j: int| 0 <= j < id_rank(sorted, id) implies (#[trigger] sorted[j]).id.0
            <= id.0 by {
            if j > 0 {
                assert(tail[j - 1] == sorted[j]);
            }
        }
    }
}

/// Sorting by identifier sorts, and neither loses nor adds a draft.
pub proof fn drafts_are_sorted_by_id(drafts: Seq<TabDraftView>)
    ensures
        by_id(drafts).to_multiset() == drafts.to_multiset(),
        forall|i: int, j: int|
            0 <= i < j < by_id(drafts).len() ==> (#[trigger] by_id(drafts)[i]).id.0 <= (
            #[trigger] by_id(drafts)[j]).id.0,
    decreases drafts.len(),
{
    if drafts.len() > 0 {
        let front = drafts.drop_last();
        let d = drafts.last();
        drafts_are_sorted_by_id(front);
        let head = by_id(front);
        lemma_id_rank(head, d.id);
        let at = id_rank(head, d.id);
        vstd::seq_lib::to_multiset_insert(head, at, d);
        assert(drafts =~= front.push(d));
        vstd::seq_lib::to_multiset_build(front, d);
        let all = by_id(drafts);
        assert forall|i: int, j: int| 0 <= i < j < all.len() implies (#[trigger] all[i]).id.0 <= (
        #[trigger] all[j]).id.0 by {
            if j < at {
                assert(head[i].id.0 <= head[j].id.0);
            } else if j == at {
                assert(head[i].id.0 <= d.id.0);
            } else if i == at {
                if j - 1 > at {
                    assert(head[at].id.0 <= head[j - 1].id.0);
                }
            } else if i < at {
                assert(head[i].id.0 <= head[j - 1].id.0);
            } else {
                assert(head[i - 1].id.0 <= head[j - 1].id.0);
            }
        }
    } else {
        assert(drafts =~= Seq::<TabDraftView>::empty());
    }
}

proof fn lemma_picked_permutes(order: Seq<TabId>, drafts: Seq<TabDraftView>)
    ensures
        picked(order, drafts).0.to_multiset().add(picked(order, drafts).1.to_multiset())
            == drafts.to_multiset(),
    decreases order.len(),
{
    broadcast use vstd::multiset::group_multiset_axioms;

    if order.len() == 0 {
        vstd::seq_lib::to_multiset_len(Seq::<TabDraftView>::empty());
        assert(Seq::<TabDraftView>::empty().to_multiset() =~= vstd::multiset::Multiset::empty());
        assert(picked(order, drafts).0.to_multiset().add(drafts.to_multiset())
            =~= drafts.to_multiset());
    } else {
        lemma_picked_permutes(order.drop_last(), drafts);
        let (out, rest) = picked(order.drop_last(), drafts);
        lemma_draft_index(rest, order.last());
        match draft_index(rest, order.last()) {
            Some(i) => {
                vstd::seq_lib::to_multiset_build(out, rest[i]);
                vstd::seq_lib::to_multiset_remove(rest, i);
                vstd::seq_lib::to_multiset_contains(rest, rest[i]);
                assert(rest.contains(rest[i]));
                assert(out.push(rest[i]).to_multiset().add(rest.remove(i).to_multiset())
                    =~= drafts.to_multiset());
            },
            None => {},
        }
    }
}

/// Whatever order was kept, each draft is restored exactly once.
pub proof fn no_draft_is_lost(order: Seq<TabId>, drafts: Seq<TabDraftView>)
    ensures
        ordered(order, drafts).to_multiset() == drafts.to_multiset(),
        ordered(order, drafts).len() == drafts.len(),
{
    drafts_are_sorted_by_id(drafts);
    lemma_picked_permutes(order, by_id(drafts));
    let (out, rest) = picked(order, by_id(drafts));
    vstd::seq_lib::lemma_multiset_commutative(out, rest);
    vstd::seq_lib::to_multiset_len(ordered(order, drafts));
    vstd::seq_lib::to_multiset_len(drafts);
}

/// The identifiers of drafts.
pub open spec fn draft_ids(drafts: Seq<TabDraftView>) -> Seq<TabId> {
    drafts.map_values(|d: TabDraftView| d.id)
}

pub open spec fn ids_distinct(drafts: Seq<TabDraftView>) -> bool {
    forall|i: int, j: int| 0 <= i < j < drafts.len() ==> (#[trigger] drafts[i]).id != (
    #[trigger] drafts[j]).id
}

/// In whatever order the drafts of the tabs are found, they are restored in the
/// order of the tabs.
pub proof fn kept_order_is_restored(kept: Seq<TabDraftView>, found: Seq<TabDraftView>)
    requires
        ids_distinct(kept),
        found.to_multiset() == kept.to_multiset(),
    ensures
        ordered(draft_ids(kept), found) == kept,
{
    drafts_are_sorted_by_id(found);
    lemma_pick_in_order(kept, by_id(found), kept.len() as int);
    let order = draft_ids(kept);
    assert(order.take(kept.len() as int) =~= order);
    let (out, rest) = picked(order, by_id(found));
    assert(kept.take(kept.len() as int) =~= kept);
    assert(kept.skip(kept.len() as int) =~= Seq::<TabDraftView>::empty());
    vstd::seq_lib::to_multiset_len(rest);
    vstd::seq_lib::to_multiset_len(kept.skip(kept.len() as int));
    assert(rest.len() == 0);
    assert(out + rest =~= kept);
}

proof fn lemma_pick_in_order(kept: Seq<TabDraftView>, drafts: Seq<TabDraftView>, n: int)
    requires
        ids_distinct(kept),
        drafts.to_multiset() == kept.to_multiset(),
        0 <= n <= kept.len(),
    ensures
        picked(draft_ids(kept).take(n), drafts).0 == kept.take(n),
        picked(draft_ids(kept).take(n), drafts).1.to_multiset() == kept.skip(n).to_multiset(),
    decreases n,
{
    let order = draft_ids(kept);
    if n == 0 {
        assert(order.take(0) =~= Seq::<TabId>::empty());
        assert(kept.skip(0) =~= kept);
        assert(kept.take(0) =~= Seq::<TabDraftView>::empty());
    } else {
        lemma_pick_in_order(kept, drafts, n - 1);
        assert(order.take(n).drop_last() =~= order.take(n - 1));
        assert(order.take(n).last() == kept[n - 1].id);
        let (out, rest) = picked(order.take(n - 1), drafts);
        let left = kept.skip(n - 1);
        let d = kept[n - 1];
        assert(left[0] == d);
        vstd::seq_lib::to_multiset_contains(left, d);
        vstd::seq_lib::to_multiset_contains(rest, d);
        assert(left.contains(d));
        assert(rest.contains(d));
        lemma_draft_index(rest, d.id);
        let w = choose|w: int| 0 <= w < rest.len() && rest[w] == d;
        assert(rest[w].id == d.id);
        let i = draft_index(rest, d.id)->0;
        let e = rest[i];
        vstd::seq_lib::to_multiset_contains(rest, e);
        vstd::seq_lib::to_multiset_contains(left, e);
        assert(rest.contains(e));
        assert(left.contains(e));
        let k = choose|k: int| 0 <= k < left.len() && left[k] == e;
        assert(left[k] == kept[n - 1 + k]);
        if k > 0 {
            assert(kept[n - 1].id != kept[n - 1 + k].id);
        }
        assert(e == d);
        vstd::seq_lib::to_multiset_remove(rest, i);
        vstd::seq_lib::to_multiset_remove(left, 0);
        assert(left.remove(0) =~= kept.skip(n));
        assert(out.push(d) =~= kept.take(n));
    }
}

/// Whether `a` is listed before `b`: the one that was updated later; of two
/// updated at once, the one that was created later.
pub open spec fn newer(a: SavedView, b: SavedView) -> bool {
    a.updated_at > b.updated_at || (a.updated_at == b.updated_at && a.id.0 > b.id.0)
}

/// How many requests stand before `r` in a list with the newest first.
pub open spec fn saved_rank(list: Seq<SavedView>, r: SavedView) -> int
    decreases list.len(),
{
    if list.len() == 0 || newer(r, list[0]) {
        0
    } else {
        1 + saved_rank(list.skip(1), r)
    }
}

/// Saved requests, the newest first.
pub open spec fn newest_first(list: Seq<SavedView>) -> Seq<SavedView>
    decreases list.len(),
{
    if list.len() == 0 {
        Seq::empty()
    } else {
        let head = newest_first(list.drop_last());
        head.insert(saved_rank(head, list.last()), list.last())
    }
}

/// Whether the newest request stands first.
pub open spec fn is_newest_first(list: Seq<SavedView>) -> bool {
    forall|i: int, j: int| 0 <= i < j < list.len() ==> !newer(#[trigger] list[j], #[trigger] list[i])
}

fn is_newer(a: &SavedRequest, b: &SavedRequest) -> (r: bool)
    ensures
        r == newer(a@, b@),
{
    a.updated_at > b.updated_at || (a.updated_at == b.updated_at && a.id.0 > b.id.0)
}

fn saved_position(list: &Vec<SavedRequest>, r: &SavedRequest) -> (n: usize)
    ensures
        n == saved_rank(views(list@), r@),
        n <= list@.len(),
{
    let ghost all = views(list@);
    let mut i: usize = 0;
    proof {
        assert(all.skip(0) =~= all);
    }
    while i < list.len() && !is_newer(r, &list[i])
        invariant
            i <= list@.len(),
            all == views(list@),
            saved_rank(all, r@) == i + saved_rank(all.skip(i as int), r@),
        decreases list@.len() - i,
    {
        proof {
            assert(all.skip(i as int)[0] == list@[i as int]@);
            assert(all.skip(i as int).skip(1) =~= all.skip(i + 1));
        }
        i = i + 1;
    }
    proof {
        if i < list@.len() {
            assert(all.skip(i as int)[0] == list@[i as int]@);
        }
    }
    i
}

/// Sorts saved requests, the newest first.
pub fn sort_saved(list: &mut Vec<SavedRequest>)
    ensures
        views(final(list)@) == newest_first(views(old(list)@)),
{
    let ghost all = views(list@);
    let mut out: Vec<SavedRequest> = Vec::new();
    proof {
        assert(all.take(0) =~= Seq::<SavedView>::empty());
        assert(views(out@) =~= newest_first(all.take(0)));
        assert(all.skip(0) =~= all);
    }
    let ghost mut done: int = 0;
    while list.len() > 0
        invariant
            0 <= done <= all.len(),
            list@.len() == all.len() - done,
            views(list@) == all.skip(done),
            views(out@) == newest_first(all.take(done)),
        decreases list@.len(),
    {
        let ghost before = views(list@);
        let ghost head = views(out@);
        let r = list.remove(0);
        let at = saved_position(&out, &r);
        let ghost view = r@;
        proof {
            assert(before[0] == view);
            assert(view == all[done]);
        }
        out.insert(at, r);
        proof {
            assert(views(list@) =~= before.remove(0));
            assert(before.remove(0) =~= all.skip(done + 1));
            assert(views(out@) =~= head.insert(at as int, view));
            assert(all.take(done + 1).drop_last() =~= all.take(done));
            assert(all.take(done + 1).last() == view);
            done = done + 1;
        }
    }
    proof {
        assert(all.take(done) =~= all);
    }
    *list = out;
}

proof fn lemma_saved_rank(list: Seq<SavedView>, r: SavedView)
    ensures
        0 <= saved_rank(list, r) <= list.len(),
        forall|j: int| 0 <= j < saved_rank(list, r) ==> !newer(r, #[trigger] list[j]),
        saved_rank(list, r) < list.len() ==> newer(r, list[saved_rank(list, r)]),
    decreases list.len(),
{
    if list.len() > 0 && !newer(r, list[0]) {
        let tail = list.skip(1);
        lemma_saved_rank(tail, r);
        assert forall|j: int| 0 <= j < saved_rank(list, r) implies !newer(
            r,
            #[trigger] list[j],
        ) by {
            if j > 0 {
                assert(tail[j - 1] == list[j]);
            }
        }
    }
}

/// Sorting puts the newest request first, and neither loses nor adds a request.
pub proof fn saved_requests_are_sorted(list: Seq<SavedView>)
    ensures
        newest_first(list).to_multiset() == list.to_multiset(),
        newest_first(list).len() == list.len(),
        is_newest_first(newest_first(list)),
    decreases list.len(),
{
    if list.len() > 0 {
        let front = list.drop_last();
        let r = list.last();
        saved_requests_are_sorted(front);
        let head = newest_first(front);
        lemma_saved_rank(head, r);
        let at = saved_rank(head, r);
        vstd::seq_lib::to_multiset_insert(head, at, r);
        assert(list =~= front.push(r));
        vstd::seq_lib::to_multiset_build(front, r);
        let all = newest_first(list);
        assert forall|i: int, j: int| 0 <= i < j < all.len() implies !newer(
            #[trigger] all[j],
            #[trigger] all[i],
        ) by {
            if j < at {
                assert(!newer(head[j], head[i]));
            } else if j == at {
                assert(!newer(r, head[i]));
            } else if i == at {
                if j - 1 > at {
                    assert(!newer(head[j - 1], head[at]));
                }
            } else if i < at {
                assert(!newer(head[j - 1], head[i]));
            } else {
                assert(!newer(head[j - 1], head[i - 1]));
            }
        }
    } else {
        assert(list =~= Seq::<SavedView>::empty());
    }
}

/// A list that is sorted stays as it is.
pub proof fn sorted_lists_stay(list: Seq<SavedView>)
    requires
        is_newest_first(list),
    ensures
        newest_first(list) == list,
    decreases list.len(),
{
    if list.len() > 0 {
        let front = list.drop_last();
        let r = list.last();
        assert(is_newest_first(front)) by {
            assert forall|i: int, j: int| 0 <= i < j < front.len() implies !newer(
                #[trigger] front[j],
                #[trigger] front[i],
            ) by {
                assert(!newer(list[j], list[i]));
            }
        }
        sorted_lists_stay(front);
        lemma_saved_rank(front, r);
        let at = saved_rank(front, r);
        if at < front.len() {
            assert(!newer(list[list.len() - 1], list[at]));
        }
        assert(front.insert(at, r) =~= list);
    }
}

} // verus!
