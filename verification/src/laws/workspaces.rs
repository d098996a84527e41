//! Laws of the workspace: its tabs, its saved requests, and how both are listed.
use crate::lists::row_of;
use crate::model::{
    BodyKindView, DraftView, KeyValueView, RawFormat, SavedView, SplitDirection, StateView,
    TabDraftView, TabId, Ulid,
};
use crate::names::text_less;
use crate::panes::{fixed_entries, group_entries};
use crate::request_tab::{draft_of, fresh_tab, title_of_tab, TabView};
use crate::saved_filter::{
    kept, listed_requests_pass, lists_groups, member_count, passes, unicode_lower, FilterView,
    KeyedView,
};
use crate::strings::trimmed;
use crate::templates::TemplateView;
use crate::workspace::order::{newest_first, no_draft_is_lost, saved_requests_are_sorted};
use crate::workspace::{
    after_close, after_delete, after_duplicate, after_open_saved, after_saving, resaved, restored,
    restored_tab, saved_as, saved_index, settled_filter, tab_showing, template_draft, unsaved_tab,
    upserted, with_tab, without, WorkspaceView,
};
use vstd::prelude::*;

verus! {

/// What is not tabs, saved requests or their filter.
pub open spec fn same_surroundings(a: WorkspaceView, b: WorkspaceView) -> bool {
    &&& a.sidebar_collapsed == b.sidebar_collapsed
    &&& a.sidebar_section == b.sidebar_section
    &&& a.sidebar_width == b.sidebar_width
    &&& a.theme == b.theme
    &&& a.split == b.split
    &&& a.open_tool == b.open_tool
}

/// Closing a tab takes it alone out of the row; the last one gives way to a new and
/// empty tab, and an index beyond the row changes nothing.
pub proof fn closing_takes_one_tab(w: WorkspaceView, ix: int, fresh: TabId, i: int)
    requires
        w.wf(),
        0 <= ix,
    ensures
        same_surroundings(w, after_close(w, ix, fresh)),
        after_close(w, ix, fresh).saved == w.saved,
        after_close(w, ix, fresh).saved_filter == w.saved_filter,
        ix >= w.tabs.len() ==> after_close(w, ix, fresh) == w,
        ix < w.tabs.len() && w.tabs.len() > 1 ==> ({
            let tabs = after_close(w, ix, fresh).tabs;
            &&& tabs.len() == w.tabs.len() - 1
            &&& 0 <= i < ix ==> tabs[i] == w.tabs[i]
            &&& ix <= i < tabs.len() ==> tabs[i] == w.tabs[i + 1]
        }),
        ix < w.tabs.len() && w.tabs.len() == 1 ==> ({
            let r = after_close(w, ix, fresh);
            &&& r.tabs.len() == 1
            &&& r.active == 0
            &&& r.tabs[0].id == fresh
            &&& r.tabs[0].url.len() == 0
            &&& r.tabs[0].saved_id is None
            &&& !r.tabs[0].dirty
            &&& r.tabs[0].split == w.split
        }),
{
}

/// A copy of the active tab stands to its right and is active; it holds the same
/// request, was not saved and counts as changed; all other tabs stay as they are.
pub proof fn a_copy_stands_to_the_right(w: WorkspaceView, fresh: TabId, i: int)
    requires
        w.wf(),
        w.active_tab().file_path matches Some(path) ==> path.len() > 0,
    ensures
        ({
            let r = after_duplicate(w, fresh);
            let copy = r.tabs[w.active + 1];
            &&& same_surroundings(w, r)
            &&& r.saved == w.saved
            &&& r.tabs.len() == w.tabs.len() + 1
            &&& r.active == w.active + 1
            &&& copy.id == fresh
            &&& copy.saved_id is None
            &&& copy.dirty
            &&& draft_of(copy).url == draft_of(w.active_tab()).url
            &&& draft_of(copy).method == draft_of(w.active_tab()).method
            &&& draft_of(copy).params == draft_of(w.active_tab()).params
            &&& draft_of(copy).headers == draft_of(w.active_tab()).headers
            &&& draft_of(copy).path_params == draft_of(w.active_tab()).path_params
            &&& draft_of(copy).pre_ops == draft_of(w.active_tab()).pre_ops
            &&& draft_of(copy).post_ops == draft_of(w.active_tab()).post_ops
            &&& 0 <= i <= w.active ==> r.tabs[i] == w.tabs[i]
            &&& w.active < i < w.tabs.len() ==> r.tabs[i + 1] == w.tabs[i]
        }),
{
    let t = w.active_tab();
    let d = draft_of(t);
    crate::request_tab::edited_requests_are_editable(t);
    crate::request_tab::loaded_request_is_read_back(fresh_tab(fresh, w.split), d);
}

proof fn lemma_showing(tabs: Seq<TabView>, id: Ulid, k: int)
    requires
        0 <= k <= tabs.len(),
        forall|i: int| 0 <= i < k ==> (#[trigger] tabs[i]).saved_id != Some(id),
    ensures
        k < tabs.len() && tabs[k].saved_id == Some(id) ==> tab_showing(tabs, id) == Some(k),
        k == tabs.len() ==> tab_showing(tabs, id) is None,
    decreases k,
{
    if k > 0 {
        assert(tabs[0].saved_id != Some(id));
        let rest = tabs.skip(1);
        assert forall|i: int| 0 <= i < k - 1 implies (#[trigger] rest[i]).saved_id != Some(id) by {
            assert(rest[i] == tabs[i + 1]);
        }
        lemma_showing(rest, id, k - 1);
    }
}

proof fn lemma_saved(list: Seq<SavedView>, id: Ulid, k: int)
    requires
        0 <= k <= list.len(),
        forall|i: int| 0 <= i < k ==> (#[trigger] list[i]).id != id,
    ensures
        k < list.len() && list[k].id == id ==> saved_index(list, id) == Some(k),
        k == list.len() ==> saved_index(list, id) is None,
    decreases k,
{
    if k > 0 {
        assert(list[0].id != id);
        let rest = list.skip(1);
        assert forall|i: int| 0 <= i < k - 1 implies (#[trigger] rest[i]).id != id by {
            assert(rest[i] == list[i + 1]);
        }
        lemma_saved(rest, id, k - 1);
    }
}

/// Opening a saved request goes to the tab that shows it, without touching it;
/// where none does, a new tab at the end shows it, under its name and unchanged;
/// and a request that is gone opens nothing.
pub proof fn opening_goes_to_the_request(
    w: WorkspaceView,
    id: Ulid,
    fresh: TabId,
    t: int,
    s: int,
    i: int,
)
    requires
        0 <= t <= w.tabs.len(),
        forall|j: int| 0 <= j < t ==> (#[trigger] w.tabs[j]).saved_id != Some(id),
        t < w.tabs.len() ==> w.tabs[t].saved_id == Some(id),
        0 <= s <= w.saved.len(),
        forall|j: int| 0 <= j < s ==> (#[trigger] w.saved[j]).id != id,
        s < w.saved.len() ==> w.saved[s].id == id,
    ensures
        ({
            let r = after_open_saved(w, id, fresh);
            &&& same_surroundings(w, r)
            &&& r.saved == w.saved
            &&& 0 <= i < w.tabs.len() ==> r.tabs[i] == w.tabs[i]
            &&& t < w.tabs.len() ==> r.active == t && r.tabs == w.tabs
            &&& t == w.tabs.len() && s == w.saved.len() ==> r == w
            &&& t == w.tabs.len() && s < w.saved.len() ==> {
                let tab = r.tabs[r.active];
                &&& r.tabs.len() == w.tabs.len() + 1
                &&& r.active == w.tabs.len()
                &&& tab.id == fresh
                &&& tab.saved_id == Some(id)
                &&& tab.saved_name == Some(w.saved[s].name)
                &&& !tab.dirty
                &&& tab.url == w.saved[s].draft.url
                &&& tab.method == w.saved[s].draft.method
                &&& crate::request_tab::editable(w.saved[s].draft) ==> draft_of(tab)
                    == w.saved[s].draft
            }
        }),
{
    lemma_showing(w.tabs, id, t);
    lemma_saved(w.saved, id, s);
    if t == w.tabs.len() && s < w.saved.len() {
        let d = w.saved[s].draft;
        if crate::request_tab::editable(d) {
            crate::request_tab::loaded_request_is_read_back(fresh_tab(fresh, w.split), d);
        }
    }
}

/// Taking a request out of the list keeps all others, in their order.
pub proof fn others_stay_listed(list: Seq<SavedView>, r: SavedView, id: Ulid)
    ensures
        without(Seq::empty(), id).len() == 0,
        r.id == id ==> without(list.push(r), id) == without(list, id),
        r.id != id ==> without(list.push(r), id) == without(list, id).push(r),
{
    assert(list.push(r).drop_last() =~= list);
}

/// Deleting a saved request takes it out of the list; a tab that showed it keeps
/// what is edited, but is no longer saved; every other tab stays.
pub proof fn deleting_detaches_the_tabs(w: WorkspaceView, id: Ulid, k: int, i: int)
    requires
        0 <= k < w.saved.len(),
        w.saved[k].id == id,
        0 <= i < w.tabs.len(),
    ensures
        ({
            let r = after_delete(w, id);
            let before = w.tabs[i];
            let after = r.tabs[i];
            &&& same_surroundings(w, r)
            &&& r.active == w.active
            &&& r.saved == without(w.saved, id)
            &&& r.tabs.len() == w.tabs.len()
            &&& before.saved_id != Some(id) ==> after == before
            &&& before.saved_id == Some(id) ==> after.saved_id is None && after.saved_name is None
                && after.dirty && after.url == before.url && after.id == before.id && draft_of(
                after,
            ) == draft_of(before)
        }),
{
    lemma_has_saved(w.saved, id, k);
}

proof fn lemma_has_saved(list: Seq<SavedView>, id: Ulid, k: int)
    requires
        0 <= k < list.len(),
        list[k].id == id,
    ensures
        saved_index(list, id) is Some,
    decreases k,
{
    if k > 0 && list[0].id != id {
        assert(list.skip(1)[k - 1] == list[k]);
        lemma_has_saved(list.skip(1), id, k - 1);
    }
}

/// Saved requests are listed by when they were changed last, the latest first, and
/// those of one moment by their identifiers, the later first.
pub proof fn the_latest_is_listed_first(list: Seq<SavedView>, i: int, j: int)
    requires
        0 <= i < j < newest_first(list).len(),
    ensures
        newest_first(list)[i].updated_at >= newest_first(list)[j].updated_at,
        newest_first(list)[i].updated_at == newest_first(list)[j].updated_at ==> newest_first(
            list,
        )[i].id.0 >= newest_first(list)[j].id.0,
        newest_first(list).to_multiset() == list.to_multiset(),
{
    saved_requests_are_sorted(list);
}

/// Saving puts the request in the list in place of the one with its identifier, or
/// as a new one, and loses no other.
pub proof fn saving_replaces_one_request(list: Seq<SavedView>, r: SavedView, k: int)
    requires
        0 <= k <= list.len(),
        forall|i: int| 0 <= i < k ==> (#[trigger] list[i]).id != r.id,
        k < list.len() ==> list[k].id == r.id,
    ensures
        k < list.len() ==> upserted(list, r).to_multiset() == list.update(k, r).to_multiset(),
        k == list.len() ==> upserted(list, r).to_multiset() == list.push(r).to_multiset(),
{
    lemma_saved(list, r.id, k);
    if k < list.len() {
        saved_requests_are_sorted(list.update(k, r));
    } else {
        saved_requests_are_sorted(list.push(r));
    }
}

/// Saving a tab marks that tab as saved, under the name, and no longer changed;
/// what is edited in it and every other tab stay.
pub proof fn saving_marks_one_tab(w: WorkspaceView, ix: int, r: SavedView, i: int)
    requires
        0 <= ix < w.tabs.len(),
        0 <= i < w.tabs.len(),
    ensures
        ({
            let after = after_saving(w, ix, r);
            &&& same_surroundings(w, after)
            &&& after.active == w.active
            &&& after.saved == upserted(w.saved, r)
            &&& after.tabs.len() == w.tabs.len()
            &&& i != ix ==> after.tabs[i] == w.tabs[i]
            &&& after.tabs[ix].saved_id == Some(r.id)
            &&& after.tabs[ix].saved_name == Some(r.name)
            &&& !after.tabs[ix].dirty
            &&& after.tabs[ix].id == w.tabs[ix].id
            &&& draft_of(after.tabs[ix]) == draft_of(w.tabs[ix])
        }),
{
}

/// A request is saved as it is edited, under the given name without the white space
/// around it, or under the title of its tab where the name is blank.
pub proof fn a_request_is_saved_under_its_name(t: TabView, name: Seq<char>, id: Ulid, now: i64)
    ensures
        ({
            let r = saved_as(t, name, id, now);
            &&& r.id == id
            &&& trimmed(name).len() > 0 ==> r.name == trimmed(name)
            &&& trimmed(name).len() == 0 ==> r.name == title_of_tab(t)
            &&& r.draft == draft_of(t)
            &&& r.group is None
            &&& r.source is None
            &&& r.created_at == now
            &&& r.updated_at == now
        }),
{
}

/// Saving again replaces what was saved and when it was changed; its identifier, its
/// name, its group, its source and when it was made stay.
pub proof fn saving_again_keeps_the_rest(
    w: WorkspaceView,
    id: Ulid,
    fresh: Ulid,
    now: i64,
    k: int,
)
    requires
        0 <= k < w.saved.len(),
        w.saved[k].id == id,
        forall|i: int| 0 <= i < k ==> (#[trigger] w.saved[i]).id != id,
    ensures
        ({
            let r = resaved(w, id, fresh, now);
            &&& r.draft == draft_of(w.active_tab())
            &&& r.updated_at == now
            &&& r.id == id
            &&& r.name == w.saved[k].name
            &&& r.group == w.saved[k].group
            &&& r.source == w.saved[k].source
            &&& r.created_at == w.saved[k].created_at
        }),
{
    lemma_saved(w.saved, id, k);
}

/// A filter passes all requests, those without a group, or those of one group.
pub proof fn filters_pass_their_group(r: SavedView, name: Seq<char>)
    ensures
        passes(FilterView::All, r),
        passes(FilterView::Uncategorized, r) <==> r.group is None,
        passes(FilterView::Group(name), r) <==> r.group == Some(name),
{
}

/// A filter lists the places of the requests that pass it, in order.
pub proof fn filters_list_places_in_order(filter: FilterView, list: Seq<SavedView>, r: SavedView)
    requires
        list.len() < usize::MAX,
    ensures
        kept(filter, Seq::empty()).len() == 0,
        passes(filter, r) ==> kept(filter, list.push(r)) == kept(filter, list).push(
            list.len() as usize,
        ),
        !passes(filter, r) ==> kept(filter, list.push(r)) == kept(filter, list),
{
    assert(list.push(r).drop_last() =~= list);
}

/// A group has one member more with each request of its name, in any place.
pub proof fn members_are_counted(list: Seq<SavedView>, r: SavedView, name: Seq<char>)
    ensures
        member_count(Seq::empty(), name) == 0,
        member_count(list.push(r), name) == member_count(list, name) + if r.group == Some(name) {
            1nat
        } else {
            0nat
        },
{
    assert(list.push(r).drop_last() =~= list);
}

/// A filter that lists nothing gives way to all requests; any other stays.
pub proof fn empty_filters_give_way(filter: FilterView, list: Seq<SavedView>, i: int)
    requires
        list.len() <= usize::MAX,
    ensures
        0 <= i < list.len() && passes(filter, list[i]) ==> settled_filter(filter, list) == filter,
        (forall|k: int| 0 <= k < list.len() ==> !passes(filter, #[trigger] list[k]))
            ==> settled_filter(filter, list) is All,
{
    listed_requests_pass(filter, list);
    if 0 <= i < list.len() && passes(filter, list[i]) {
        assert(kept(filter, list).contains(i as usize));
    }
    if kept(filter, list).len() > 0 {
        let k = kept(filter, list)[0];
        assert(passes(filter, list[k as int]));
    }
}

/// Texts are ordered by their first character that differs, and a text stands before
/// those that it begins.
pub proof fn texts_are_ordered_by_character(
    a: Seq<char>,
    x: char,
    b: Seq<char>,
    y: char,
    c: Seq<char>,
)
    ensures
        x < y ==> text_less(a + seq![x] + b, a + seq![y] + c),
        x > y ==> !text_less(a + seq![x] + b, a + seq![y] + c),
        text_less(a, a + seq![x] + b),
        !text_less(a, a),
    decreases a.len(),
{
    let l = a + seq![x] + b;
    let r = a + seq![y] + c;
    if a.len() > 0 {
        let rest = a.skip(1);
        assert(l.skip(1) =~= rest + seq![x] + b);
        assert(r.skip(1) =~= rest + seq![y] + c);
        assert(l[0] == a[0] && r[0] == a[0]);
        texts_are_ordered_by_character(rest, x, b, y, c);
    } else {
        assert(l[0] == x && r[0] == y);
    }
}

/// A template opens in a new tab at the end: its method, its address, its headers
/// switched on, and its body as JSON, as they are; the tab counts as changed.
pub proof fn templates_open_as_they_are(w: WorkspaceView, t: TemplateView, fresh: TabId, i: int)
    requires
        0 <= i < t.headers.len(),
    ensures
        ({
            let d = template_draft(t);
            let r = with_tab(w, unsaved_tab(fresh, w.split, d));
            let tab = r.tabs[r.active];
            &&& d.method == t.method
            &&& d.url == t.url
            &&& d.headers.len() == t.headers.len()
            &&& d.headers[i] == (KeyValueView {
                key: t.headers[i].0,
                value: t.headers[i].1,
                enabled: true,
            })
            &&& d.body == (BodyKindView::Raw { format: RawFormat::Json, text: t.body })
            &&& d.params.len() == 0 && d.path_params.len() == 0
            &&& d.pre_ops.len() == 0 && d.post_ops.len() == 0
            &&& r.tabs.len() == w.tabs.len() + 1
            &&& r.active == w.tabs.len()
            &&& tab.id == fresh
            &&& tab.dirty
            &&& tab.saved_id is None
            &&& tab.url == t.url
            &&& tab.method == t.method
            &&& draft_of(tab).body == d.body
        }),
{
}

/// A request that is opened in a new tab can be read from it as it was, and the tabs
/// that were there stay.
pub proof fn new_tabs_hold_their_request(w: WorkspaceView, d: DraftView, fresh: TabId, i: int)
    requires
        crate::request_tab::editable(d),
    ensures
        ({
            let r = with_tab(w, unsaved_tab(fresh, w.split, d));
            &&& same_surroundings(w, r)
            &&& r.saved == w.saved
            &&& draft_of(r.tabs[r.active]) == d
            &&& 0 <= i < w.tabs.len() ==> r.tabs[i] == w.tabs[i]
        }),
{
    crate::request_tab::loaded_request_is_read_back(fresh_tab(fresh, w.split), d);
}

/// The filters are offered with their counts: all requests first, then those without
/// a group where there are any, then each group; the one in force is marked.
pub proof fn filters_are_offered_with_counts(
    list: Seq<SavedView>,
    groups: Seq<(Seq<char>, nat)>,
    current: FilterView,
    i: int,
)
    ensures
        ({
            let fixed = fixed_entries(list, current);
            let loose = kept(FilterView::Uncategorized, list).len();
            &&& fixed[0].filter is All
            &&& fixed[0].count == list.len()
            &&& fixed[0].selected == (current is All)
            &&& fixed.len() == if loose > 0 {
                2nat
            } else {
                1nat
            }
            &&& loose > 0 ==> fixed[1].filter is Uncategorized && fixed[1].count == loose
                && fixed[1].selected == (current is Uncategorized)
            &&& group_entries(groups, current).len() == groups.len()
            &&& 0 <= i < groups.len() ==> ({
                let e = group_entries(groups, current)[i];
                &&& e.filter == FilterView::Group(groups[i].0)
                &&& e.count == groups[i].1
                &&& e.selected == (current == FilterView::Group(groups[i].0))
            })
        }),
{
}

/// A saved request is listed by its method, its name and the tail of its address, and
/// is marked where the active tab shows it.
pub proof fn saved_requests_are_listed(r: SavedView, active: Option<Ulid>)
    ensures
        row_of(r, active).id == r.id,
        row_of(r, active).method == r.draft.method,
        row_of(r, active).name == r.name,
        row_of(r, active).tail == crate::request_tab::title_of(r.draft.url),
        row_of(r, active).selected <==> active == Some(r.id),
{
}

/// Groups are listed once each, with the number of their requests, by their names in
/// lower case, and by the names themselves where those are the same; no group of a
/// request is left out.
pub proof fn groups_are_listed_in_order(
    s: Seq<KeyedView>,
    list: Seq<SavedView>,
    i: int,
    j: int,
    k: int,
)
    requires
        lists_groups(s, list),
        list.len() <= usize::MAX,
        0 <= i < j < s.len(),
    ensures
        s[i].name != s[j].name,
        text_less(unicode_lower(s[i].name), unicode_lower(s[j].name)) || (unicode_lower(s[i].name)
            == unicode_lower(s[j].name) && text_less(s[i].name, s[j].name)),
        s[i].count == member_count(list, s[i].name),
        0 <= k < list.len() && list[k].group is Some ==> exists|n: int|
            0 <= n < s.len() && (#[trigger] s[n]).name == list[k].group->0,
{
    assert(crate::saved_filter::keyed_before(s[i], s[j]));
    if 0 <= k < list.len() && list[k].group is Some {
        let name = list[k].group->0;
        listed_requests_pass(FilterView::Group(name), list);
        assert(passes(FilterView::Group(name), list[k]));
        assert(kept(FilterView::Group(name), list).contains(k as usize));
        assert(member_count(list, name) > 0);
    }
}

/// Where nothing was kept, a workspace starts with one new tab; where the active tab
/// is gone, with the first; and the layout is that of the last run.
pub proof fn gaps_are_bridged(
    state: StateView,
    drafts: Seq<TabDraftView>,
    requests: Seq<SavedView>,
    fresh: TabId,
)
    ensures
        ({
            let r = restored(state, drafts, requests, fresh);
            &&& r.theme == state.theme
            &&& r.split == state.split
            &&& r.sidebar_width == state.sidebar_width
            &&& r.sidebar_collapsed == state.sidebar_collapsed
            &&& r.saved_filter is All
            &&& r.open_tool is None
            &&& r.saved.to_multiset() == requests.to_multiset()
            &&& drafts.len() == 0 ==> r.tabs.len() == 1 && r.active == 0 && r.tabs[0].id == fresh
                && r.tabs[0].url.len() == 0
            &&& drafts.len() > 0 ==> r.tabs.len() == drafts.len()
            &&& state.active is None ==> r.active == 0
        }),
{
    saved_requests_are_sorted(requests);
    no_draft_is_lost(state.tab_order, drafts);
}

/// A tab is restored with its request and its identifier; one whose saved request is
/// gone is no longer saved and counts as changed.
pub proof fn tabs_are_restored(
    d: TabDraftView,
    list: Seq<SavedView>,
    split: SplitDirection,
    id: Ulid,
    k: int,
)
    requires
        crate::request_tab::editable(d.draft),
        d.saved_id == Some(id),
        0 <= k <= list.len(),
        forall|i: int| 0 <= i < k ==> (#[trigger] list[i]).id != id,
        k < list.len() ==> list[k].id == id,
    ensures
        ({
            let t = restored_tab(d, list, split);
            &&& t.id == d.id
            &&& t.split == split
            &&& draft_of(t) == d.draft
            &&& k < list.len() ==> t.saved_id == Some(id) && t.saved_name == Some(list[k].name)
                && t.dirty == d.dirty
            &&& k == list.len() ==> t.saved_id is None && t.saved_name is None && t.dirty
        }),
{
    lemma_saved(list, id, k);
    crate::request_tab::loaded_request_is_read_back(fresh_tab(d.id, split), d.draft);
}

} // verus!
