//! The workspace: its tabs, its saved requests and its layout.
pub mod order;

use crate::model::{
    first_state, RequestDraft, SavedRequest, SavedView, SplitDirection, StateView, TabDraft,
    TabDraftView, TabId, ThemePref, Ulid, WorkspaceState,
};
use crate::request_tab::{draft_of, fresh_tab, loaded, title_of_tab, RequestTab, TabView};
use crate::saved_filter::{filter_indices, filter_still_valid, kept, FilterView, SavedFilter};
use crate::strings::{trim, trimmed, views};
use crate::templates::{catalogue, find, TemplateView};
use order::{
    active_after, active_after_close, draft_ids, ids_distinct, is_newest_first, newest_first,
    order_drafts, ordered, sort_saved, still_there,
};
use vstd::prelude::*;

verus! {

/// What the left panel shows.
#[derive(Debug, Clone, Copy, PartialEq, Eq, Structural)]
pub enum SidebarSection {
    Saved,
    Templates,
}

impl SidebarSection {
    pub const ALL: [SidebarSection; 2] = [SidebarSection::Saved, SidebarSection::Templates];
}

impl Default for SidebarSection {
    fn default() -> (r: SidebarSection)
        ensures
            r == SidebarSection::Saved,
    {
        SidebarSection::Saved
    }
}

/// What the right drawer shows.
#[derive(Debug, Clone, Copy, PartialEq, Eq, Structural)]
pub enum ToolSection {
    CodeGen,
    ImportCurl,
}

impl ToolSection {
    pub const ALL: [ToolSection; 2] = [ToolSection::CodeGen, ToolSection::ImportCurl];
}

impl Default for ToolSection {
    fn default() -> (r: ToolSection)
        ensures
            r == ToolSection::CodeGen,
    {
        ToolSection::CodeGen
    }
}


#[derive(Debug)]
pub struct Workspace {
    tabs: Vec<RequestTab>,
    active: usize,
    sidebar_collapsed: bool,
    sidebar_section: SidebarSection,
    sidebar_width: Option<u32>,
    theme: ThemePref,
    split: SplitDirection,
    saved: Vec<SavedRequest>,
    saved_filter: SavedFilter,
    open_tool: Option<ToolSection>,
}

#[verifier::ext_equal]
pub struct WorkspaceView {
    pub tabs: Seq<TabView>,
    pub active: int,
    pub sidebar_collapsed: bool,
    pub sidebar_section: SidebarSection,
    /// The bit pattern of the width in logical pixels.
    pub sidebar_width: Option<u32>,
    pub theme: ThemePref,
    pub split: SplitDirection,
    pub saved: Seq<SavedView>,
    pub saved_filter: FilterView,
    pub open_tool: Option<ToolSection>,
}

impl View for Workspace {
    type V = WorkspaceView;

    closed spec fn view(&self) -> WorkspaceView {
        WorkspaceView {
            tabs: views(self.tabs@),
            active: self.active as int,
            sidebar_collapsed: self.sidebar_collapsed,
            sidebar_section: self.sidebar_section,
            sidebar_width: self.sidebar_width,
            theme: self.theme,
            split: self.split,
            saved: views(self.saved@),
            saved_filter: self.saved_filter@,
            open_tool: self.open_tool,
        }
    }
}

impl WorkspaceView {
    /// There is always an active tab, all tabs are split alike, the saved requests
    /// are listed with the newest first, and the filter is of use.
    pub open spec fn wf(self) -> bool {
        &&& 0 <= self.active < self.tabs.len()
        &&& forall|i: int| 0 <= i < self.tabs.len() ==> (#[trigger] self.tabs[i]).split
            == self.split
        &&& is_newest_first(self.saved)
        &&& self.saved_filter is All || kept(self.saved_filter, self.saved).len() > 0
    }

    pub open spec fn active_tab(self) -> TabView {
        self.tabs[self.active]
    }
}

/// The workspace with one more tab, which is then the active one.
pub open spec fn with_tab(w: WorkspaceView, t: TabView) -> WorkspaceView {
    WorkspaceView { tabs: w.tabs.push(t), active: w.tabs.len() as int, ..w }
}

/// A new tab that holds a request which was not saved.
pub open spec fn unsaved_tab(
    id: TabId,
    split: SplitDirection,
    draft: crate::model::DraftView,
) -> TabView {
    TabView { dirty: true, ..loaded(fresh_tab(id, split), draft) }
}

/// The first saved request with the given identifier.
pub open spec fn saved_index(list: Seq<SavedView>, id: Ulid) -> Option<int>
    decreases list.len(),
{
    if list.len() == 0 {
        None
    } else if list[0].id == id {
        Some(0)
    } else {
        match saved_index(list.skip(1), id) {
            Some(i) => Some(i + 1),
            None => None,
        }
    }
}

/// The first tab that shows the saved request with the given identifier.
pub open spec fn tab_showing(tabs: Seq<TabView>, id: Ulid) -> Option<int>
    decreases tabs.len(),
{
    if tabs.len() == 0 {
        None
    } else if tabs[0].saved_id == Some(id) {
        Some(0)
    } else {
        match tab_showing(tabs.skip(1), id) {
            Some(i) => Some(i + 1),
            None => None,
        }
    }
}

/// The first tab with the given identifier.
pub open spec fn tab_with_id(tabs: Seq<TabView>, id: TabId) -> Option<int>
    decreases tabs.len(),
{
    if tabs.len() == 0 {
        None
    } else if tabs[0].id == id {
        Some(0)
    } else {
        match tab_with_id(tabs.skip(1), id) {
            Some(i) => Some(i + 1),
            None => None,
        }
    }
}

fn find_saved(list: &Vec<SavedRequest>, id: Ulid) -> (r: Option<usize>)
    ensures
        match r {
            Some(i) => saved_index(views(list@), id) == Some(i as int) && i < list@.len()
                && list@[i as int].id == id,
            None => saved_index(views(list@), id) is None,
        },
{
    let ghost all = views(list@);
    let mut i: usize = 0;
    proof {
        assert(all.skip(0) =~= all);
    }
    while i < list.len()
        invariant
            i <= list@.len(),
            all == views(list@),
            saved_index(all, id) == (match saved_index(all.skip(i as int), id) {
                Some(k) => Some(k + i),
                None => None,
            }),
        decreases list@.len() - i,
    {
        proof {
            assert(all.skip(i as int)[0] == list@[i as int]@);
            assert(all.skip(i as int).skip(1) =~= all.skip(i + 1));
        }
        if list[i].id == id {
            return Some(i);
        }
        i = i + 1;
    }
    None
}

fn find_tab_showing(tabs: &Vec<RequestTab>, id: Ulid) -> (r: Option<usize>)
    ensures
        match r {
            Some(i) => tab_showing(views(tabs@), id) == Some(i as int) && i < tabs@.len(),
            None => tab_showing(views(tabs@), id) is None,
        },
{
    let ghost all = views(tabs@);
    let mut i: usize = 0;
    proof {
        assert(all.skip(0) =~= all);
    }
    while i < tabs.len()
        invariant
            i <= tabs@.len(),
            all == views(tabs@),
            tab_showing(all, id) == (match tab_showing(all.skip(i as int), id) {
                Some(k) => Some(k + i),
                None => None,
            }),
        decreases tabs@.len() - i,
    {
        proof {
            assert(all.skip(i as int)[0] == tabs@[i as int]@);
            assert(all.skip(i as int).skip(1) =~= all.skip(i + 1));
        }
        match tabs[i].saved_id {
            Some(other) => if other == id {
                return Some(i);
            },
            None => {},
        }
        i = i + 1;
    }
    None
}

fn find_tab(tabs: &Vec<RequestTab>, id: TabId) -> (r: Option<usize>)
    ensures
        match r {
            Some(i) => tab_with_id(views(tabs@), id) == Some(i as int) && i < tabs@.len(),
            None => tab_with_id(views(tabs@), id) is None,
        },
{
    let ghost all = views(tabs@);
    let mut i: usize = 0;
    proof {
        assert(all.skip(0) =~= all);
    }
    while i < tabs.len()
        invariant
            i <= tabs@.len(),
            all == views(tabs@),
            tab_with_id(all, id) == (match tab_with_id(all.skip(i as int), id) {
                Some(k) => Some(k + i),
                None => None,
            }),
        decreases tabs@.len() - i,
    {
        proof {
            assert(all.skip(i as int)[0] == tabs@[i as int]@);
            assert(all.skip(i as int).skip(1) =~= all.skip(i + 1));
        }
        if tabs[i].id == id {
            return Some(i);
        }
        i = i + 1;
    }
    None
}

/// The workspace after the tab at `ix` was closed. Where it was the only one, a
/// new tab takes its place.
pub open spec fn after_close(w: WorkspaceView, ix: int, fresh: TabId) -> WorkspaceView {
    if ix >= w.tabs.len() {
        w
    } else if w.tabs.len() == 1 {
        WorkspaceView { tabs: seq![fresh_tab(fresh, w.split)], active: 0, ..w }
    } else {
        WorkspaceView {
            tabs: w.tabs.remove(ix),
            active: active_after(w.active, ix, w.tabs.len() as int),
            ..w
        }
    }
}

/// A copy of a tab: the same request, not saved.
pub open spec fn copy_of(t: TabView, fresh: TabId, split: SplitDirection) -> TabView {
    TabView { raw_format: t.raw_format, ..unsaved_tab(fresh, split, draft_of(t)) }
}

/// The workspace with a copy of the active tab to its right.
pub open spec fn after_duplicate(w: WorkspaceView, fresh: TabId) -> WorkspaceView {
    WorkspaceView {
        tabs: w.tabs.insert(w.active + 1, copy_of(w.active_tab(), fresh, w.split)),
        active: w.active + 1,
        ..w
    }
}

/// A tab that shows a saved request.
pub open spec fn tab_of_saved(r: SavedView, fresh: TabId, split: SplitDirection) -> TabView {
    TabView {
        saved_id: Some(r.id),
        saved_name: Some(r.name),
        dirty: false,
        ..loaded(fresh_tab(fresh, split), r.draft)
    }
}

/// The workspace after a saved request was opened: the tab that shows it becomes
/// the active one, else a new tab shows it.
pub open spec fn after_open_saved(w: WorkspaceView, id: Ulid, fresh: TabId) -> WorkspaceView {
    match tab_showing(w.tabs, id) {
        Some(i) => WorkspaceView { active: i, ..w },
        None => match saved_index(w.saved, id) {
            Some(k) => with_tab(w, tab_of_saved(w.saved[k], fresh, w.split)),
            None => w,
        },
    }
}

/// Which request a template stands for.
pub open spec fn template_draft(t: TemplateView) -> crate::model::DraftView {
    crate::model::DraftView {
        method: t.method,
        url: t.url,
        headers: t.headers.map_values(
            |p: (Seq<char>, Seq<char>)|
                crate::model::KeyValueView { key: p.0, value: p.1, enabled: true },
        ),
        body: crate::model::BodyKindView::Raw {
            format: crate::model::RawFormat::Json,
            text: t.body,
        },
        ..crate::model::empty_draft()
    }
}

/// Saved requests without those of the given identifier.
pub open spec fn without(list: Seq<SavedView>, id: Ulid) -> Seq<SavedView>
    decreases list.len(),
{
    if list.len() == 0 {
        Seq::empty()
    } else {
        let head = without(list.drop_last(), id);
        if list.last().id == id {
            head
        } else {
            head.push(list.last())
        }
    }
}

/// A tab after the saved request with the given identifier was deleted.
pub open spec fn detached(t: TabView, id: Ulid) -> TabView {
    if t.saved_id == Some(id) {
        TabView { saved_id: None, saved_name: None, dirty: true, ..t }
    } else {
        t
    }
}

/// The filter after the saved requests changed: one that nothing passes gives way
/// to all requests.
pub open spec fn settled_filter(filter: FilterView, saved: Seq<SavedView>) -> FilterView {
    if filter is All || kept(filter, saved).len() > 0 {
        filter
    } else {
        FilterView::All
    }
}

/// The workspace after a saved request was deleted.
pub open spec fn after_delete(w: WorkspaceView, id: Ulid) -> WorkspaceView {
    if saved_index(w.saved, id) is None {
        w
    } else {
        let saved = without(w.saved, id);
        WorkspaceView {
            saved,
            saved_filter: settled_filter(w.saved_filter, saved),
            tabs: w.tabs.map_values(|t: TabView| detached(t, id)),
            ..w
        }
    }
}

/// The saved requests after one was added, or replaced the one with its
/// identifier.
pub open spec fn upserted(list: Seq<SavedView>, r: SavedView) -> Seq<SavedView> {
    newest_first(
        match saved_index(list, r.id) {
            Some(i) => list.update(i, r),
            None => list.push(r),
        },
    )
}

/// The workspace after the tab at `ix` was saved as `r`.
pub open spec fn after_saving(w: WorkspaceView, ix: int, r: SavedView) -> WorkspaceView {
    let saved = upserted(w.saved, r);
    WorkspaceView {
        saved,
        saved_filter: settled_filter(w.saved_filter, saved),
        tabs: w.tabs.update(
            ix,
            TabView {
                saved_id: Some(r.id),
                saved_name: Some(r.name),
                dirty: false,
                ..w.tabs[ix]
            },
        ),
        ..w
    }
}

/// The saved request that a tab becomes under the given name; a blank name gives
/// way to the title.
pub open spec fn saved_as(t: TabView, name: Seq<char>, id: Ulid, now: i64) -> SavedView {
    SavedView {
        id,
        name: if trimmed(name).len() == 0 {
            title_of_tab(t)
        } else {
            trimmed(name)
        },
        draft: draft_of(t),
        group: None,
        source: None,
        created_at: now,
        updated_at: now,
    }
}

/// What saving the active tab leads to.
#[derive(Debug, Clone, Copy, PartialEq, Eq, Structural)]
pub enum SaveOutcome {
    /// It was saved under this identifier.
    Saved(Ulid),
    /// It was never saved: the user is asked for a name.
    NeedsName,
}

/// The request that the active tab is saved as: the one that it shows with its
/// content replaced, or a new one where that is gone.
pub open spec fn resaved(w: WorkspaceView, id: Ulid, fresh: Ulid, now: i64) -> SavedView {
    let t = w.active_tab();
    match saved_index(w.saved, id) {
        Some(k) => SavedView { draft: draft_of(t), updated_at: now, ..w.saved[k] },
        None => saved_as(t, title_of_tab(t), fresh, now),
    }
}

/// Whether 32-bit floats, given by their bits, are no number.
pub open spec fn is_nan(bits: u32) -> bool {
    bits % 0x8000_0000 > 0x7f80_0000
}

/// Whether 32-bit floats, given by their bits, are equal: what is no number equals
/// nothing, and the two zeros are equal.
pub open spec fn same_float(a: u32, b: u32) -> bool {
    !is_nan(a) && !is_nan(b) && (a == b || (a % 0x8000_0000 == 0 && b % 0x8000_0000 == 0))
}

fn floats_equal(a: u32, b: u32) -> (r: bool)
    ensures
        r == same_float(a, b),
{
    let (x, y): (u32, u32) = (a % 0x8000_0000, b % 0x8000_0000);
    x <= 0x7f80_0000 && y <= 0x7f80_0000 && (a == b || (x == 0 && y == 0))
}

impl Workspace {
    pub fn tab_count(&self) -> (r: usize)
        ensures
            r == self@.tabs.len(),
    {
        self.tabs.len()
    }

    pub fn active_index(&self) -> (r: usize)
        ensures
            r == self@.active,
    {
        self.active
    }

    pub fn tab_at(&self, ix: usize) -> (r: &RequestTab)
        requires
            ix < self@.tabs.len(),
        ensures
            r@ == self@.tabs[ix as int],
    {
        &self.tabs[ix]
    }

    /// The tab at `ix`, to be edited.
    pub fn tab_mut(&mut self, ix: usize) -> (r: &mut RequestTab)
        requires
            ix < old(self)@.tabs.len(),
        ensures
            r@ == old(self)@.tabs[ix as int],
            final(self)@ == (WorkspaceView {
                tabs: old(self)@.tabs.update(ix as int, final(r)@),
                ..old(self)@
            }),
    {
        let r = &mut self.tabs[ix];
        r
    }

    pub fn active_tab(&self) -> (r: &RequestTab)
        requires
            self@.wf(),
        ensures
            r@ == self@.active_tab(),
    {
        &self.tabs[self.active]
    }

    pub fn sidebar_collapsed(&self) -> (r: bool)
        ensures
            r == self@.sidebar_collapsed,
    {
        self.sidebar_collapsed
    }

    pub fn sidebar_section(&self) -> (r: SidebarSection)
        ensures
            r == self@.sidebar_section,
    {
        self.sidebar_section
    }

    pub fn sidebar_width(&self) -> (r: Option<u32>)
        ensures
            r == self@.sidebar_width,
    {
        self.sidebar_width
    }

    pub fn theme(&self) -> (r: ThemePref)
        ensures
            r == self@.theme,
    {
        self.theme
    }

    pub fn split(&self) -> (r: SplitDirection)
        ensures
            r == self@.split,
    {
        self.split
    }

    pub fn open_tool(&self) -> (r: Option<ToolSection>)
        ensures
            r == self@.open_tool,
    {
        self.open_tool
    }

    pub fn saved(&self) -> (r: &[SavedRequest])
        ensures
            views(r@) == self@.saved,
    {
        self.saved.as_slice()
    }

    /// Opens a new tab under the identifier `fresh`.
    pub fn new_tab(&mut self, fresh: TabId)
        requires
            old(self)@.wf(),
        ensures
            final(self)@.wf(),
            final(self)@ == with_tab(old(self)@, fresh_tab(fresh, old(self)@.split)),
    {
        let tab = RequestTab::new(fresh, self.split);
        self.push_tab(tab);
    }

    fn push_tab(&mut self, tab: RequestTab)
        requires
            tab@.split == old(self)@.split,
            old(self)@.wf(),
        ensures
            final(self)@.wf(),
            final(self)@ == with_tab(old(self)@, tab@),
    {
        let ghost before = self@;
        let n = self.tabs.len();
        self.tabs.push(tab);
        self.active = n;
        proof {
            assert(self@.tabs =~= before.tabs.push(tab@));
        }
    }

    /// Closes a tab; where it was the only one, a new tab under the identifier
    /// `fresh` takes its place. Gives the identifier of the closed tab.
    pub fn close_tab(&mut self, ix: usize, fresh: TabId) -> (r: Option<TabId>)
        requires
            old(self)@.wf(),
        ensures
            final(self)@.wf(),
            final(self)@ == after_close(old(self)@, ix as int, fresh),
            r == (if ix < old(self)@.tabs.len() {
                Some(old(self)@.tabs[ix as int].id)
            } else {
                None
            }),
    {
        let ghost before = self@;
        let n = self.tabs.len();
        if ix >= n {
            return None;
        }
        let gone = self.tabs.remove(ix);
        proof {
            assert(before.tabs[ix as int] == gone@);
            assert(self@.tabs =~= before.tabs.remove(ix as int));
        }
        if n == 1 {
            let tab = RequestTab::new(fresh, self.split);
            let ghost view = tab@;
            self.tabs.push(tab);
            self.active = 0;
            proof {
                assert(self@.tabs =~= seq![view]);
            }
        } else {
            self.active = active_after_close(self.active, ix, n);
            proof {
                order::closing_keeps_the_active_tab(before.tabs, before.active, ix as int);
            }
        }
        Some(gone.id)
    }

    /// Makes a tab the active one. Tells whether anything changed.
    pub fn activate(&mut self, ix: usize) -> (r: bool)
        requires
            old(self)@.wf(),
        ensures
            final(self)@.wf(),
            r == (ix < old(self)@.tabs.len() && ix != old(self)@.active),
            final(self)@ == (if r {
                WorkspaceView { active: ix as int, ..old(self)@ }
            } else {
                old(self)@
            }),
    {
        if ix < self.tabs.len() && ix != self.active {
            self.active = ix;
            true
        } else {
            false
        }
    }

    /// Opens a copy of the active tab to its right, under the identifier `fresh`.
    pub fn duplicate_active(&mut self, fresh: TabId)
        requires
            old(self)@.wf(),
        ensures
            final(self)@.wf(),
            final(self)@ == after_duplicate(old(self)@, fresh),
    {
        let ghost before = self@;
        let n = self.tabs.len();
        let draft = self.tabs[self.active].draft();
        let raw_format = self.tabs[self.active].raw_format;
        let mut tab = RequestTab::new(fresh, self.split);
        tab.load_draft(&draft);
        tab.raw_format = raw_format;
        tab.mark_dirty();
        let ghost view = tab@;
        self.tabs.insert(self.active + 1, tab);
        self.active = self.active + 1;
        proof {
            assert(view =~= copy_of(before.active_tab(), fresh, before.split));
            assert(self@.tabs =~= before.tabs.insert(before.active + 1, view));
        }
    }

    /// Opens a request that was not saved in a new tab.
    fn open_unsaved(&mut self, draft: &RequestDraft, fresh: TabId)
        requires
            old(self)@.wf(),
        ensures
            final(self)@.wf(),
            final(self)@ == with_tab(old(self)@, unsaved_tab(fresh, old(self)@.split, draft@)),
    {
        let mut tab = RequestTab::new(fresh, self.split);
        tab.load_draft(draft);
        tab.mark_dirty();
        self.push_tab(tab);
    }

    /// Opens a saved request: in the tab that shows it, else in a new one under
    /// the identifier `fresh`.
    pub fn open_saved(&mut self, id: Ulid, fresh: TabId)
        requires
            old(self)@.wf(),
        ensures
            final(self)@.wf(),
            final(self)@ == after_open_saved(old(self)@, id, fresh),
    {
        match find_tab_showing(&self.tabs, id) {
            Some(ix) => {
                self.active = ix;
            },
            None => match find_saved(&self.saved, id) {
                Some(k) => {
                    let mut tab = RequestTab::new(fresh, self.split);
                    let request = &self.saved[k];
                    proof {
                        assert(self@.saved[k as int] == request@);
                    }
                    tab.load_draft(&request.draft);
                    tab.saved_id = Some(id);
                    tab.saved_name = Some(request.name.clone());
                    tab.dirty = false;
                    proof {
                        assert(tab@ =~= tab_of_saved(self@.saved[k as int], fresh, self@.split));
                    }
                    self.push_tab(tab);
                },
                None => {},
            },
        }
    }

    /// Opens a template in a new tab; without effect where there is none of that
    /// identifier.
    pub fn open_template(&mut self, id: &str, fresh: TabId)
        requires
            old(self)@.wf(),
        ensures
            final(self)@.wf(),
            forall|i: int|
                0 <= i < catalogue().len() && (#[trigger] catalogue()[i]).id == id@ ==> final(self)@
                    == with_tab(
                    old(self)@,
                    unsaved_tab(fresh, old(self)@.split, template_draft(catalogue()[i])),
                ),
            (forall|i: int| 0 <= i < catalogue().len() ==> (#[trigger] catalogue()[i]).id != id@)
                ==> final(self)@ == old(self)@,
    {
        match find(id) {
            Some(template) => {
                let draft = template.draft();
                let ghost k = choose|k: int|
                    0 <= k < catalogue().len() && catalogue()[k] == template@;
                self.open_unsaved(&draft, fresh);
                proof {
                    assert(draft@ =~= template_draft(template@));
                    assert forall|i: int|
                        0 <= i < catalogue().len() && (#[trigger] catalogue()[i]).id
                            == id@ implies catalogue()[i] == template@ by {
                        crate::templates::template_ids_are_unique(i, k);
                    }
                }
            },
            None => {},
        }
    }

    /// Opens an imported request in a new tab, and closes the drawer.
    pub fn import_draft(&mut self, draft: &RequestDraft, fresh: TabId)
        requires
            old(self)@.wf(),
        ensures
            final(self)@.wf(),
            final(self)@ == (WorkspaceView {
                open_tool: None,
                ..with_tab(old(self)@, unsaved_tab(fresh, old(self)@.split, draft@))
            }),
    {
        self.open_unsaved(draft, fresh);
        self.open_tool = None;
    }
}

fn remove_saved(list: &mut Vec<SavedRequest>, id: Ulid)
    ensures
        views(final(list)@) == without(views(old(list)@), id),
{
    let ghost all = views(list@);
    let mut out: Vec<SavedRequest> = Vec::new();
    proof {
        assert(all.take(0) =~= Seq::<SavedView>::empty());
        assert(views(out@) =~= without(all.take(0), id));
        assert(all.skip(0) =~= all);
    }
    let ghost mut done: int = 0;
    while list.len() > 0
        invariant
            0 <= done <= all.len(),
            list@.len() == all.len() - done,
            views(list@) == all.skip(done),
            views(out@) == without(all.take(done), id),
        decreases list@.len(),
    {
        let ghost before = views(list@);
        let ghost head = views(out@);
        let r = list.remove(0);
        let ghost view = r@;
        proof {
            assert(before[0] == view);
            assert(view == all[done]);
            assert(all.take(done + 1).drop_last() =~= all.take(done));
            assert(all.take(done + 1).last() == view);
        }
        if r.id != id {
            out.push(r);
            proof {
                assert(views(out@) =~= head.push(view));
            }
        }
        proof {
            assert(views(list@) =~= before.remove(0));
            assert(before.remove(0) =~= all.skip(done + 1));
            done = done + 1;
        }
    }
    proof {
        assert(all.take(done) =~= all);
    }
    *list = out;
}

proof fn lemma_without(list: Seq<SavedView>, id: Ulid)
    ensures
        forall|i: int|
            0 <= i < without(list, id).len() ==> (#[trigger] without(list, id)[i]).id != id
                && list.contains(without(list, id)[i]),
        is_newest_first(list) ==> is_newest_first(without(list, id)),
        without(list, id).len() <= list.len(),
    decreases list.len(),
{
    if list.len() > 0 {
        let front = list.drop_last();
        let r = list.last();
        lemma_without(front, id);
        let head = without(front, id);
        let all = without(list, id);
        assert forall|i: int| 0 <= i < all.len() implies (#[trigger] all[i]).id != id
            && list.contains(all[i]) by {
            if i < head.len() {
                assert(all[i] == head[i]);
                let k = choose|k: int| 0 <= k < front.len() && front[k] == head[i];
                assert(list[k] == all[i]);
            } else {
                assert(list[list.len() - 1] == all[i]);
            }
        }
        if is_newest_first(list) {
            assert(is_newest_first(front)) by {
                assert forall|i: int, j: int| 0 <= i < j < front.len() implies !order::newer(
                    #[trigger] front[j],
                    #[trigger] front[i],
                ) by {
                    assert(!order::newer(list[j], list[i]));
                }
            }
            assert forall|i: int, j: int| 0 <= i < j < all.len() implies !order::newer(
                #[trigger] all[j],
                #[trigger] all[i],
            ) by {
                assert(all[i] == head[i]);
                if j < head.len() {
                    assert(all[j] == head[j]);
                } else {
                    let k = choose|k: int| 0 <= k < front.len() && front[k] == head[i];
                    assert(list[k] == all[i]);
                    assert(list[list.len() - 1] == all[j]);
                }
            }
        }
    }
}

fn detach_tabs(tabs: &mut Vec<RequestTab>, id: Ulid)
    ensures
        views(final(tabs)@) == views(old(tabs)@).map_values(|t: TabView| detached(t, id)),
{
    let ghost before = views(tabs@);
    let n = tabs.len();
    let mut i: usize = 0;
    while i < n
        invariant
            n == tabs@.len(),
            n == before.len(),
            i <= n,
            forall|k: int| 0 <= k < i ==> (#[trigger] views(tabs@)[k]) == detached(before[k], id),
            forall|k: int| i <= k < n ==> (#[trigger] views(tabs@)[k]) == before[k],
        decreases n - i,
    {
        let ghost mid = views(tabs@);
        proof {
            assert(mid[i as int] == before[i as int]);
            assert(mid[i as int] == tabs@[i as int]@);
        }
        let shown = match tabs[i].saved_id {
            Some(other) => other == id,
            None => false,
        };
        if shown {
            let tab = &mut tabs[i];
            tab.saved_id = None;
            tab.saved_name = None;
            tab.dirty = true;
            proof {
                assert(tabs@[i as int]@ =~= detached(before[i as int], id));
                assert(views(tabs@) =~= mid.update(i as int, detached(before[i as int], id)));
            }
        }
        i = i + 1;
    }
    proof {
        assert(views(tabs@) =~= before.map_values(|t: TabView| detached(t, id)));
    }
}

fn set_splits(tabs: &mut Vec<RequestTab>, split: SplitDirection)
    ensures
        views(final(tabs)@) == views(old(tabs)@).map_values(|t: TabView| TabView { split, ..t }),
{
    let ghost before = views(tabs@);
    let n = tabs.len();
    let mut i: usize = 0;
    while i < n
        invariant
            n == tabs@.len(),
            n == before.len(),
            i <= n,
            forall|k: int|
                0 <= k < i ==> (#[trigger] views(tabs@)[k]) == (TabView { split, ..before[k] }),
            forall|k: int| i <= k < n ==> (#[trigger] views(tabs@)[k]) == before[k],
        decreases n - i,
    {
        let ghost mid = views(tabs@);
        proof {
            assert(mid[i as int] == before[i as int]);
            assert(mid[i as int] == tabs@[i as int]@);
        }
        let tab = &mut tabs[i];
        tab.split = split;
        proof {
            assert(tabs@[i as int]@ =~= (TabView { split, ..before[i as int] }));
            assert(views(tabs@) =~= mid.update(i as int, TabView { split, ..before[i as int] }));
        }
        i = i + 1;
    }
    proof {
        assert(views(tabs@) =~= before.map_values(|t: TabView| TabView { split, ..t }));
    }
}

impl Workspace {
    /// Gives way to all requests where nothing passes the filter any more.
    fn settle_filter(&mut self)
        ensures
            final(self)@ == (WorkspaceView {
                saved_filter: settled_filter(old(self)@.saved_filter, old(self)@.saved),
                ..old(self)@
            }),
    {
        if !filter_still_valid(&self.saved_filter, self.saved.as_slice()) {
            self.saved_filter = SavedFilter::All;
        }
    }

    pub fn saved_filter(&self) -> (r: &SavedFilter)
        ensures
            r@ == self@.saved_filter,
    {
        &self.saved_filter
    }

    /// Lists only the requests that pass a filter; one that nothing passes gives
    /// way to all requests.
    pub fn set_saved_filter(&mut self, filter: SavedFilter)
        requires
            old(self)@.wf(),
        ensures
            final(self)@.wf(),
            final(self)@ == (WorkspaceView {
                saved_filter: settled_filter(filter@, old(self)@.saved),
                ..old(self)@
            }),
    {
        self.saved_filter = filter;
        self.settle_filter();
    }

    /// The indices of the saved requests that are listed.
    pub fn filtered_saved_indices(&self) -> (r: Vec<usize>)
        ensures
            r@ == kept(self@.saved_filter, self@.saved),
    {
        filter_indices(&self.saved_filter, self.saved.as_slice())
    }

    /// Deletes a saved request. The tabs that show it keep their content and count
    /// as changed. Tells whether there was such a request.
    pub fn delete_saved(&mut self, id: Ulid) -> (r: bool)
        requires
            old(self)@.wf(),
        ensures
            final(self)@.wf(),
            r == (saved_index(old(self)@.saved, id) is Some),
            final(self)@ == after_delete(old(self)@, id),
    {
        let ghost before = self@;
        match find_saved(&self.saved, id) {
            None => {
                return false;
            },
            Some(_) => {},
        }
        remove_saved(&mut self.saved, id);
        proof {
            lemma_without(before.saved, id);
        }
        detach_tabs(&mut self.tabs, id);
        self.settle_filter();
        proof {
            assert(self@.tabs =~= before.tabs.map_values(|t: TabView| detached(t, id)));
        }
        true
    }

    /// Adds a saved request, or replaces the one with its identifier.
    fn upsert_saved(&mut self, request: SavedRequest)
        ensures
            final(self)@.saved == upserted(old(self)@.saved, request@),
            final(self)@ == (WorkspaceView {
                saved: final(self)@.saved,
                saved_filter: settled_filter(old(self)@.saved_filter, final(self)@.saved),
                ..old(self)@
            }),
            is_newest_first(final(self)@.saved),
    {
        let ghost before = self@.saved;
        let ghost view = request@;
        match find_saved(&self.saved, request.id) {
            Some(k) => {
                self.saved.set(k, request);
                proof {
                    assert(self@.saved =~= before.update(k as int, view));
                }
            },
            None => {
                self.saved.push(request);
                proof {
                    assert(self@.saved =~= before.push(view));
                }
            },
        }
        proof {
            order::saved_requests_are_sorted(self@.saved);
        }
        sort_saved(&mut self.saved);
        self.settle_filter();
    }

    /// Notes that the tab at `ix` was saved as `request`.
    fn finish_saving(&mut self, ix: usize, request: SavedRequest)
        requires
            old(self)@.wf(),
            ix < old(self)@.tabs.len(),
        ensures
            final(self)@.wf(),
            final(self)@ == after_saving(old(self)@, ix as int, request@),
    {
        let ghost before = self@;
        let id = request.id;
        let name = request.name.clone();
        self.upsert_saved(request);
        let ghost mid = self@;
        proof {
            assert(mid.tabs[ix as int] == self.tabs@[ix as int]@);
        }
        let tab = &mut self.tabs[ix];
        tab.saved_id = Some(id);
        tab.saved_name = Some(name);
        tab.dirty = false;
        proof {
            assert(self@.tabs =~= mid.tabs.update(
                ix as int,
                TabView {
                    saved_id: Some(id),
                    saved_name: Some(name@),
                    dirty: false,
                    ..mid.tabs[ix as int]
                },
            ));
        }
    }

    fn saved_from(&self, ix: usize, name: &str, id: Ulid, now: i64) -> (r: SavedRequest)
        requires
            ix < self@.tabs.len(),
        ensures
            r@ == saved_as(self@.tabs[ix as int], name@, id, now),
    {
        let tab = &self.tabs[ix];
        proof {
            assert(self@.tabs[ix as int] == tab@);
        }
        let text = trim(name);
        let title = if text.as_str().unicode_len() == 0 {
            tab.title()
        } else {
            text
        };
        SavedRequest::at(id, now, title.as_str(), tab.draft())
    }

    /// Saves the tab with the identifier `tab` as a new request under the
    /// identifier `id`. Without effect where the tab is gone.
    pub fn finish_save(&mut self, tab: TabId, name: &str, id: Ulid, now: i64) -> (r: Option<Ulid>)
        requires
            old(self)@.wf(),
        ensures
            final(self)@.wf(),
            match tab_with_id(old(self)@.tabs, tab) {
                Some(ix) => r == Some(id) && 0 <= ix < old(self)@.tabs.len() && final(self)@
                    == after_saving(
                    old(self)@,
                    ix,
                    saved_as(old(self)@.tabs[ix], name@, id, now),
                ),
                None => r is None && final(self)@ == old(self)@,
            },
    {
        match find_tab(&self.tabs, tab) {
            Some(ix) => {
                let request = self.saved_from(ix, name, id, now);
                self.finish_saving(ix, request);
                Some(id)
            },
            None => None,
        }
    }

    /// Saves the active tab over the request that it shows. A tab that shows none
    /// needs a name first.
    pub fn save_active(&mut self, fresh: Ulid, now: i64) -> (r: SaveOutcome)
        requires
            old(self)@.wf(),
        ensures
            final(self)@.wf(),
            match old(self)@.active_tab().saved_id {
                Some(id) => r == SaveOutcome::Saved(resaved(old(self)@, id, fresh, now).id)
                    && final(self)@ == after_saving(
                    old(self)@,
                    old(self)@.active,
                    resaved(old(self)@, id, fresh, now),
                ),
                None => r == SaveOutcome::NeedsName && final(self)@ == old(self)@,
            },
    {
        let ix = self.active;
        proof {
            assert(self@.tabs[ix as int] == self.tabs@[ix as int]@);
        }
        match self.tabs[ix].saved_id {
            Some(id) => {
                let request = match find_saved(&self.saved, id) {
                    Some(k) => {
                        let mut r = self.saved[k].clone();
                        proof {
                            assert(self@.saved[k as int] == self.saved@[k as int]@);
                        }
                        r.draft = self.tabs[ix].draft();
                        r.updated_at = now;
                        r
                    },
                    None => {
                        let title = self.tabs[ix].title();
                        self.saved_from(ix, title.as_str(), fresh, now)
                    },
                };
                let saved = request.id;
                self.finish_saving(ix, request);
                SaveOutcome::Saved(saved)
            },
            None => SaveOutcome::NeedsName,
        }
    }

    /// Shows a section of the left panel; where it is shown already, the panel is
    /// collapsed.
    pub fn open_sidebar_section(&mut self, section: SidebarSection)
        requires
            old(self)@.wf(),
        ensures
            final(self)@.wf(),
            final(self)@ == (if !old(self)@.sidebar_collapsed && old(self)@.sidebar_section
                == section {
                WorkspaceView { sidebar_collapsed: true, ..old(self)@ }
            } else {
                WorkspaceView { sidebar_collapsed: false, sidebar_section: section, ..old(self)@ }
            }),
    {
        if !self.sidebar_collapsed && self.sidebar_section == section {
            self.sidebar_collapsed = true;
        } else {
            self.sidebar_section = section;
            self.sidebar_collapsed = false;
        }
    }

    pub fn toggle_sidebar(&mut self)
        requires
            old(self)@.wf(),
        ensures
            final(self)@.wf(),
            final(self)@ == (WorkspaceView {
                sidebar_collapsed: !old(self)@.sidebar_collapsed,
                ..old(self)@
            }),
    {
        self.sidebar_collapsed = !self.sidebar_collapsed;
    }

    /// Notes the width, as the bits of a 32-bit float, to which the panel was dragged.
    /// Tells whether anything changed; a width equal to the one before changes
    /// nothing.
    pub fn resize_sidebar(&mut self, width: u32) -> (r: bool)
        requires
            old(self)@.wf(),
        ensures
            final(self)@.wf(),
            r == !(old(self)@.sidebar_width matches Some(w) && same_float(w, width)),
            final(self)@ == (if r {
                WorkspaceView { sidebar_width: Some(width), ..old(self)@ }
            } else {
                old(self)@
            }),
    {
        if let Some(w) = self.sidebar_width {
            if floats_equal(w, width) {
                return false;
            }
        }
        self.sidebar_width = Some(width);
        true
    }

    /// Tells whether anything changed.
    pub fn set_theme(&mut self, pref: ThemePref) -> (r: bool)
        requires
            old(self)@.wf(),
        ensures
            final(self)@.wf(),
            r == (old(self)@.theme != pref),
            final(self)@ == (WorkspaceView { theme: pref, ..old(self)@ }),
    {
        if self.theme == pref {
            return false;
        }
        self.theme = pref;
        true
    }

    pub fn cycle_theme(&mut self)
        requires
            old(self)@.wf(),
        ensures
            final(self)@.wf(),
            final(self)@ == (WorkspaceView { theme: old(self)@.theme.spec_next(), ..old(self)@ }),
    {
        self.theme = self.theme.next();
    }

    /// Splits all tabs in the given direction. Tells whether anything changed.
    pub fn set_split(&mut self, split: SplitDirection) -> (r: bool)
        requires
            old(self)@.wf(),
        ensures
            final(self)@.wf(),
            r == (old(self)@.split != split),
            final(self)@ == (WorkspaceView {
                split,
                tabs: old(self)@.tabs.map_values(|t: TabView| TabView { split, ..t }),
                ..old(self)@
            }),
    {
        let ghost before = self@;
        if self.split == split {
            proof {
                assert(before.tabs.map_values(|t: TabView| TabView { split, ..t })
                    =~= before.tabs);
            }
            return false;
        }
        self.split = split;
        set_splits(&mut self.tabs, split);
        proof {
            assert(self@.tabs =~= before.tabs.map_values(|t: TabView| TabView { split, ..t }));
        }
        true
    }

    /// Shows a section of the right drawer; where it is shown already, the drawer
    /// is closed.
    pub fn open_tool_section(&mut self, section: ToolSection)
        requires
            old(self)@.wf(),
        ensures
            final(self)@.wf(),
            final(self)@ == (WorkspaceView {
                open_tool: if old(self)@.open_tool == Some(section) {
                    None
                } else {
                    Some(section)
                },
                ..old(self)@
            }),
    {
        let same = match self.open_tool {
            Some(open) => open == section,
            None => false,
        };
        self.open_tool = if same {
            None
        } else {
            Some(section)
        };
    }

    /// What the title bar shows: the title of the active tab.
    pub fn title_bar_subtitle(&self) -> (r: String)
        requires
            self@.wf(),
        ensures
            r@ == title_of_tab(self@.active_tab()),
    {
        self.active_tab().title()
    }

    /// What is kept of the layout between two runs.
    pub fn workspace_state(&self) -> (r: WorkspaceState)
        requires
            self@.wf(),
        ensures
            r@ == kept_state(self@),
    {
        let mut tab_order: Vec<TabId> = Vec::new();
        let mut i: usize = 0;
        while i < self.tabs.len()
            invariant
                i <= self.tabs@.len(),
                tab_order@.len() == i,
                forall|k: int| 0 <= k < i ==> #[trigger] tab_order@[k] == self.tabs@[k].id,
            decreases self.tabs@.len() - i,
        {
            tab_order.push(self.tabs[i].id);
            i = i + 1;
        }
        proof {
            assert(tab_order@ =~= self@.tabs.map_values(|t: TabView| t.id));
        }
        WorkspaceState {
            tab_order,
            active: Some(self.active_tab().id),
            sidebar_width: self.sidebar_width,
            sidebar_collapsed: self.sidebar_collapsed,
            theme: self.theme,
            split: self.split,
        }
    }

    /// What is kept of the tabs between two runs.
    pub fn tab_drafts(&self) -> (r: Vec<TabDraft>)
        ensures
            views(r@) == kept_drafts(self@),
    {
        let mut out: Vec<TabDraft> = Vec::new();
        let mut i: usize = 0;
        while i < self.tabs.len()
            invariant
                i <= self.tabs@.len(),
                out@.len() == i,
                forall|k: int|
                    0 <= k < i ==> (#[trigger] out@[k])@ == kept_draft(self.tabs@[k]@),
            decreases self.tabs@.len() - i,
        {
            out.push(self.tabs[i].tab_draft());
            i = i + 1;
        }
        proof {
            assert(views(out@) =~= self@.tabs.map_values(|t: TabView| kept_draft(t)));
        }
        out
    }
}

/// What is kept of a tab between two runs.
pub open spec fn kept_draft(t: TabView) -> TabDraftView {
    TabDraftView { id: t.id, draft: draft_of(t), saved_id: t.saved_id, dirty: t.dirty }
}

pub open spec fn kept_drafts(w: WorkspaceView) -> Seq<TabDraftView> {
    w.tabs.map_values(|t: TabView| kept_draft(t))
}

/// What is kept of the layout between two runs.
pub open spec fn kept_state(w: WorkspaceView) -> StateView {
    StateView {
        tab_order: w.tabs.map_values(|t: TabView| t.id),
        active: Some(w.active_tab().id),
        sidebar_width: w.sidebar_width,
        sidebar_collapsed: w.sidebar_collapsed,
        theme: w.theme,
        split: w.split,
    }
}

/// The name of the saved request with the given identifier.
pub open spec fn saved_name(list: Seq<SavedView>, id: Option<Ulid>) -> Option<Seq<char>> {
    match id {
        Some(id) => match saved_index(list, id) {
            Some(k) => Some(list[k].name),
            None => None,
        },
        None => None,
    }
}

/// A tab as it is restored. One whose saved request is gone counts as changed.
pub open spec fn restored_tab(
    d: TabDraftView,
    saved: Seq<SavedView>,
    split: SplitDirection,
) -> TabView {
    let name = saved_name(saved, d.saved_id);
    TabView {
        saved_id: if name is Some {
            d.saved_id
        } else {
            None
        },
        saved_name: name,
        dirty: d.dirty || (d.saved_id is Some && name is None),
        ..loaded(fresh_tab(d.id, split), d.draft)
    }
}

/// The index of the active tab as it is restored.
pub open spec fn restored_active(active: Option<TabId>, tabs: Seq<TabView>) -> int {
    match active {
        Some(id) => match tab_with_id(tabs, id) {
            Some(i) => i,
            None => 0,
        },
        None => 0,
    }
}

/// The workspace as it is restored. Where nothing was kept, it has one new tab.
pub open spec fn restored(
    state: StateView,
    drafts: Seq<TabDraftView>,
    requests: Seq<SavedView>,
    fresh: TabId,
) -> WorkspaceView {
    let saved = newest_first(requests);
    let tabs = ordered(state.tab_order, drafts).map_values(
        |d: TabDraftView| restored_tab(d, saved, state.split),
    );
    WorkspaceView {
        tabs: if tabs.len() == 0 {
            seq![fresh_tab(fresh, state.split)]
        } else {
            tabs
        },
        active: if tabs.len() == 0 {
            0
        } else {
            restored_active(state.active, tabs)
        },
        sidebar_collapsed: state.sidebar_collapsed,
        sidebar_section: SidebarSection::Saved,
        sidebar_width: state.sidebar_width,
        theme: state.theme,
        split: state.split,
        saved,
        saved_filter: FilterView::All,
        open_tool: None,
    }
}

proof fn lemma_tab_with_id(tabs: Seq<TabView>, id: TabId)
    ensures
        match tab_with_id(tabs, id) {
            Some(i) => 0 <= i < tabs.len() && tabs[i].id == id && forall|j: int|
                0 <= j < i ==> (#[trigger] tabs[j]).id != id,
            None => forall|j: int| 0 <= j < tabs.len() ==> (#[trigger] tabs[j]).id != id,
        },
    decreases tabs.len(),
{
    if tabs.len() > 0 && tabs[0].id != id {
        let tail = tabs.skip(1);
        lemma_tab_with_id(tail, id);
        match tab_with_id(tail, id) {
            Some(i) => {
                assert(tail[i] == tabs[i + 1]);
                assert forall|j: int| 0 <= j < i + 1 implies (#[trigger] tabs[j]).id != id by {
                    if j > 0 {
                        assert(tail[j - 1] == tabs[j]);
                    }
                }
            },
            None => {
                assert forall|j: int| 0 <= j < tabs.len() implies (#[trigger] tabs[j]).id
                    != id by {
                    if j > 0 {
                        assert(tail[j - 1] == tabs[j]);
                    }
                }
            },
        }
    }
}

fn restore_tab(d: TabDraft, saved: &Vec<SavedRequest>, split: SplitDirection) -> (r: RequestTab)
    ensures
        r@ == restored_tab(d@, views(saved@), split),
{
    let name: Option<String> = match d.saved_id {
        Some(id) => match find_saved(saved, id) {
            Some(k) => {
                proof {
                    assert(views(saved@)[k as int] == saved@[k as int]@);
                }
                Some(saved[k].name.clone())
            },
            None => None,
        },
        None => None,
    };
    let mut tab = RequestTab::new(d.id, split);
    tab.load_draft(&d.draft);
    let still_saved = name.is_some();
    tab.saved_id = if still_saved {
        d.saved_id
    } else {
        None
    };
    tab.saved_name = name;
    tab.dirty = d.dirty || (d.saved_id.is_some() && !still_saved);
    proof {
        assert(tab@ =~= restored_tab(d@, views(saved@), split));
    }
    tab
}

impl Workspace {
    /// An empty workspace, whose tab has the identifier `fresh`.
    pub fn new(fresh: TabId) -> (r: Workspace)
        ensures
            r@.wf(),
            r@ == restored(first_state(), Seq::empty(), Seq::empty(), fresh),
    {
        let drafts: Vec<TabDraft> = Vec::new();
        let requests: Vec<SavedRequest> = Vec::new();
        proof {
            assert(views(drafts@) =~= Seq::<TabDraftView>::empty());
            assert(views(requests@) =~= Seq::<SavedView>::empty());
        }
        Self::restore(None, drafts, requests, fresh)
    }

    /// Restores the workspace from what was kept: the layout, the drafts of the
    /// tabs and the saved requests. Where there is no draft, a new tab under the
    /// identifier `fresh` is opened.
    pub fn restore(
        state: Option<WorkspaceState>,
        drafts: Vec<TabDraft>,
        requests: Vec<SavedRequest>,
        fresh: TabId,
    ) -> (r: Workspace)
        ensures
            r@.wf(),
            r@ == restored(
                match state {
                    Some(s) => s@,
                    None => first_state(),
                },
                views(drafts@),
                views(requests@),
                fresh,
            ),
    {
        let state = match state {
            Some(s) => s,
            None => WorkspaceState::default(),
        };
        let ghost kept_requests = views(requests@);
        let ghost in_order = ordered(state.tab_order@, views(drafts@));
        let mut saved = requests;
        sort_saved(&mut saved);
        proof {
            order::saved_requests_are_sorted(kept_requests);
        }
        let (mut rest, active) = order_drafts(&state, drafts);
        let mut tabs: Vec<RequestTab> = Vec::new();
        let ghost mut done: int = 0;
        proof {
            assert(in_order.skip(0) =~= in_order);
        }
        while rest.len() > 0
            invariant
                0 <= done <= in_order.len(),
                views(rest@) == in_order.skip(done),
                rest@.len() == in_order.len() - done,
                tabs@.len() == done,
                forall|k: int|
                    0 <= k < done ==> (#[trigger] tabs@[k])@ == restored_tab(
                        in_order[k],
                        views(saved@),
                        state.split,
                    ),
            decreases rest@.len(),
        {
            let ghost before = views(rest@);
            let d = rest.remove(0);
            proof {
                assert(before[0] == d@);
                assert(d@ == in_order[done]);
                assert(views(rest@) =~= before.remove(0));
                assert(before.remove(0) =~= in_order.skip(done + 1));
            }
            tabs.push(restore_tab(d, &saved, state.split));
            proof {
                done = done + 1;
            }
        }
        proof {
            assert(views(tabs@) =~= in_order.map_values(
                |d: TabDraftView| restored_tab(d, views(saved@), state.split),
            ));
        }
        let ghost all = views(tabs@);
        let mut at: usize = 0;
        if tabs.len() == 0 {
            tabs.push(RequestTab::new(fresh, state.split));
            proof {
                assert(views(tabs@) =~= seq![fresh_tab(fresh, state.split)]);
            }
        } else {
            match active {
                Some(id) => match find_tab(&tabs, id) {
                    Some(i) => at = i,
                    None => {},
                },
                None => {},
            }
            proof {
                lemma_restored_active(state.active, in_order, all);
            }
        }
        Workspace {
            tabs,
            active: at,
            sidebar_collapsed: state.sidebar_collapsed,
            sidebar_section: SidebarSection::default(),
            sidebar_width: state.sidebar_width,
            theme: state.theme,
            split: state.split,
            saved,
            saved_filter: SavedFilter::All,
            open_tool: None,
        }
    }
}

/// A tab that is not among the drafts is not among the restored tabs.
proof fn lemma_restored_active(
    active: Option<TabId>,
    drafts: Seq<TabDraftView>,
    tabs: Seq<TabView>,
)
    requires
        tabs.len() == drafts.len(),
        forall|k: int| 0 <= k < tabs.len() ==> (#[trigger] tabs[k]).id == drafts[k].id,
    ensures
        restored_active(still_there(active, drafts), tabs) == restored_active(active, tabs),
{
    match active {
        Some(id) => {
            order::lemma_draft_index(drafts, id);
            lemma_tab_with_id(tabs, id);
            match tab_with_id(tabs, id) {
                Some(i) => {
                    assert(tabs[i].id == drafts[i].id);
                },
                None => {},
            }
        },
        None => {},
    }
}

pub open spec fn tab_ids_distinct(tabs: Seq<TabView>) -> bool {
    forall|i: int, j: int| 0 <= i < j < tabs.len() ==> (#[trigger] tabs[i]).id != (
    #[trigger] tabs[j]).id
}

/// Whether `after` shows what `before` showed, with the saved requests given.
pub open spec fn same_tab(before: TabView, after: TabView, saved: Seq<SavedView>) -> bool {
    let name = saved_name(saved, before.saved_id);
    &&& after.id == before.id
    &&& draft_of(after) == draft_of(before)
    &&& name is Some ==> after.saved_id == before.saved_id && after.saved_name == name
        && after.dirty == before.dirty
    &&& name is None ==> after.saved_id is None && after.saved_name is None && after.dirty == (
    before.dirty || before.saved_id is Some)
}

/// What was kept of a workspace restores it: each tab with its request, in its
/// place, the active one active, and the layout.
pub proof fn a_restart_restores_the_workspace(
    w: WorkspaceView,
    found: Seq<TabDraftView>,
    fresh: TabId,
)
    requires
        w.wf(),
        tab_ids_distinct(w.tabs),
        forall|i: int|
            0 <= i < w.tabs.len() ==> ((#[trigger] w.tabs[i]).file_path matches Some(path)
                ==> path.len() > 0),
        found.to_multiset() == kept_drafts(w).to_multiset(),
    ensures
        ({
            let r = restored(kept_state(w), found, w.saved, fresh);
            &&& r.tabs.len() == w.tabs.len()
            &&& forall|i: int|
                0 <= i < w.tabs.len() ==> same_tab(
                    #[trigger] w.tabs[i],
                    r.tabs[i],
                    w.saved,
                )
            &&& r.active == w.active
            &&& r.saved == w.saved
            &&& r.theme == w.theme
            &&& r.split == w.split
            &&& r.sidebar_collapsed == w.sidebar_collapsed
            &&& r.sidebar_width == w.sidebar_width
        }),
{
    let kept_here = kept_drafts(w);
    let r = restored(kept_state(w), found, w.saved, fresh);
    assert(ids_distinct(kept_here)) by {
        assert forall|i: int, j: int| 0 <= i < j < kept_here.len() implies (
        #[trigger] kept_here[i]).id != (#[trigger] kept_here[j]).id by {
            assert(w.tabs[i].id != w.tabs[j].id);
        }
    }
    assert(draft_ids(kept_here) =~= kept_state(w).tab_order);
    order::kept_order_is_restored(kept_here, found);
    order::sorted_lists_stay(w.saved);
    assert forall|i: int| 0 <= i < w.tabs.len() implies same_tab(
        #[trigger] w.tabs[i],
        r.tabs[i],
        w.saved,
    ) by {
        let t = w.tabs[i];
        crate::request_tab::edited_requests_are_editable(t);
        crate::request_tab::loaded_request_is_read_back(fresh_tab(t.id, w.split), draft_of(t));
        assert(r.tabs[i] == restored_tab(kept_draft(t), w.saved, w.split));
    }
    let id = w.active_tab().id;
    lemma_tab_with_id(r.tabs, id);
    assert(same_tab(w.tabs[w.active], r.tabs[w.active], w.saved));
    match tab_with_id(r.tabs, id) {
        Some(i) => {
            assert(same_tab(w.tabs[i], r.tabs[i], w.saved));
            if i < w.active {
                assert(w.tabs[i].id != w.tabs[w.active].id);
            }
        },
        None => {
            assert(r.tabs[w.active].id != id);
        },
    }
}

proof fn lemma_saved_index(list: Seq<SavedView>, id: Ulid)
    ensures
        match saved_index(list, id) {
            Some(i) => 0 <= i < list.len() && list[i].id == id,
            None => forall|j: int| 0 <= j < list.len() ==> (#[trigger] list[j]).id != id,
        },
    decreases list.len(),
{
    if list.len() > 0 && list[0].id != id {
        let tail = list.skip(1);
        lemma_saved_index(tail, id);
        match saved_index(tail, id) {
            Some(i) => {
                assert(tail[i] == list[i + 1]);
            },
            None => {
                assert forall|j: int| 0 <= j < list.len() implies (#[trigger] list[j]).id != id by {
                    if j > 0 {
                        assert(tail[j - 1] == list[j]);
                    }
                }
            },
        }
    }
}

proof fn lemma_tab_showing(tabs: Seq<TabView>, id: Ulid)
    ensures
        match tab_showing(tabs, id) {
            Some(i) => 0 <= i < tabs.len() && tabs[i].saved_id == Some(id),
            None => forall|j: int|
                0 <= j < tabs.len() ==> (#[trigger] tabs[j]).saved_id != Some(id),
        },
    decreases tabs.len(),
{
    if tabs.len() > 0 && tabs[0].saved_id != Some(id) {
        let tail = tabs.skip(1);
        lemma_tab_showing(tail, id);
        match tab_showing(tail, id) {
            Some(i) => {
                assert(tail[i] == tabs[i + 1]);
            },
            None => {
                assert forall|j: int| 0 <= j < tabs.len() implies (#[trigger] tabs[j]).saved_id
                    != Some(id) by {
                    if j > 0 {
                        assert(tail[j - 1] == tabs[j]);
                    }
                }
            },
        }
    }
}

proof fn lemma_tab_showing_push(tabs: Seq<TabView>, t: TabView, id: Ulid)
    requires
        tab_showing(tabs, id) is None,
        t.saved_id == Some(id),
    ensures
        tab_showing(tabs.push(t), id) == Some(tabs.len() as int),
    decreases tabs.len(),
{
    if tabs.len() > 0 {
        lemma_tab_showing_push(tabs.skip(1), t, id);
        assert(tabs.push(t).skip(1) =~= tabs.skip(1).push(t));
    }
}

/// A deleted request is gone: it is not listed and no tab shows it any more. The
/// tabs keep what they hold.
pub proof fn a_deleted_request_is_gone(w: WorkspaceView, id: Ulid)
    requires
        saved_index(w.saved, id) is Some,
    ensures
        saved_index(after_delete(w, id).saved, id) is None,
        tab_showing(after_delete(w, id).tabs, id) is None,
        after_delete(w, id).tabs.len() == w.tabs.len(),
        forall|i: int|
            0 <= i < w.tabs.len() ==> draft_of(#[trigger] after_delete(w, id).tabs[i]) == draft_of(
                w.tabs[i],
            ),
        after_delete(after_delete(w, id), id) == after_delete(w, id),
{
    let after = after_delete(w, id);
    lemma_without(w.saved, id);
    lemma_saved_index(after.saved, id);
    lemma_tab_showing(after.tabs, id);
}

/// Opening a saved request makes a tab that shows it the active one, and opening
/// it again opens no further tab.
pub proof fn opening_a_request_shows_it(w: WorkspaceView, id: Ulid, fresh: TabId, other: TabId)
    requires
        w.wf(),
        saved_index(w.saved, id) is Some,
    ensures
        after_open_saved(w, id, fresh).active_tab().saved_id == Some(id),
        after_open_saved(w, id, fresh).tabs.len() <= w.tabs.len() + 1,
        after_open_saved(after_open_saved(w, id, fresh), id, other) == after_open_saved(
            w,
            id,
            fresh,
        ),
{
    lemma_tab_showing(w.tabs, id);
    lemma_saved_index(w.saved, id);
    if tab_showing(w.tabs, id) is None {
        let k = saved_index(w.saved, id)->0;
        lemma_tab_showing_push(w.tabs, tab_of_saved(w.saved[k], fresh, w.split), id);
    }
}

pub open spec fn saved_ids_distinct(list: Seq<SavedView>) -> bool {
    forall|i: int, j: int| 0 <= i < j < list.len() ==> (#[trigger] list[i]).id != (
    #[trigger] list[j]).id
}

/// What a tab is saved as is found under its identifier.
pub proof fn a_saved_tab_is_found(w: WorkspaceView, ix: int, r: SavedView)
    requires
        0 <= ix < w.tabs.len(),
        saved_ids_distinct(w.saved),
    ensures
        ({
            let after = after_saving(w, ix, r);
            &&& saved_index(after.saved, r.id) matches Some(k) && after.saved[k] == r
            &&& tab_showing(after.tabs, r.id) is Some
            &&& draft_of(after.tabs[ix]) == draft_of(w.tabs[ix])
            &&& !after.tabs[ix].dirty
        }),
{
    let after = after_saving(w, ix, r);
    lemma_saved_index(w.saved, r.id);
    let raw = match saved_index(w.saved, r.id) {
        Some(i) => w.saved.update(i, r),
        None => w.saved.push(r),
    };
    let at = match saved_index(w.saved, r.id) {
        Some(i) => i,
        None => w.saved.len() as int,
    };
    assert(raw[at] == r);
    order::saved_requests_are_sorted(raw);
    vstd::seq_lib::to_multiset_contains(raw, r);
    vstd::seq_lib::to_multiset_contains(after.saved, r);
    assert(raw.contains(r));
    let m = choose|m: int| 0 <= m < after.saved.len() && after.saved[m] == r;
    lemma_saved_index(after.saved, r.id);
    assert(after.saved[m].id == r.id);
    let k = saved_index(after.saved, r.id)->0;
    let e = after.saved[k];
    vstd::seq_lib::to_multiset_contains(after.saved, e);
    vstd::seq_lib::to_multiset_contains(raw, e);
    assert(after.saved.contains(e));
    let n = choose|n: int| 0 <= n < raw.len() && raw[n] == e;
    if n != at {
        assert(raw[n] == w.saved[n]);
        if at < w.saved.len() {
            if n < at {
                assert(w.saved[n].id != w.saved[at].id);
            } else {
                assert(w.saved[at].id != w.saved[n].id);
            }
        }
    }
    lemma_tab_showing(after.tabs, r.id);
    assert(after.tabs[ix].saved_id == Some(r.id));
}

/// A copy holds the same request as its source, stands to its right and is not
/// saved; the source stays as it is.
pub proof fn a_copy_is_independent(w: WorkspaceView, fresh: TabId)
    requires
        w.wf(),
        w.active_tab().file_path matches Some(path) ==> path.len() > 0,
    ensures
        ({
            let after = after_duplicate(w, fresh);
            &&& after.active == w.active + 1
            &&& after.tabs[w.active] == w.active_tab()
            &&& draft_of(after.active_tab()) == draft_of(w.active_tab())
            &&& after.active_tab().saved_id is None
            &&& after.active_tab().dirty
            &&& after.active_tab().id == fresh
        }),
{
    let t = w.active_tab();
    crate::request_tab::edited_requests_are_editable(t);
    crate::request_tab::loaded_request_is_read_back(fresh_tab(fresh, w.split), draft_of(t));
}

} // verus!
