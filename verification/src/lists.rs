//! What the lists of a window show, row by row.
use crate::body::text::{clip_line, clipped, line_content, TextDoc, MAX_LINE_CHARS};
use crate::format::{bytes_text, format_bytes};
use crate::model::{Method, SavedRequest, SavedView, Ulid};
use crate::request_tab::{tab_title, title_of, title_of_tab, TabView};
use crate::saved_filter::{
    derive_groups, kept, lists_groups, tally_view, total_members, without_keys, FilterView,
    KeyedView,
};
use crate::strings::{chars_of, decimal, decimal_text, opt_text, same_text, views};
use crate::templates::{all, catalogue, RequestTemplate, TemplateGroup, TemplateView};
use crate::workspace::Workspace;
use vstd::prelude::*;
use vstd::utf8::{decode_utf8, encode_utf8};

verus! {

/// A tab in the tab bar.
#[derive(Debug, PartialEq, Eq)]
pub struct TabLabel {
    pub method: Method,
    pub title: String,
    pub dirty: bool,
}

pub struct TabLabelView {
    pub method: Method,
    pub title: Seq<char>,
    pub dirty: bool,
}

impl View for TabLabel {
    type V = TabLabelView;

    open spec fn view(&self) -> TabLabelView {
        TabLabelView { method: self.method, title: self.title@, dirty: self.dirty }
    }
}

pub open spec fn label_of(t: TabView) -> TabLabelView {
    TabLabelView { method: t.method, title: title_of_tab(t), dirty: t.dirty }
}

/// The tabs in the tab bar, from left to right.
pub fn tab_labels(ws: &Workspace) -> (r: Vec<TabLabel>)
    ensures
        views(r@) == ws@.tabs.map_values(|t: TabView| label_of(t)),
{
    let mut out: Vec<TabLabel> = Vec::new();
    let n = ws.tab_count();
    let mut i: usize = 0;
    while i < n
        invariant
            n == ws@.tabs.len(),
            i <= n,
            out@.len() == i,
            forall|k: int| 0 <= k < i ==> (#[trigger] out@[k])@ == label_of(ws@.tabs[k]),
        decreases n - i,
    {
        let tab = ws.tab_at(i);
        out.push(TabLabel { method: tab.method, title: tab.title(), dirty: tab.dirty });
        i = i + 1;
    }
    proof {
        assert(views(out@) =~= ws@.tabs.map_values(|t: TabView| label_of(t)));
    }
    out
}

/// A saved request in the sidebar.
#[derive(Debug, PartialEq, Eq)]
pub struct SavedRow {
    pub id: Ulid,
    pub method: Method,
    pub name: String,
    /// The title that follows from the URL, below the name.
    pub tail: String,
    /// Whether the active tab shows the request.
    pub selected: bool,
}

pub struct SavedRowView {
    pub id: Ulid,
    pub method: Method,
    pub name: Seq<char>,
    pub tail: Seq<char>,
    pub selected: bool,
}

impl View for SavedRow {
    type V = SavedRowView;

    open spec fn view(&self) -> SavedRowView {
        SavedRowView {
            id: self.id,
            method: self.method,
            name: self.name@,
            tail: self.tail@,
            selected: self.selected,
        }
    }
}

/// The row of a saved request, where the active tab shows the request `active`.
pub open spec fn row_of(r: SavedView, active: Option<Ulid>) -> SavedRowView {
    SavedRowView {
        id: r.id,
        method: r.draft.method,
        name: r.name,
        tail: title_of(r.draft.url),
        selected: active == Some(r.id),
    }
}

/// The saved requests that pass the filter, in their order.
pub fn saved_rows(ws: &Workspace) -> (r: Vec<SavedRow>)
    requires
        ws@.wf(),
    ensures
        views(r@) == kept(ws@.saved_filter, ws@.saved).map_values(
            |i: usize| row_of(ws@.saved[i as int], ws@.active_tab().saved_id),
        ),
{
    let active = ws.active_tab().saved_id;
    let listed = ws.filtered_saved_indices();
    let saved = ws.saved();
    let total = saved.len();
    let mut out: Vec<SavedRow> = Vec::new();
    let mut i: usize = 0;
    proof {
        assert(ws@.saved.len() == total);
        crate::saved_filter::listed_requests_pass(ws@.saved_filter, ws@.saved);
    }
    while i < listed.len()
        invariant
            i <= listed@.len(),
            out@.len() == i,
            ws@.saved == views(saved@),
            active == ws@.active_tab().saved_id,
            forall|k: int| 0 <= k < listed@.len() ==> (#[trigger] listed@[k]) < saved@.len(),
            forall|k: int|
                0 <= k < i ==> (#[trigger] out@[k])@ == row_of(
                    ws@.saved[listed@[k] as int],
                    active,
                ),
        decreases listed@.len() - i,
    {
        let request = &saved[listed[i]];
        let selected = match active {
            Some(id) => id == request.id,
            None => false,
        };
        out.push(
            SavedRow {
                id: request.id,
                method: request.draft.method,
                name: request.name.clone(),
                tail: tab_title(request.draft.url.as_str()),
                selected,
            },
        );
        i = i + 1;
    }
    proof {
        assert(views(out@) =~= kept(ws@.saved_filter, ws@.saved).map_values(
            |i: usize| row_of(ws@.saved[i as int], ws@.active_tab().saved_id),
        ));
    }
    out
}

/// Where a saved request can be moved to.
#[derive(Debug, PartialEq, Eq)]
pub struct MoveMenu {
    /// The groups; not on offer is the one that the request is in.
    pub groups: Vec<(String, bool)>,
    /// Whether the request can be taken out of its group.
    pub clear: bool,
}

pub open spec fn choices(s: Seq<(String, bool)>) -> Seq<(Seq<char>, bool)> {
    s.map_values(|p: (String, bool)| (p.0@, p.1))
}

/// The choices that a list of groups gives a request in the group `current`.
pub open spec fn choices_of(groups: Seq<(Seq<char>, nat)>, current: Option<Seq<char>>) -> Seq<
    (Seq<char>, bool),
> {
    groups.map_values(|g: (Seq<char>, nat)| (g.0, current != Some(g.0)))
}

/// Where the saved request at `ix` can be moved to.
pub fn move_menu(saved: &[SavedRequest], ix: usize) -> (r: MoveMenu)
    requires
        ix < saved@.len(),
    ensures
        r.clear == (views(saved@)[ix as int].group is Some),
        exists|s: Seq<KeyedView>| #[trigger]
            lists_groups(s, views(saved@)) && choices(r.groups@) == choices_of(
                without_keys(s),
                views(saved@)[ix as int].group,
            ),
{
    let groups = derive_groups(saved);
    let ghost s = choose|s: Seq<KeyedView>| #[trigger]
        lists_groups(s, views(saved@)) && tally_view(groups@) == without_keys(s) && total_members(s)
            + kept(FilterView::Uncategorized, views(saved@)).len() == saved@.len();
    let current = &saved[ix].group;
    let ghost group = views(saved@)[ix as int].group;
    let mut out: Vec<(String, bool)> = Vec::new();
    let mut i: usize = 0;
    proof {
        assert(group == opt_text(*current));
    }
    while i < groups.len()
        invariant
            i <= groups@.len(),
            out@.len() == i,
            group == opt_text(*current),
            forall|k: int|
                0 <= k < i ==> (#[trigger] out@[k]).0@ == groups@[k].0@ && out@[k].1 == (group
                    != Some(groups@[k].0@)),
        decreases groups@.len() - i,
    {
        let name = &groups[i].0;
        let here = match current {
            Some(g) => same_text(g.as_str(), name.as_str()),
            None => false,
        };
        out.push((name.clone(), !here));
        i = i + 1;
    }
    proof {
        assert(choices(out@) =~= choices_of(tally_view(groups@), group));
    }
    MoveMenu { groups: out, clear: current.is_some() }
}

/// An entry of the list of templates: the name of a group, or a template of the
/// group named last.
#[derive(Debug, PartialEq, Eq)]
pub enum TemplateItem {
    Group(&'static str),
    Row(RequestTemplate),
}

pub enum TemplateItemView {
    Group(Seq<char>),
    Row(TemplateView),
}

impl View for TemplateItem {
    type V = TemplateItemView;

    open spec fn view(&self) -> TemplateItemView {
        match self {
            TemplateItem::Group(name) => TemplateItemView::Group(name@),
            TemplateItem::Row(t) => TemplateItemView::Row(t@),
        }
    }
}

/// The templates of a group, in their order.
pub open spec fn rows_of_group(list: Seq<TemplateView>, group: TemplateGroup) -> Seq<
    TemplateItemView,
>
    decreases list.len(),
{
    if list.len() == 0 {
        Seq::empty()
    } else {
        let head = rows_of_group(list.drop_last(), group);
        if list.last().group == group {
            head.push(TemplateItemView::Row(list.last()))
        } else {
            head
        }
    }
}

/// The name of a group and its templates.
pub open spec fn group_listing(list: Seq<TemplateView>, group: TemplateGroup) -> Seq<
    TemplateItemView,
> {
    seq![TemplateItemView::Group(group.name())] + rows_of_group(list, group)
}

fn push_group(out: &mut Vec<TemplateItem>, group: TemplateGroup)
    ensures
        views(final(out)@) == views(old(out)@) + group_listing(catalogue(), group),
{
    let ghost before = views(out@);
    out.push(TemplateItem::Group(group.label()));
    let ghost named = views(out@);
    let list = all();
    let mut i: usize = 0;
    proof {
        assert(named =~= before.push(TemplateItemView::Group(group.name())));
        assert(catalogue().take(0) =~= Seq::<TemplateView>::empty());
        assert(named + rows_of_group(catalogue().take(0), group) =~= named);
    }
    while i < list.len()
        invariant
            i <= list@.len(),
            views(list@) == catalogue(),
            views(out@) == named + rows_of_group(catalogue().take(i as int), group),
        decreases list@.len() - i,
    {
        let ghost so_far = views(out@);
        proof {
            assert(catalogue().take(i + 1).drop_last() =~= catalogue().take(i as int));
            assert(catalogue().take(i + 1).last() == list@[i as int]@);
        }
        if list[i].group == group {
            let template = list[i].clone();
            out.push(TemplateItem::Row(template));
            proof {
                assert(template@ == list@[i as int]@);
                assert(views(out@) =~= so_far.push(TemplateItemView::Row(list@[i as int]@)));
                assert(views(out@) =~= named + rows_of_group(catalogue().take(i + 1), group));
            }
        }
        i = i + 1;
    }
    proof {
        assert(catalogue().take(i as int) =~= catalogue());
        assert(views(out@) =~= before + group_listing(catalogue(), group));
    }
}

/// The list of templates, group by group.
pub fn template_items() -> (r: Vec<TemplateItem>)
    ensures
        views(r@) == group_listing(catalogue(), TemplateGroup::OpenAi) + group_listing(
            catalogue(),
            TemplateGroup::Anthropic,
        ),
{
    let mut out: Vec<TemplateItem> = Vec::new();
    push_group(&mut out, TemplateGroup::OpenAi);
    push_group(&mut out, TemplateGroup::Anthropic);
    proof {
        assert(views(out@) =~= group_listing(catalogue(), TemplateGroup::OpenAi) + group_listing(
            catalogue(),
            TemplateGroup::Anthropic,
        ));
    }
    out
}

/// A template is listed exactly under its own group.
pub proof fn templates_are_listed_under_their_group(group: TemplateGroup, i: int)
    requires
        0 <= i < catalogue().len(),
    ensures
        rows_of_group(catalogue(), group).contains(TemplateItemView::Row(catalogue()[i])) <==>
            catalogue()[i].group == group,
{
    lemma_rows_of_group(catalogue(), group);
    if catalogue()[i].group != group {
        assert(!rows_of_group(catalogue(), group).contains(TemplateItemView::Row(catalogue()[i])));
    }
}

proof fn lemma_rows_of_group(list: Seq<TemplateView>, group: TemplateGroup)
    ensures
        forall|k: int|
            0 <= k < rows_of_group(list, group).len() ==> (#[trigger] rows_of_group(
                list,
                group,
            )[k] matches TemplateItemView::Row(t) && t.group == group),
        forall|i: int|
            0 <= i < list.len() && (#[trigger] list[i]).group == group ==> rows_of_group(
                list,
                group,
            ).contains(TemplateItemView::Row(list[i])),
    decreases list.len(),
{
    if list.len() > 0 {
        let front = list.drop_last();
        lemma_rows_of_group(front, group);
        let head = rows_of_group(front, group);
        let rows = rows_of_group(list, group);
        assert forall|i: int|
            0 <= i < list.len() && (#[trigger] list[i]).group == group implies rows.contains(
            TemplateItemView::Row(list[i]),
        ) by {
            if i < front.len() {
                assert(front[i] == list[i]);
                let k = choose|k: int|
                    0 <= k < head.len() && head[k] == TemplateItemView::Row(list[i]);
                assert(rows[k] == head[k]);
            } else {
                assert(rows[head.len() as int] == TemplateItemView::Row(list[i]));
            }
        }
    }
}

/// A line of text as it is listed.
#[derive(Debug, PartialEq, Eq)]
pub struct TextRow {
    /// Counted from one.
    pub number: String,
    pub text: String,
    /// The size of what is cut off, where anything is.
    pub hidden: Option<String>,
}

/// The text of line `ix` of a text, without the terminator.
pub open spec fn line_text(text: Seq<char>, ix: int) -> Seq<char> {
    decode_utf8(line_content(encode_utf8(text), ix))
}

/// The size of what is cut off from a line that is shown, where anything is.
pub open spec fn hidden_size(line: Seq<char>) -> Option<Seq<char>> {
    if line.len() > MAX_LINE_CHARS {
        Some(bytes_text((encode_utf8(line).len() - encode_utf8(clipped(line)).len()) as nat))
    } else {
        None
    }
}

/// A text is at least as long, in bytes, as what it starts with.
proof fn lemma_prefix_bytes(s: Seq<char>, n: int)
    requires
        0 <= n <= s.len(),
    ensures
        encode_utf8(s.take(n)).len() <= encode_utf8(s).len(),
    decreases s.len(),
{
    if n > 0 {
        lemma_prefix_bytes(s.drop_first(), n - 1);
        assert(s.take(n).drop_first() =~= s.drop_first().take(n - 1));
        assert(s.take(n)[0] == s[0]);
    } else {
        assert(s.take(0) =~= Seq::<char>::empty());
    }
}

fn hidden_part(line: &str, shown: &str) -> (r: Option<String>)
    requires
        shown@ == clipped(line@),
    ensures
        opt_text(r) == hidden_size(line@),
{
    if line.unicode_len() > MAX_LINE_CHARS {
        proof {
            lemma_prefix_bytes(line@, MAX_LINE_CHARS as int);
        }
        let hidden = line.as_bytes().len() - shown.as_bytes().len();
        Some(format_bytes(hidden as u64))
    } else {
        None
    }
}

/// Line `ix` of a document as it is listed.
pub fn text_row(doc: &TextDoc, ix: usize) -> (r: TextRow)
    requires
        ix < doc.table().starts.len(),
    ensures
        r.number@ == decimal((ix + 1) as nat),
        r.text@ == clipped(line_text(doc@, ix as int)),
        opt_text(r.hidden) == hidden_size(line_text(doc@, ix as int)),
{
    let line = doc.line(ix);
    proof {
        vstd::utf8::encode_utf8_decode_utf8(line@);
    }
    let shown = clip_line(line);
    TextRow {
        number: decimal_text(ix as u128 + 1),
        text: shown.text.to_owned(),
        hidden: hidden_part(line, shown.text),
    }
}

/// An event of a stream as it is listed.
#[derive(Debug, PartialEq, Eq)]
pub struct EventRow {
    /// Counted from one.
    pub number: String,
    pub event: String,
    pub data: String,
    /// The size of what is cut off, where anything is.
    pub hidden: Option<String>,
}

/// A text on one line: each line feed becomes a mark.
pub open spec fn on_one_line(s: Seq<char>) -> Seq<char> {
    s.map_values(|c: char| if c == '\n' { '⏎' } else { c })
}

fn one_line(s: &str) -> (r: String)
    ensures
        r@ == on_one_line(s@),
{
    let chars = chars_of(s);
    let mut out = String::new();
    let mut i: usize = 0;
    while i < chars.len()
        invariant
            i <= chars@.len(),
            out@ == on_one_line(chars@).take(i as int),
        decreases chars@.len() - i,
    {
        let c = chars[i];
        out.push(if c == '\n' { '⏎' } else { c });
        proof {
            assert(out@ =~= on_one_line(chars@).take(i + 1));
        }
        i = i + 1;
    }
    proof {
        assert(out@ =~= on_one_line(s@));
    }
    out
}

/// The event at `ix` of a stream as it is listed. An event without a name is a
/// message.
pub fn event_row(events: &[(String, String)], ix: usize) -> (r: EventRow)
    requires
        ix < events@.len(),
    ensures
        r.number@ == decimal((ix + 1) as nat),
        r.event@ == (if events@[ix as int].0@.len() == 0 {
            "message"@
        } else {
            events@[ix as int].0@
        }),
        r.data@ == on_one_line(clipped(events@[ix as int].1@)),
        opt_text(r.hidden) == hidden_size(events@[ix as int].1@),
{
    let event = events[ix].0.as_str();
    let data = events[ix].1.as_str();
    let shown = clip_line(data);
    EventRow {
        number: decimal_text(ix as u128 + 1),
        event: if event.unicode_len() == 0 {
            "message".to_owned()
        } else {
            event.to_owned()
        },
        data: one_line(shown.text),
        hidden: hidden_part(data, shown.text),
    }
}

/// By how much an event counts for the width of the list: the size of its data,
/// as far as that can be shown.
pub open spec fn event_width(data: Seq<char>) -> int {
    let n = encode_utf8(data).len() as int;
    if n < MAX_LINE_CHARS * 4 {
        n
    } else {
        MAX_LINE_CHARS * 4
    }
}

fn width_of(data: &str) -> (r: usize)
    ensures
        r == event_width(data@),
{
    let n = data.as_bytes().len();
    if n < MAX_LINE_CHARS * 4 {
        n
    } else {
        MAX_LINE_CHARS * 4
    }
}

/// The widest event of a stream: of several, the last one.
pub fn longest_event(events: &[(String, String)]) -> (r: Option<usize>)
    ensures
        match r {
            None => events@.len() == 0,
            Some(k) => {
                &&& k < events@.len()
                &&& forall|i: int|
                    0 <= i <= k ==> event_width((#[trigger] events@[i]).1@) <= event_width(
                        events@[k as int].1@,
                    )
                &&& forall|i: int|
                    k < i < events@.len() ==> event_width((#[trigger] events@[i]).1@) < event_width(
                        events@[k as int].1@,
                    )
            },
        },
{
    if events.len() == 0 {
        return None;
    }
    let mut best: usize = 0;
    let mut width = width_of(events[0].1.as_str());
    let mut i: usize = 1;
    while i < events.len()
        invariant
            best < i <= events@.len(),
            width == event_width(events@[best as int].1@),
            forall|k: int| 0 <= k <= best ==> event_width((#[trigger] events@[k]).1@) <= width,
            forall|k: int| best < k < i ==> event_width((#[trigger] events@[k]).1@) < width,
        decreases events@.len() - i,
    {
        let w = width_of(events[i].1.as_str());
        if w >= width {
            best = i;
            width = w;
        }
        i = i + 1;
    }
    Some(best)
}

} // verus!
