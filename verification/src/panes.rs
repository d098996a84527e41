//! What the panes of a window show of a tab.
use crate::body::tier::ViewTier;
use crate::format::{bytes_text, duration_text, format_bytes, format_duration};
use crate::http::error::RequestError;
use crate::http::sink::{BodyStore, BodyView};
use crate::kv_table::effective;
use crate::labels::{
    content_kind_label, detail_text, error_detail, error_kind, kind_name, kind_text, notice_text,
    tier_notice,
};
use crate::model::{clone_text, Duration, Method, RawFormat, SavedRequest, SplitDirection};
use crate::request_tab::{shown_doc, BodyHint, BodyMode, RequestTab, ResponseSection, TabView};
use crate::response::{ContentKind, ResponseState, ResponseView};
use crate::saved_filter::{
    derive_groups, kept, lists_groups, tally_view, total_members, uncategorized_count,
    without_keys, FilterView, KeyedView, SavedFilter,
};
use crate::strings::{decimal, opt_text, push_decimal, push_text, same_text, views};
use crate::update::{hint_version, UpdateStatus};
use vstd::prelude::*;

verus! {

/// A label with the number of entries behind it, where there are any.
pub open spec fn label_text(name: Seq<char>, n: nat) -> Seq<char> {
    if n > 0 {
        name + " ("@ + decimal(n) + ")"@
    } else {
        name
    }
}

fn label(name: &str, n: u128) -> (r: String)
    ensures
        r@ == label_text(name@, n as nat),
{
    let mut out = name.to_owned();
    if n > 0 {
        push_text(&mut out, " (");
        push_decimal(&mut out, n);
        push_text(&mut out, ")");
    }
    proof {
        assert(out@ =~= label_text(name@, n as nat));
    }
    out
}

/// The labels of the parts of a request.
#[derive(Debug, PartialEq, Eq)]
pub struct RequestLabels {
    pub params: String,
    pub headers: String,
    pub body: String,
}

/// The labels of the parts of a request, with the number of entries that take
/// effect.
pub fn request_labels(tab: &RequestTab) -> (r: RequestLabels)
    ensures
        r.params@ == label_text(
            "Params"@,
            effective(tab@.params.rows) + effective(tab@.path_params.rows),
        ),
        r.headers@ == label_text("Headers"@, effective(tab@.headers.rows)),
        r.body@ == label_text(
            "Body"@,
            if tab@.body_mode == BodyMode::Empty {
                0
            } else {
                1
            },
        ),
{
    let params = tab.params.count() as u128 + tab.path_params.count() as u128;
    let body: u128 = match tab.body_mode {
        BodyMode::Empty => 0,
        _ => 1,
    };
    RequestLabels {
        params: label("Params", params),
        headers: label("Headers", tab.headers.count() as u128),
        body: label("Body", body),
    }
}

/// Which controls the response pane offers.
#[derive(Debug, PartialEq, Eq)]
pub struct ResponseControls {
    pub is_done: bool,
    pub has_pretty: bool,
    /// Whether there is a response, or a failure, that can be dropped.
    pub can_clear: bool,
    pub headers_label: String,
}

/// Which controls the response pane offers.
pub fn response_controls(tab: &RequestTab) -> (r: ResponseControls)
    ensures
        r.is_done == (tab@.response is Done),
        r.can_clear == (tab@.response is Done || tab@.response is Failed),
        r.has_pretty == (tab@.response matches ResponseState::Done { view, .. }
            && view.pretty is Some),
        r.headers_label@ == label_text(
            "Headers"@,
            match tab@.response {
                ResponseState::Done { view, .. } => view.header_rows@.len(),
                _ => 0,
            },
        ),
{
    match &tab.response {
        ResponseState::Done { view, .. } => ResponseControls {
            is_done: true,
            has_pretty: view.has_pretty(),
            can_clear: true,
            headers_label: label("Headers", view.header_rows.len() as u128),
        },
        ResponseState::Failed { .. } => ResponseControls {
            is_done: false,
            has_pretty: false,
            can_clear: true,
            headers_label: label("Headers", 0),
        },
        _ => ResponseControls {
            is_done: false,
            has_pretty: false,
            can_clear: false,
            headers_label: label("Headers", 0),
        },
    }
}

/// What fills the response pane.
#[derive(Debug, PartialEq, Eq)]
pub enum BodyPane {
    /// A hint how to send.
    Idle,
    /// How much has been received, and of how much.
    InFlight { received: String, total: Option<String> },
    Cancelled,
    Failed { kind: &'static str, detail: String },
    Headers,
    /// A summary alone.
    Binary,
    /// A placeholder, under a remark and a summary where the body is on disk.
    EmptyBody { notice: Option<String>, summary: bool },
    Editor,
    /// A list of lines, under a summary where the body is on disk.
    Lines { notice: Option<String>, summary: bool },
}

pub enum PaneView {
    Idle,
    InFlight { received: Seq<char>, total: Option<Seq<char>> },
    Cancelled,
    Failed { kind: Seq<char>, detail: Seq<char> },
    Headers,
    Binary,
    EmptyBody { tier: ViewTier, summary: bool },
    Editor,
    Lines { tier: ViewTier, summary: bool },
}

/// Whether only the head of a body is shown.
pub open spec fn previews(view: ResponseView) -> bool {
    view.raw matches Some(d) && d.tier == ViewTier::Preview
}

/// What fills the response pane of a tab.
pub open spec fn pane_of(t: TabView) -> PaneView {
    match t.response {
        ResponseState::Idle => PaneView::Idle,
        ResponseState::InFlight { received, total } => PaneView::InFlight {
            received: bytes_text(received as nat),
            total: match total {
                Some(n) => Some(bytes_text(n as nat)),
                None => None,
            },
        },
        ResponseState::Failed { error } => if error@ is Cancelled {
            PaneView::Cancelled
        } else {
            PaneView::Failed { kind: kind_text(error@), detail: detail_text(error@) }
        },
        ResponseState::Done { body, view } => if t.response_section == ResponseSection::Headers {
            PaneView::Headers
        } else {
            match shown_doc(view, t.pretty) {
                None => PaneView::Binary,
                Some(d) => if d.doc.table().starts.len() == 0 {
                    PaneView::EmptyBody { tier: d.tier, summary: previews(view) }
                } else if d.tier == ViewTier::Editor {
                    PaneView::Editor
                } else {
                    PaneView::Lines { tier: d.tier, summary: previews(view) }
                },
            }
        },
    }
}

impl BodyPane {
    /// Whether this is the pane `v`.
    pub open spec fn shows(&self, v: PaneView) -> bool {
        match (*self, v) {
            (BodyPane::Idle, PaneView::Idle) => true,
            (
                BodyPane::InFlight { received, total },
                PaneView::InFlight { received: r, total: t },
            ) => received@ == r && opt_text(total) == t,
            (BodyPane::Cancelled, PaneView::Cancelled) => true,
            (BodyPane::Failed { kind, detail }, PaneView::Failed { kind: k, detail: d }) => kind@
                == k && detail@ == d,
            (BodyPane::Headers, PaneView::Headers) => true,
            (BodyPane::Binary, PaneView::Binary) => true,
            (
                BodyPane::EmptyBody { notice, summary },
                PaneView::EmptyBody { tier, summary: s },
            ) => summary == s && opt_text(notice) == notice_text(tier),
            (BodyPane::Editor, PaneView::Editor) => true,
            (BodyPane::Lines { notice, summary }, PaneView::Lines { tier, summary: s }) => summary
                == s && opt_text(notice) == notice_text(tier),
            _ => false,
        }
    }
}

/// What fills the response pane of a tab.
pub fn body_pane(tab: &RequestTab) -> (r: BodyPane)
    ensures
        r.shows(pane_of(tab@)),
{
    match &tab.response {
        ResponseState::Idle => BodyPane::Idle,
        ResponseState::InFlight { received, total } => BodyPane::InFlight {
            received: format_bytes(*received),
            total: match total {
                Some(n) => Some(format_bytes(*n)),
                None => None,
            },
        },
        ResponseState::Failed { error } => match error {
            RequestError::Cancelled => BodyPane::Cancelled,
            _ => BodyPane::Failed { kind: error_kind(error), detail: error_detail(error) },
        },
        ResponseState::Done { view, .. } => match tab.response_section {
            ResponseSection::Headers => BodyPane::Headers,
            ResponseSection::Body => match view.doc(tab.pretty) {
                None => BodyPane::Binary,
                Some(d) => if d.doc.line_count() == 0 {
                    BodyPane::EmptyBody { notice: tier_notice(d.tier), summary: view.is_preview() }
                } else {
                    match d.tier {
                        ViewTier::Editor => BodyPane::Editor,
                        _ => BodyPane::Lines {
                            notice: tier_notice(d.tier),
                            summary: view.is_preview(),
                        },
                    }
                },
            },
        },
    }
}

/// The line above the response.
#[derive(Debug, PartialEq, Eq)]
pub enum StatusLine {
    Idle,
    /// For how long the request has been under way, and how much has arrived.
    InFlight { elapsed: String, received: String },
    Cancelled,
    Failed,
    Done { status: String, duration: String, size: String, kind: ContentKind },
}

pub enum StatusView {
    Idle,
    InFlight { elapsed: Seq<char>, received: Seq<char> },
    Cancelled,
    Failed,
    Done { status: Seq<char>, duration: Seq<char>, size: Seq<char>, kind: ContentKind },
}

impl View for StatusLine {
    type V = StatusView;

    open spec fn view(&self) -> StatusView {
        match *self {
            StatusLine::Idle => StatusView::Idle,
            StatusLine::InFlight { elapsed, received } => StatusView::InFlight {
                elapsed: elapsed@,
                received: received@,
            },
            StatusLine::Cancelled => StatusView::Cancelled,
            StatusLine::Failed => StatusView::Failed,
            StatusLine::Done { status, duration, size, kind } => StatusView::Done {
                status: status@,
                duration: duration@,
                size: size@,
                kind,
            },
        }
    }
}

/// The line above the response of a tab, `elapsed` after its request was sent.
pub open spec fn status_of(t: TabView, elapsed: Duration) -> StatusView {
    match t.response {
        ResponseState::Idle => StatusView::Idle,
        ResponseState::InFlight { received, .. } => StatusView::InFlight {
            elapsed: duration_text(elapsed.total_nanos() as nat),
            received: bytes_text(received as nat),
        },
        ResponseState::Failed { error } => if error@ is Cancelled {
            StatusView::Cancelled
        } else {
            StatusView::Failed
        },
        ResponseState::Done { view, .. } => StatusView::Done {
            status: decimal(view.meta.status as nat) + " "@ + view.meta.status_text@,
            duration: duration_text(view.meta.duration.total_nanos() as nat),
            size: bytes_text(view.meta.body_len as nat),
            kind: view.kind,
        },
    }
}

/// The line above the response of a tab, `elapsed` after its request was sent.
pub fn status_line(tab: &RequestTab, elapsed: Duration) -> (r: StatusLine)
    requires
        elapsed.wf(),
        tab@.response matches ResponseState::Done { view, .. } ==> view.meta.duration.wf(),
    ensures
        r@ == status_of(tab@, elapsed),
{
    match &tab.response {
        ResponseState::Idle => StatusLine::Idle,
        ResponseState::InFlight { received, .. } => StatusLine::InFlight {
            elapsed: format_duration(elapsed),
            received: format_bytes(*received),
        },
        ResponseState::Failed { error } => match error {
            RequestError::Cancelled => StatusLine::Cancelled,
            _ => StatusLine::Failed,
        },
        ResponseState::Done { view, .. } => {
            let mut status = String::new();
            push_decimal(&mut status, view.meta.status as u128);
            push_text(&mut status, " ");
            push_text(&mut status, view.meta.status_text.as_str());
            proof {
                assert(status@ =~= decimal(view.meta.status as nat) + " "@
                    + view.meta.status_text@);
            }
            StatusLine::Done {
                status,
                duration: format_duration(view.meta.duration),
                size: format_bytes(view.meta.body_len),
                kind: view.kind,
            }
        },
    }
}

/// What is said of a body that is not, or not wholly, shown.
#[derive(Debug, PartialEq, Eq)]
pub struct Summary {
    pub size: String,
    /// The content type that the server gave; what the body holds, where it gave none.
    pub kind: String,
    pub duration: String,
    /// The file that holds the body, where it is on disk.
    pub file: Option<String>,
}

/// What is said of a body that is not, or not wholly, shown.
pub fn summary(body: &BodyStore, view: &ResponseView) -> (r: Summary)
    requires
        view.meta.duration.wf(),
    ensures
        r.size@ == bytes_text(view.meta.body_len as nat),
        r.kind@ == (match opt_text(view.meta.content_type) {
            Some(t) => t,
            None => kind_name(view.kind),
        }),
        r.duration@ == duration_text(view.meta.duration.total_nanos() as nat),
        opt_text(r.file) == (match body@ {
            BodyView::Spilled { file, .. } => Some(file),
            BodyView::Memory(_) => None,
        }),
{
    Summary {
        size: format_bytes(view.meta.body_len),
        kind: match &view.meta.content_type {
            Some(t) => t.clone(),
            None => content_kind_label(view.kind).to_owned(),
        },
        duration: format_duration(view.meta.duration),
        file: match body.path() {
            Some(path) => Some(path.to_owned()),
            None => None,
        },
    }
}

/// The editor of the body of a request.
#[derive(Debug, PartialEq, Eq)]
pub enum BodyEditor {
    /// A hint that there is no body.
    Empty,
    Raw { format: RawFormat, hint: Option<BodyHint> },
    FormData { hint: Option<BodyHint> },
    FormUrlEncoded,
    /// A hint that no file has been chosen.
    NoFile,
    File { path: String, size: Option<String> },
}

pub enum BodyEditorView {
    Empty,
    Raw { format: RawFormat, hint: Option<BodyHint> },
    FormData { hint: Option<BodyHint> },
    FormUrlEncoded,
    NoFile,
    File { path: Seq<char>, size: Option<Seq<char>> },
}

impl View for BodyEditor {
    type V = BodyEditorView;

    open spec fn view(&self) -> BodyEditorView {
        match *self {
            BodyEditor::Empty => BodyEditorView::Empty,
            BodyEditor::Raw { format, hint } => BodyEditorView::Raw { format, hint },
            BodyEditor::FormData { hint } => BodyEditorView::FormData { hint },
            BodyEditor::FormUrlEncoded => BodyEditorView::FormUrlEncoded,
            BodyEditor::NoFile => BodyEditorView::NoFile,
            BodyEditor::File { path, size } => BodyEditorView::File {
                path: path@,
                size: opt_text(size),
            },
        }
    }
}

/// The editor of the body of a tab.
pub open spec fn editor_of(t: TabView) -> BodyEditorView {
    match t.body_mode {
        BodyMode::Empty => BodyEditorView::Empty,
        BodyMode::Raw => BodyEditorView::Raw { format: t.raw_format, hint: t.body_hint },
        BodyMode::FormData => BodyEditorView::FormData { hint: t.body_hint },
        BodyMode::FormUrlEncoded => BodyEditorView::FormUrlEncoded,
        BodyMode::File => match t.file_path {
            None => BodyEditorView::NoFile,
            Some(path) => BodyEditorView::File {
                path,
                size: match t.file_size {
                    Some(n) => Some(bytes_text(n as nat)),
                    None => None,
                },
            },
        },
    }
}

/// The editor of the body of a tab.
pub fn body_editor(tab: &RequestTab) -> (r: BodyEditor)
    ensures
        r@ == editor_of(tab@),
{
    match tab.body_mode {
        BodyMode::Empty => BodyEditor::Empty,
        BodyMode::Raw => BodyEditor::Raw { format: tab.raw_format, hint: tab.body_hint },
        BodyMode::FormData => BodyEditor::FormData { hint: tab.body_hint },
        BodyMode::FormUrlEncoded => BodyEditor::FormUrlEncoded,
        BodyMode::File => match &tab.file_path {
            None => BodyEditor::NoFile,
            Some(path) => BodyEditor::File {
                path: path.clone(),
                size: match tab.file_size {
                    Some(n) => Some(format_bytes(n)),
                    None => None,
                },
            },
        },
    }
}

/// One entry of the list of filters.
#[derive(Debug, PartialEq, Eq)]
pub struct FilterEntry {
    pub filter: SavedFilter,
    /// How many requests pass the filter.
    pub count: usize,
    /// Whether the filter is the one in force.
    pub selected: bool,
}

pub struct EntryView {
    pub filter: FilterView,
    pub count: nat,
    pub selected: bool,
}

impl View for FilterEntry {
    type V = EntryView;

    open spec fn view(&self) -> EntryView {
        EntryView { filter: self.filter@, count: self.count as nat, selected: self.selected }
    }
}

/// The entry of a filter, where `current` is in force.
pub open spec fn entry_of(filter: FilterView, count: nat, current: FilterView) -> EntryView {
    EntryView { filter, count, selected: filter == current }
}

/// The entries of the given groups.
pub open spec fn group_entries(s: Seq<(Seq<char>, nat)>, current: FilterView) -> Seq<EntryView> {
    s.map_values(|g: (Seq<char>, nat)| entry_of(FilterView::Group(g.0), g.1, current))
}

/// The entries that are no groups.
pub open spec fn fixed_entries(
    saved: Seq<crate::model::SavedView>,
    current: FilterView,
) -> Seq<EntryView> {
    let loose = kept(FilterView::Uncategorized, saved).len();
    let first = entry_of(FilterView::All, saved.len(), current);
    if loose > 0 {
        seq![first, entry_of(FilterView::Uncategorized, loose, current)]
    } else {
        seq![first]
    }
}

fn same_filter(a: &SavedFilter, b: &SavedFilter) -> (r: bool)
    ensures
        r == (a@ == b@),
{
    match (a, b) {
        (SavedFilter::All, SavedFilter::All) => true,
        (SavedFilter::Uncategorized, SavedFilter::Uncategorized) => true,
        (SavedFilter::Group(x), SavedFilter::Group(y)) => same_text(x.as_str(), y.as_str()),
        _ => false,
    }
}

fn entry(filter: SavedFilter, count: usize, current: &SavedFilter) -> (r: FilterEntry)
    ensures
        r@ == entry_of(filter@, count as nat, current@),
{
    let selected = same_filter(&filter, current);
    FilterEntry { filter, count, selected }
}

/// The filters that are offered while `current` is in force: all requests, those
/// without a group where there are any, and the groups.
pub fn filter_entries(saved: &[SavedRequest], current: &SavedFilter) -> (r: Vec<FilterEntry>)
    ensures
        exists|s: Seq<KeyedView>| #[trigger]
            lists_groups(s, views(saved@)) && views(r@) == fixed_entries(views(saved@), current@)
                + group_entries(without_keys(s), current@),
{
    let mut out: Vec<FilterEntry> = Vec::new();
    out.push(entry(SavedFilter::All, saved.len(), current));
    let loose = uncategorized_count(saved);
    if loose > 0 {
        out.push(entry(SavedFilter::Uncategorized, loose, current));
    }
    let ghost fixed = views(out@);
    proof {
        assert(fixed =~= fixed_entries(views(saved@), current@));
    }
    let groups = derive_groups(saved);
    let ghost s = choose|s: Seq<KeyedView>| #[trigger]
        lists_groups(s, views(saved@)) && tally_view(groups@) == without_keys(s) && total_members(s)
            + kept(FilterView::Uncategorized, views(saved@)).len() == saved@.len();
    let ghost all = group_entries(tally_view(groups@), current@);
    let mut i: usize = 0;
    proof {
        assert(views(out@) =~= fixed + all.take(0));
    }
    while i < groups.len()
        invariant
            i <= groups@.len(),
            all == group_entries(tally_view(groups@), current@),
            views(out@) == fixed + all.take(i as int),
        decreases groups@.len() - i,
    {
        let ghost before = views(out@);
        out.push(entry(SavedFilter::Group(groups[i].0.clone()), groups[i].1, current));
        proof {
            assert(views(out@) =~= before.push(all[i as int]));
            assert(all.take(i + 1) =~= all.take(i as int).push(all[i as int]));
            assert(views(out@) =~= fixed + all.take(i + 1));
        }
        i = i + 1;
    }
    proof {
        assert(all.take(i as int) =~= all);
    }
    out
}

/// What the button beside the URL does.
#[derive(Clone, Copy, Debug, PartialEq, Eq, Structural)]
pub enum UrlAction {
    Send,
    Cancel,
}

/// The bar with the method and the URL.
#[derive(Debug, PartialEq, Eq)]
pub struct UrlBar {
    pub method: Method,
    pub action: UrlAction,
    /// Why the request was refused, where it was.
    pub error: Option<String>,
}

/// The bar with the method and the URL of a tab: while a request is under way it
/// can be cancelled and nothing else can be sent.
pub fn url_bar(tab: &RequestTab) -> (r: UrlBar)
    ensures
        r.method == tab@.method,
        r.action == (if tab@.response is InFlight {
            UrlAction::Cancel
        } else {
            UrlAction::Send
        }),
        opt_text(r.error) == tab@.url_error,
{
    UrlBar {
        method: tab.method,
        action: if tab.response.is_in_flight() {
            UrlAction::Cancel
        } else {
            UrlAction::Send
        },
        error: clone_text(&tab.url_error),
    }
}

/// What the status bar offers about a new version.
#[derive(Debug, PartialEq, Eq)]
pub enum UpdateButton {
    /// To restart into the version that is installed.
    Restart(String),
    /// To see the version that is available.
    Show(String),
}

/// The bar at the bottom of the window.
#[derive(Debug, PartialEq, Eq)]
pub struct StatusBar {
    pub update: Option<UpdateButton>,
    /// Whether the response stands to the right of the request.
    pub right: bool,
    /// Whether the response stands below the request.
    pub below: bool,
}

/// The bar at the bottom of the window. Neither the progress nor the failure of an
/// update shows here, and exactly one of the two directions is marked.
pub fn status_bar(status: &UpdateStatus, split: SplitDirection) -> (r: StatusBar)
    ensures
        match (*status, r.update) {
            (UpdateStatus::Available(v), Some(UpdateButton::Show(shown))) => shown@ == v@,
            (UpdateStatus::Staged(v), Some(UpdateButton::Restart(shown))) => shown@ == v@,
            (UpdateStatus::Available(_), _) => false,
            (UpdateStatus::Staged(_), _) => false,
            (_, update) => update is None,
        },
        r.right == (split == SplitDirection::Horizontal),
        r.below == (split == SplitDirection::Vertical),
        r.right != r.below,
{
    let update = match hint_version(status) {
        Some((version, true)) => Some(UpdateButton::Restart(version.clone())),
        Some((version, false)) => Some(UpdateButton::Show(version.clone())),
        None => None,
    };
    StatusBar {
        update,
        right: split == SplitDirection::Horizontal,
        below: split == SplitDirection::Vertical,
    }
}

} // verus!
