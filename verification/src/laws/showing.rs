//! Laws of what is shown of a response, a failure and an update.
use crate::format::{bytes_text, duration_text, size_in};
use crate::http::error::{error_text, is_background, ErrorView, PREPARE_PANIC_PREFIX};
use crate::labels::{detail_text, error_line, kind_text};
use crate::lists::on_one_line;
use crate::model::Duration;
use crate::panes::{editor_of, label_text, pane_of, status_of, BodyEditorView, PaneView, StatusView};
use crate::request_tab::{search_notice, shown_doc, BodyMode, Notice, ResponseSection, TabView};
use crate::response::{ResponseState, ResponseView};
use crate::strings::decimal;
use crate::update::{status_text, UpdateStatus};
use vstd::prelude::*;

verus! {

/// The line above a response that arrived tells its status, how long it took, how
/// large it is and what it holds; while it is under way, for how long it has been and
/// how much has arrived.
pub proof fn responses_are_summed_up(t: TabView, elapsed: Duration)
    ensures
        t.response is Idle ==> status_of(t, elapsed) is Idle,
        t.response matches ResponseState::InFlight { received, .. } ==> status_of(t, elapsed) == (
        StatusView::InFlight {
            elapsed: duration_text(elapsed.total_nanos() as nat),
            received: bytes_text(received as nat),
        }),
        t.response matches ResponseState::Failed { error } ==> (status_of(t, elapsed) is Cancelled
            <==> error@ is Cancelled) && (status_of(t, elapsed) is Failed <==> !(error@
            is Cancelled)),
        t.response matches ResponseState::Done { view, .. } ==> status_of(t, elapsed) == (
        StatusView::Done {
            status: decimal(view.meta.status as nat) + seq![' '] + view.meta.status_text@,
            duration: duration_text(view.meta.duration.total_nanos() as nat),
            size: bytes_text(view.meta.body_len as nat),
            kind: view.kind,
        }),
{
    reveal_strlit(" ");
    assert(" "@ =~= seq![' ']);
}

/// The indented text is shown where it is asked for and there is one, else the text
/// as it was received.
pub proof fn the_chosen_text_is_shown(view: ResponseView)
    ensures
        view.pretty is Some ==> shown_doc(view, true) == view.pretty,
        view.pretty is None ==> shown_doc(view, true) == view.raw,
        shown_doc(view, false) == view.raw,
{
}

/// A response is shown by its headers where those are chosen, in the editor or as
/// lines by its tier, and by a summary alone where it is binary; before that, how far
/// it has come or why it failed is.
pub proof fn panes_follow_the_response(t: TabView)
    ensures
        t.response is Idle ==> pane_of(t) is Idle,
        t.response is InFlight ==> pane_of(t) is InFlight,
        t.response matches ResponseState::Failed { error } ==> (error@ is Cancelled ==> pane_of(t)
            is Cancelled) && (!(error@ is Cancelled) ==> pane_of(t) == (PaneView::Failed {
            kind: kind_text(error@),
            detail: detail_text(error@),
        })),
        t.response is Done && t.response_section == ResponseSection::Headers ==> pane_of(t)
            is Headers,
        t.response matches ResponseState::Done { view, .. } ==> (t.response_section
            != ResponseSection::Headers ==> match shown_doc(view, t.pretty) {
            None => pane_of(t) is Binary,
            Some(d) => if d.doc.table().starts.len() == 0 {
                pane_of(t) is EmptyBody
            } else if d.tier == crate::body::tier::ViewTier::Editor {
                pane_of(t) is Editor
            } else {
                pane_of(t) is Lines
            },
        }),
{
}

/// A search needs a response whose text is in the editor; otherwise it is told what
/// is missing.
pub proof fn searches_need_the_editor(t: TabView)
    ensures
        !(t.response is Done) ==> search_notice(t) == Some(Notice::NoResponse),
        t.response matches ResponseState::Done { view, .. } ==> (search_notice(t) is None <==> (
        shown_doc(view, t.pretty) matches Some(d) && d.doc.table().starts.len() > 0 && d.tier
            == crate::body::tier::ViewTier::Editor)),
        t.response matches ResponseState::Done { view, .. } ==> (shown_doc(view, t.pretty) is None
            ==> search_notice(t) == Some(Notice::BinarySearch)),
{
}

/// The editor of a body is that of its mode, with the format, the file and its size.
pub proof fn editors_follow_the_mode(t: TabView)
    ensures
        t.body_mode == BodyMode::Empty ==> editor_of(t) is Empty,
        t.body_mode == BodyMode::Raw ==> editor_of(t) == (BodyEditorView::Raw {
            format: t.raw_format,
            hint: t.body_hint,
        }),
        t.body_mode == BodyMode::FormData ==> editor_of(t) == (BodyEditorView::FormData {
            hint: t.body_hint,
        }),
        t.body_mode == BodyMode::FormUrlEncoded ==> editor_of(t) is FormUrlEncoded,
        t.body_mode == BodyMode::File && t.file_path is None ==> editor_of(t) is NoFile,
        t.body_mode == BodyMode::File && t.file_path is Some ==> editor_of(t) is File && editor_of(
            t,
        )->path == t.file_path->0 && (editor_of(t)->size is Some <==> t.file_size is Some) && (
        t.file_size matches Some(n) ==> editor_of(t)->size == Some(bytes_text(n as nat))),
{
}

/// A label carries its count in brackets where there is anything to count.
pub proof fn labels_carry_their_count(name: Seq<char>, n: nat)
    ensures
        label_text(name, 0) == name,
        n > 0 ==> label_text(name, n) == name + seq![' ', '('] + decimal(n) + seq![')'],
{
    reveal_strlit(" (");
    reveal_strlit(")");
    assert(" ("@ =~= seq![' ', '(']);
    assert(")"@ =~= seq![')']);
}

/// A text on one line keeps its length and its characters, but for its line feeds.
pub proof fn line_feeds_are_marked(s: Seq<char>, i: int)
    requires
        0 <= i < s.len(),
    ensures
        on_one_line(s).len() == s.len(),
        s[i] != '\n' ==> on_one_line(s)[i] == s[i],
        on_one_line(s)[i] != '\n',
{
}

/// A failure is told by its kind and its detail; one of the network ends with the
/// message that it came with.
pub proof fn failures_tell_their_detail(e: ErrorView, message: Seq<char>)
    ensures
        detail_text(e).len() == 0 ==> error_line(e) == kind_text(e),
        detail_text(e).len() > 0 ==> error_line(e) == kind_text(e) + seq![':', ' '] + detail_text(
            e,
        ),
        detail_text(ErrorView::Dns(message)) == message,
        detail_text(ErrorView::Tls(message)) == message,
        detail_text(ErrorView::ConnectionRefused(message)) == message,
        detail_text(ErrorView::InvalidUrl(message)) == message,
        detail_text(ErrorView::InvalidHeader(message)) == message,
        detail_text(ErrorView::FileBody(message)) == message,
        detail_text(ErrorView::Spill(message)) == message,
        error_text(ErrorView::Unsupported(message)) == message,
        is_background(ErrorView::Other(PREPARE_PANIC_PREFIX@ + message)),
{
    reveal_strlit(": ");
    assert(": "@ =~= seq![':', ' ']);
    let p = PREPARE_PANIC_PREFIX@;
    assert((p + message).take(p.len() as int) =~= p);
}

/// An update tells which version it is about, and a download how much has arrived and
/// of how much.
pub proof fn updates_tell_their_progress(status: UpdateStatus, current: Seq<char>)
    ensures
        status matches UpdateStatus::Available(v) ==> status_text(status, current) == "v"@ + v@
            + " is available"@,
        status matches UpdateStatus::Staged(v) ==> status_text(status, current) == "v"@ + v@
            + " installed; restart to apply"@,
        status matches UpdateStatus::Errored(e) ==> status_text(status, current)
            == "Update failed: "@ + e@,
        status matches UpdateStatus::Downloading { downloaded, total: Some(n) } ==> status_text(
            status,
            current,
        ) == "Downloading "@ + size_in(downloaded as nat, 1) + " / "@ + size_in(n as nat, 1),
        status is UpToDate ==> status_text(status, current) == "Up to date (v"@ + current + ")"@,
{
}

} // verus!
