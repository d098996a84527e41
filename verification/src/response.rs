//! A response as it is shown: the texts of its body, each with its tier.
use crate::body::cancel::{
    asked_at, consulted, lemma_asked_on, lemma_consulted, lemma_not_asked, lemma_stopped, Asker,
};
use crate::body::pretty::{check_offsets, pretty, pretty_json_asking};
use crate::body::text::{text_checks, text_of, trim_partial_utf8, without_partial, TextDoc};
use crate::body::tier::{select_tier, tier_for, ViewTier};
use crate::http::error::{ErrorView, RequestError};
use crate::http::sink::{min_int, BodyStore, BodyView, HEAD_BYTES};
use crate::model::ResponseMeta;
use crate::strings::{ascii_lower, chars_of, find_chars, first_index, lower_chars, opt_text};
use crate::url::pairs_view;
use vstd::prelude::*;

verus! {

/// What a body holds.
#[derive(Debug, Clone, Copy, PartialEq, Eq, Structural)]
pub enum ContentKind {
    Json,
    Xml,
    Html,
    Text,
    Binary,
}

impl ContentKind {
    /// Whether the body is shown as text.
    pub fn is_text(self) -> (r: bool)
        ensures
            r == (self != ContentKind::Binary),
    {
        match self {
            ContentKind::Binary => false,
            _ => true,
        }
    }

    /// The language of the read-only editor that shows the body.
    pub fn editor_language(self) -> (r: &'static str)
        ensures
            r@ == language_of(self),
    {
        match self {
            ContentKind::Json => "json",
            ContentKind::Xml => "html",
            ContentKind::Html => "html",
            ContentKind::Text => "text",
            ContentKind::Binary => "text",
        }
    }
}

/// The language in which a body is highlighted.
pub open spec fn language_of(kind: ContentKind) -> Seq<char> {
    match kind {
        ContentKind::Json => "json"@,
        ContentKind::Xml => "html"@,
        ContentKind::Html => "html"@,
        ContentKind::Text => "text"@,
        ContentKind::Binary => "text"@,
    }
}

/// How much of a body is looked at to tell what it holds.
pub const SNIFF_LEN: usize = 1024;

/// Whether a content type mentions a word, without regard to case.
pub open spec fn mentions(content_type: Seq<char>, word: Seq<char>) -> bool {
    first_index(ascii_lower(content_type), word, 0) is Some
}

/// What a body holds, by the content type that the server gives and by the start
/// of the body: a format that is named counts; elsewhere a picture, a sound, a film
/// or anything with a zero byte is binary.
pub open spec fn detected(content_type: Option<Seq<char>>, head: Seq<u8>) -> ContentKind {
    let name = match content_type {
        Some(t) => t,
        None => Seq::empty(),
    };
    if mentions(name, "json"@) {
        ContentKind::Json
    } else if mentions(name, "html"@) {
        ContentKind::Html
    } else if mentions(name, "xml"@) {
        ContentKind::Xml
    } else if mentions(name, "image/"@) || mentions(name, "audio/"@) || mentions(name, "video/"@)
        || head.contains(0u8) {
        ContentKind::Binary
    } else {
        ContentKind::Text
    }
}

fn mentions_word(low: &Vec<char>, word: &str) -> (r: bool)
    requires
        word@.len() > 0,
    ensures
        r == (first_index(low@, word@, 0) is Some),
{
    let w = chars_of(word);
    find_chars(low.as_slice(), w.as_slice(), 0).is_some()
}

fn has_zero(bytes: &[u8]) -> (r: bool)
    ensures
        r == bytes@.contains(0u8),
{
    let mut i: usize = 0;
    while i < bytes.len()
        invariant
            i <= bytes@.len(),
            forall|k: int| 0 <= k < i ==> #[trigger] bytes@[k] != 0,
        decreases bytes@.len() - i,
    {
        if bytes[i] == 0 {
            return true;
        }
        i = i + 1;
    }
    false
}

/// What a body holds, by its content type and its first bytes.
pub fn detect(content_type: Option<&str>, head: &[u8]) -> (r: ContentKind)
    ensures
        r == detected(
            match content_type {
                Some(t) => Some(t@),
                None => None,
            },
            head@,
        ),
{
    let low = match content_type {
        Some(t) => lower_chars(t),
        None => Vec::new(),
    };
    proof {
        reveal_strlit("json");
        reveal_strlit("html");
        reveal_strlit("xml");
        reveal_strlit("image/");
        reveal_strlit("audio/");
        reveal_strlit("video/");
        if content_type is None {
            assert(low@ =~= ascii_lower(Seq::empty()));
        }
    }
    if mentions_word(&low, "json") {
        ContentKind::Json
    } else if mentions_word(&low, "html") {
        ContentKind::Html
    } else if mentions_word(&low, "xml") {
        ContentKind::Xml
    } else if mentions_word(&low, "image/") || mentions_word(&low, "audio/") || mentions_word(
        &low,
        "video/",
    ) || has_zero(head) {
        ContentKind::Binary
    } else {
        ContentKind::Text
    }
}

/// The extension that is suggested for a saved body.
pub open spec fn extension_of(kind: ContentKind) -> Seq<char> {
    match kind {
        ContentKind::Json => "json"@,
        ContentKind::Xml => "xml"@,
        ContentKind::Html => "html"@,
        ContentKind::Text => "txt"@,
        ContentKind::Binary => "bin"@,
    }
}

/// The extension that the save dialog suggests.
pub fn file_extension(kind: ContentKind) -> (r: &'static str)
    ensures
        r@ == extension_of(kind),
{
    match kind {
        ContentKind::Json => "json",
        ContentKind::Xml => "xml",
        ContentKind::Html => "html",
        ContentKind::Text => "txt",
        ContentKind::Binary => "bin",
    }
}

/// A text that can be shown, with its tier.
#[derive(Debug)]
pub struct PreparedDoc {
    pub doc: TextDoc,
    pub tier: ViewTier,
}

pub struct PreparedView {
    pub text: Seq<char>,
    pub tier: ViewTier,
}

impl View for PreparedDoc {
    type V = PreparedView;

    open spec fn view(&self) -> PreparedView {
        PreparedView { text: self.doc@, tier: self.tier }
    }
}

/// How a text is shown: the head of a body on disk as a preview, any other text
/// by its size.
pub open spec fn shown(text: Seq<char>, spilled: bool) -> PreparedView {
    let bytes = vstd::utf8::encode_utf8(text);
    PreparedView {
        text,
        tier: if spilled {
            ViewTier::Preview
        } else {
            tier_for(
                bytes.len() as int,
                crate::body::line_index::line_table(bytes).starts.len() as int,
            )
        },
    }
}

pub open spec fn doc_view(doc: Option<PreparedDoc>) -> Option<PreparedView> {
    match doc {
        Some(d) => Some(d@),
        None => None,
    }
}

/// The text of a body as it was received. A body on disk is shown by its head,
/// without a character that was cut off; binary content is not shown.
pub open spec fn raw_of(kind: ContentKind, body: BodyView) -> Option<PreparedView> {
    if kind == ContentKind::Binary {
        None
    } else {
        match body {
            BodyView::Memory(bytes) => Some(shown(text_of(bytes), false)),
            BodyView::Spilled { head, .. } => Some(
                shown(
                    text_of(
                        without_partial(head.take(min_int(head.len() as int, HEAD_BYTES as int))),
                    ),
                    true,
                ),
            ),
        }
    }
}

/// The indented text of a body: only JSON that is in memory has one.
pub open spec fn pretty_of(kind: ContentKind, body: BodyView) -> Option<PreparedView> {
    match body {
        BodyView::Memory(bytes) => if kind == ContentKind::Json {
            Some(shown(text_of(pretty(bytes)), false))
        } else {
            None
        },
        BodyView::Spilled { .. } => None,
    }
}

/// Where the indented text of a body in memory asks whether to go on.
pub open spec fn pretty_questions(kind: ContentKind, bytes: Seq<u8>) -> Seq<int> {
    if kind == ContentKind::Json {
        check_offsets(bytes.len()) + text_checks(text_of(pretty(bytes)))
    } else {
        Seq::empty()
    }
}

/// Where the preparation of a body asks whether to go on, each place counted from
/// the start of its step. Binary content is prepared without asking.
pub open spec fn questions(kind: ContentKind, body: BodyView) -> Seq<int> {
    if kind == ContentKind::Binary {
        Seq::empty()
    } else {
        match body {
            BodyView::Memory(bytes) => pretty_questions(kind, bytes) + text_checks(text_of(bytes)),
            BodyView::Spilled { head, .. } => text_checks(
                text_of(
                    without_partial(head.take(min_int(head.len() as int, HEAD_BYTES as int))),
                ),
            ),
        }
    }
}

impl PreparedDoc {
    pub fn new(doc: TextDoc, spilled: bool) -> (r: PreparedDoc)
        ensures
            r@ == shown(doc@, spilled),
    {
        let tier = if spilled {
            ViewTier::Preview
        } else {
            select_tier(doc.len_bytes(), doc.line_count())
        };
        PreparedDoc { doc, tier }
    }
}

/// What a response holds, by its content type and the first [`SNIFF_LEN`] bytes of
/// its body that are at hand.
pub open spec fn kind_in(meta: ResponseMeta, body: BodyView) -> ContentKind {
    let bytes = body.available();
    detected(
        opt_text(meta.content_type),
        bytes.take(min_int(bytes.len() as int, SNIFF_LEN as int)),
    )
}

fn detect_in(meta: &ResponseMeta, body: &BodyStore) -> (r: ContentKind)
    ensures
        r == kind_in(*meta, body@),
{
    let content_type = match &meta.content_type {
        Some(t) => Some(t.as_str()),
        None => None,
    };
    detect(content_type, body.head(SNIFF_LEN))
}

/// A response with everything that showing it needs.
#[derive(Debug)]
pub struct ResponseView {
    pub meta: ResponseMeta,
    pub kind: ContentKind,
    /// The text as received; `None` for binary content.
    pub raw: Option<PreparedDoc>,
    /// The indented text; `None` for anything but JSON in memory.
    pub pretty: Option<PreparedDoc>,
    pub header_rows: Vec<(String, String)>,
}

impl ResponseView {
    /// Whether this view shows the given response.
    pub open spec fn shows(&self, meta: ResponseMeta, kind: ContentKind, body: BodyView) -> bool {
        &&& self.meta == meta
        &&& self.kind == kind
        &&& doc_view(self.raw) == raw_of(kind, body)
        &&& doc_view(self.pretty) == pretty_of(kind, body)
        &&& pairs_view(self.header_rows@) == pairs_view(meta.headers@)
    }

    /// Prepares a response. What it holds is told by its content type and the start
    /// of its body.
    pub fn prepare(meta: ResponseMeta, body: &BodyStore) -> (r: ResponseView)
        ensures
            r.shows(meta, kind_in(meta, body@), body@),
    {
        let never = || -> (r: bool)
            ensures
                !r,
            { false };
        let header_rows = copy_pairs(&meta.headers);
        let kind = detect_in(&meta, body);
        let mut ask = Asker::new(never);
        match prepare_docs(kind, body, &mut ask) {
            Some((raw, pretty)) => ResponseView { meta, kind, raw, pretty, header_rows },
            None => {
                proof {
                    assert(false);
                }
                ResponseView { meta, kind, raw: None, pretty: None, header_rows }
            },
        }
    }

    /// Prepares a response, giving up when `should_cancel` answers `true`. The
    /// callback is asked at the start of each step and within the long ones, and not
    /// any more once it has answered `true`; for binary content it is not asked.
    pub fn prepare_cancellable<F: FnMut() -> bool>(
        meta: ResponseMeta,
        body: &BodyStore,
        should_cancel: F,
    ) -> (r: Option<ResponseView>)
        requires
            call_requires(should_cancel, ()),
        ensures
            r matches Some(view) ==> view.shows(meta, kind_in(meta, body@), body@),
            consulted(should_cancel, questions(kind_in(meta, body@), body@), r is None),
            kind_in(meta, body@) == ContentKind::Binary ==> r is Some,
    {
        let kind = detect_in(&meta, body);
        Self::prepare_as(meta, kind, body, should_cancel)
    }

    /// [`ResponseView::prepare_cancellable`] of content that is known to be of the
    /// given kind.
    pub fn prepare_as<F: FnMut() -> bool>(
        meta: ResponseMeta,
        kind: ContentKind,
        body: &BodyStore,
        should_cancel: F,
    ) -> (r: Option<ResponseView>)
        requires
            call_requires(should_cancel, ()),
        ensures
            r matches Some(view) ==> view.shows(meta, kind, body@),
            consulted(should_cancel, questions(kind, body@), r is None),
            kind == ContentKind::Binary ==> r is Some,
    {
        let header_rows = copy_pairs(&meta.headers);
        let mut ask = Asker::new(should_cancel);
        let ghost before = ask;
        let docs = prepare_docs(kind, body, &mut ask);
        proof {
            lemma_consulted(before, ask, questions(kind, body@), docs is None);
        }
        match docs {
            Some((raw, pretty)) => Some(ResponseView { meta, kind, raw, pretty, header_rows }),
            None => None,
        }
    }

    /// The text to show: the indented one where it is wanted and there is one.
    pub fn doc(&self, pretty: bool) -> (r: Option<&PreparedDoc>)
        ensures
            (match r {
                Some(d) => Some(*d),
                None => None::<PreparedDoc>,
            }) == (if pretty && self.pretty is Some {
                self.pretty
            } else {
                self.raw
            }),
    {
        if pretty {
            match &self.pretty {
                Some(d) => {
                    return Some(d);
                },
                None => {},
            }
        }
        match &self.raw {
            Some(d) => Some(d),
            None => None,
        }
    }

    pub fn has_pretty(&self) -> (r: bool)
        ensures
            r == (self.pretty is Some),
    {
        match self.pretty {
            Some(_) => true,
            None => false,
        }
    }

    /// Whether only the head of the body is shown.
    pub fn is_preview(&self) -> (r: bool)
        ensures
            r == (self.raw matches Some(d) && d.tier == ViewTier::Preview),
    {
        match &self.raw {
            Some(d) => match d.tier {
                ViewTier::Preview => true,
                _ => false,
            },
            None => false,
        }
    }
}

fn copy_pairs(pairs: &Vec<(String, String)>) -> (r: Vec<(String, String)>)
    ensures
        pairs_view(r@) == pairs_view(pairs@),
{
    let mut out: Vec<(String, String)> = Vec::new();
    let mut i: usize = 0;
    while i < pairs.len()
        invariant
            i <= pairs@.len(),
            out@.len() == i,
            forall|k: int|
                0 <= k < i ==> (#[trigger] out@[k]).0@ == pairs@[k].0@ && out@[k].1@
                    == pairs@[k].1@,
        decreases pairs@.len() - i,
    {
        out.push((pairs[i].0.clone(), pairs[i].1.clone()));
        i = i + 1;
    }
    proof {
        assert(pairs_view(out@) =~= pairs_view(pairs@));
    }
    out
}

/// The indented text of a body in memory.
fn prepare_pretty<F: FnMut() -> bool>(kind: ContentKind, bytes: &[u8], ask: &mut Asker<F>) -> (r:
    Option<Option<PreparedDoc>>)
    requires
        call_requires(old(ask).callback(), ()),
    ensures
        r matches Some(doc) ==> doc_view(doc) == pretty_of(kind, BodyView::Memory(bytes@)),
        asked_at(*old(ask), *final(ask), pretty_questions(kind, bytes@), r is None),
{
    let ghost before = *ask;
    if kind != ContentKind::Json {
        proof {
            lemma_not_asked(before);
        }
        return Some(None);
    }
    let ghost first = check_offsets(bytes@.len());
    let ghost second = text_checks(text_of(pretty(bytes@)));
    let out = match pretty_json_asking(bytes, ask) {
        Some(out) => out,
        None => {
            proof {
                assert((first + second).take(first.len() as int) =~= first);
                lemma_stopped(before, *ask, first, first + second);
            }
            return None;
        },
    };
    let ghost middle = *ask;
    let doc = TextDoc::from_bytes_asking(out, ask);
    proof {
        lemma_asked_on(before, middle, *ask, first, second, doc is None);
    }
    match doc {
        Some(doc) => Some(Some(PreparedDoc::new(doc, false))),
        None => None,
    }
}

/// The raw and the indented text of a body.
fn prepare_docs<F: FnMut() -> bool>(
    kind: ContentKind,
    body: &BodyStore,
    ask: &mut Asker<F>,
) -> (r: Option<(Option<PreparedDoc>, Option<PreparedDoc>)>)
    requires
        call_requires(old(ask).callback(), ()),
    ensures
        r matches Some(docs) ==> doc_view(docs.0) == raw_of(kind, body@) && doc_view(docs.1)
            == pretty_of(kind, body@),
        asked_at(*old(ask), *final(ask), questions(kind, body@), r is None),
        kind == ContentKind::Binary ==> r is Some,
{
    let ghost before = *ask;
    if !kind.is_text() {
        proof {
            lemma_not_asked(before);
        }
        return Some((None, None));
    }
    match body.memory() {
        Some(bytes) => {
            let ghost first = pretty_questions(kind, bytes@);
            let ghost second = text_checks(text_of(bytes@));
            let pretty = match prepare_pretty(kind, bytes, ask) {
                Some(pretty) => pretty,
                None => {
                    proof {
                        assert((first + second).take(first.len() as int) =~= first);
                        lemma_stopped(before, *ask, first, first + second);
                    }
                    return None;
                },
            };
            let ghost middle = *ask;
            let doc = TextDoc::from_bytes_asking(vstd::slice::slice_to_vec(bytes), ask);
            proof {
                lemma_asked_on(before, middle, *ask, first, second, doc is None);
            }
            match doc {
                Some(doc) => Some((Some(PreparedDoc::new(doc, false)), pretty)),
                None => None,
            }
        },
        None => {
            let head = vstd::slice::slice_to_vec(trim_partial_utf8(body.head(HEAD_BYTES)));
            match TextDoc::from_bytes_asking(head, ask) {
                Some(doc) => Some((Some(PreparedDoc::new(doc, true)), None)),
                None => None,
            }
        },
    }
}

/// How far the response of a tab has come.
#[derive(Debug)]
pub enum ResponseState {
    Idle,
    InFlight { received: u64, total: Option<u64> },
    Done { body: BodyStore, view: ResponseView },
    Failed { error: RequestError },
}

impl ResponseState {
    pub fn is_in_flight(&self) -> (r: bool)
        ensures
            r == (*self is InFlight),
    {
        match self {
            ResponseState::InFlight { .. } => true,
            _ => false,
        }
    }

    pub fn is_done(&self) -> (r: bool)
        ensures
            r == (*self is Done),
    {
        match self {
            ResponseState::Done { .. } => true,
            _ => false,
        }
    }

    pub fn error(&self) -> (r: Option<&RequestError>)
        ensures
            match *self {
                ResponseState::Failed { error } => r == Some(&error),
                _ => r is None,
            },
    {
        match self {
            ResponseState::Failed { error } => Some(error),
            _ => None,
        }
    }

    /// The state that a finished request leads to.
    pub fn finished(outcome: Result<(BodyStore, ResponseView), RequestError>) -> (r: ResponseState)
        ensures
            r == state_of(outcome),
    {
        match outcome {
            Ok((body, view)) => ResponseState::Done { body, view },
            Err(error) => ResponseState::Failed { error },
        }
    }
}

pub open spec fn state_of(
    outcome: Result<(BodyStore, ResponseView), RequestError>,
) -> ResponseState {
    match outcome {
        Ok((body, view)) => ResponseState::Done { body, view },
        Err(error) => ResponseState::Failed { error },
    }
}

/// What a finished background step leads to: nothing where it was cancelled, a
/// failure where it panicked.
pub fn guarded(
    body: BodyStore,
    outcome: Result<Option<ResponseView>, String>,
) -> (r: Option<Result<(BodyStore, ResponseView), RequestError>>)
    ensures
        match outcome {
            Ok(Some(view)) => r == Some(Ok::<_, RequestError>((body, view))),
            Ok(None) => r is None,
            Err(message) => r is Some && r->0 is Err && r->0->Err_0@ == ErrorView::Other(
                crate::http::error::PREPARE_PANIC_PREFIX@ + "："@ + message@,
            ),
        },
{
    match outcome {
        Ok(Some(view)) => Some(Ok((body, view))),
        Ok(None) => None,
        Err(message) => Some(
            Err(crate::http::error::background_failure(message.as_str())),
        ),
    }
}

/// What a panic said: its text, or a fixed text where it carried none.
pub fn panic_message(text: Option<&str>) -> (r: String)
    ensures
        r@ == match text {
            Some(t) => t@,
            None => "unknown panic"@,
        },
{
    match text {
        Some(t) => t.to_owned(),
        None => "unknown panic".to_owned(),
    }
}

/// Only the text of a body on disk is a preview.
pub proof fn previews_are_of_bodies_on_disk(
    view: ResponseView,
    meta: ResponseMeta,
    kind: ContentKind,
    body: BodyView,
)
    requires
        view.shows(meta, kind, body),
    ensures
        (view.raw matches Some(d) && d.tier == ViewTier::Preview) == (body is Spilled && kind
            != ContentKind::Binary),
        view.pretty matches Some(d) ==> d.tier != ViewTier::Preview,
{
}

/// Of a valid text on disk, the preview is a prefix that lacks at most the
/// character at which the head was cut.
pub proof fn preview_is_a_prefix_of_the_text(full: Seq<u8>, kind: ContentKind, body: BodyView)
    requires
        vstd::utf8::valid_utf8(full),
        kind != ContentKind::Binary,
        body matches BodyView::Spilled { head, .. } && head == crate::http::sink::head_of(full),
    ensures
        raw_of(kind, body) is Some,
        vstd::utf8::encode_utf8(raw_of(kind, body)->0.text).is_prefix_of(full),
        vstd::utf8::encode_utf8(raw_of(kind, body)->0.text).len() >= min_int(
            full.len() as int,
            HEAD_BYTES as int,
        ) - 3,
{
    let n = min_int(full.len() as int, HEAD_BYTES as int);
    let head = body->head;
    assert(head.take(min_int(head.len() as int, HEAD_BYTES as int)) =~= full.take(n));
    crate::body::text::trimmed_head_is_valid(full, n);
    let kept = without_partial(full.take(n));
    vstd::utf8::decode_utf8_encode_utf8(kept);
    assert(kept.is_prefix_of(full));
}

} // verus!
