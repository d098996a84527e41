//! One tab: the request as it is edited, and how far its response has come.
use crate::body::pretty::{pretty, pretty_json};
use crate::body::text::{text_of, TextDoc};
use crate::body::tier::ViewTier;
use crate::form_table::{
    all_fields_filled, filled_fields, form_rows, settled_form, FormRowView, FormTable,
};
use crate::http::error::{error_text, RequestError};
use crate::http::sink::BodyStore;
use crate::http::{
    content_type_of, extension, guess_content_type, prepare, prepared, same_header, HttpRequest,
};
use crate::json::{json_parsed, parse_value};
use crate::kv_table::{blank, filled_rows, settled, synced, KvTable, TableView};
use crate::model::{
    BodyKind, BodyKindView, DraftView, KeyValueView, Method, PostOp, PostOpView, PreOp, PreOpView,
    RawFormat, RequestDraft, SplitDirection, TabDraft, TabDraftView, TabId, Ulid,
};
use crate::response::{state_of, ResponseState, ResponseView};
use crate::strings::{
    chars_of, find_chars, first_index, opt_text, push_text, same_text, string_of,
    texts_equal_ignoring_case, trim, trimmed, views,
};
use crate::url::{extract_path_params, firsts, names_from};
use vstd::prelude::*;

verus! {

/// The parts of a request between which the editor switches.
#[derive(Debug, Clone, Copy, PartialEq, Eq, Structural)]
pub enum RequestSection {
    Params,
    Headers,
    Body,
}

impl RequestSection {
    pub const ALL: [RequestSection; 3] = [
        RequestSection::Params,
        RequestSection::Headers,
        RequestSection::Body,
    ];

    pub open spec fn position(self) -> int {
        match self {
            RequestSection::Params => 0,
            RequestSection::Headers => 1,
            RequestSection::Body => 2,
        }
    }

    pub fn index(self) -> (r: usize)
        ensures
            r == self.position(),
    {
        match self {
            RequestSection::Params => 0,
            RequestSection::Headers => 1,
            RequestSection::Body => 2,
        }
    }

    /// The section at an index; beyond the last, the first.
    pub fn from_index(ix: usize) -> (r: RequestSection)
        ensures
            ix < 3 ==> r.position() == ix,
            ix >= 3 ==> r == RequestSection::Params,
    {
        match ix {
            1 => RequestSection::Headers,
            2 => RequestSection::Body,
            _ => RequestSection::Params,
        }
    }
}

/// The parts of a response between which the view switches.
#[derive(Debug, Clone, Copy, PartialEq, Eq, Structural)]
pub enum ResponseSection {
    Body,
    Headers,
}

/// What kind of body is edited.
#[derive(Debug, Clone, Copy, PartialEq, Eq, Structural)]
pub enum BodyMode {
    Empty,
    FormData,
    FormUrlEncoded,
    Raw,
    File,
}

impl BodyMode {
    pub const ALL: [BodyMode; 5] = [
        BodyMode::Empty,
        BodyMode::FormData,
        BodyMode::FormUrlEncoded,
        BodyMode::Raw,
        BodyMode::File,
    ];

    pub open spec fn position(self) -> int {
        match self {
            BodyMode::Empty => 0,
            BodyMode::FormData => 1,
            BodyMode::FormUrlEncoded => 2,
            BodyMode::Raw => 3,
            BodyMode::File => 4,
        }
    }

    pub fn index(self) -> (r: usize)
        ensures
            r == self.position(),
    {
        match self {
            BodyMode::Empty => 0,
            BodyMode::FormData => 1,
            BodyMode::FormUrlEncoded => 2,
            BodyMode::Raw => 3,
            BodyMode::File => 4,
        }
    }

    /// The mode at an index; beyond the last, the first.
    pub fn from_index(ix: usize) -> (r: BodyMode)
        ensures
            ix < 5 ==> r.position() == ix,
            ix >= 5 ==> r == BodyMode::Empty,
    {
        match ix {
            1 => BodyMode::FormData,
            2 => BodyMode::FormUrlEncoded,
            3 => BodyMode::Raw,
            4 => BodyMode::File,
            _ => BodyMode::Empty,
        }
    }
}

/// Each mode, and each section, has an index of its own.
pub proof fn indices_are_distinct(a: BodyMode, b: BodyMode, c: RequestSection, d: RequestSection)
    ensures
        a.position() == b.position() ==> a == b,
        0 <= a.position() < 5,
        BodyMode::ALL@[a.position()] == a,
        c.position() == d.position() ==> c == d,
        0 <= c.position() < 3,
        RequestSection::ALL@[c.position()] == c,
{
}

/// Size of a typed body, in bytes, above which sending a file is suggested.
pub const BODY_HINT_BYTES: usize = 10485760;

/// The suggestion for a typed body of the given size.
pub fn body_hint_for(len: usize) -> (r: Option<&'static str>)
    ensures
        match r {
            Some(t) => len > BODY_HINT_BYTES && t@
                == "文本 Body 超过 10 MB，建议改用文件 Body 流式上传"@,
            None => len <= BODY_HINT_BYTES,
        },
{
    if len > BODY_HINT_BYTES {
        Some("文本 Body 超过 10 MB，建议改用文件 Body 流式上传")
    } else {
        None
    }
}

/// What is remarked on the body that is edited.
#[derive(Debug, Clone, Copy, PartialEq, Eq, Structural)]
pub enum BodyHint {
    /// A file would be the better body.
    TooLarge,
    /// The text could not be formatted.
    InvalidJson,
    /// The content type of a form follows from the form.
    FormDataContentType,
}

/// What is remarked on a search in the response.
#[derive(Debug, Clone, Copy, PartialEq, Eq, Structural)]
pub enum Notice {
    NoResponse,
    BinarySearch,
    EmptyBodySearch,
    VirtualSearch,
}

/// The title of a tab with the given URL: its path, else its host; for an empty
/// URL a fixed text.
pub open spec fn title_of(url: Seq<char>) -> Seq<char> {
    let t = trimmed(url);
    let rest = match first_index(t, "://"@, 0) {
        Some(i) => t.skip(i + 3),
        None => t,
    };
    let shown = match first_index(rest, "?"@, 0) {
        Some(i) => rest.take(i),
        None => rest,
    };
    if shown.len() == 0 {
        "新请求"@
    } else {
        match first_index(shown, "/"@, 0) {
            Some(i) => if i + 1 < shown.len() {
                shown.skip(i)
            } else {
                shown.take(i)
            },
            None => shown,
        }
    }
}

/// The title of a tab with the given URL.
pub fn tab_title(url: &str) -> (r: String)
    ensures
        r@ == title_of(url@),
{
    proof {
        reveal_strlit("://");
        reveal_strlit("?");
        reveal_strlit("/");
    }
    let text = trim(url);
    let t = chars_of(text.as_str());
    let n = t.len();
    let separator = [':', '/', '/'];
    let question = ['?'];
    let slash = ['/'];
    proof {
        assert(separator@ =~= "://"@);
        assert(question@ =~= "?"@);
        assert(slash@ =~= "/"@);
    }
    let from = match find_chars(t.as_slice(), separator.as_slice(), 0) {
        Some(i) => i + 3,
        None => 0,
    };
    let ghost rest = t@.skip(from as int);
    proof {
        assert(t@.skip(0) =~= t@);
    }
    let rest_text = string_of(t.as_slice(), from, t.len());
    let r = chars_of(rest_text.as_str());
    proof {
        assert(r@ =~= rest);
    }
    let to = match find_chars(r.as_slice(), question.as_slice(), 0) {
        Some(i) => i,
        None => r.len(),
    };
    proof {
        assert(r@.take(r@.len() as int) =~= r@);
    }
    if to == 0 {
        return "新请求".to_owned();
    }
    let shown_text = string_of(r.as_slice(), 0, to);
    let s = chars_of(shown_text.as_str());
    proof {
        assert(s@ =~= r@.take(to as int));
    }
    match find_chars(s.as_slice(), slash.as_slice(), 0) {
        Some(i) => if i + 1 < s.len() {
            proof {
                assert(s@.subrange(i as int, s@.len() as int) =~= s@.skip(i as int));
            }
            string_of(s.as_slice(), i, s.len())
        } else {
            proof {
                assert(s@.subrange(0, i as int) =~= s@.take(i as int));
            }
            string_of(s.as_slice(), 0, i)
        },
        None => shown_text,
    }
}

/// The texts of the three editors of a raw body.
#[derive(Debug)]
pub struct RawTexts {
    pub json: String,
    pub text: String,
    pub xml: String,
}

pub struct RawTextsView {
    pub json: Seq<char>,
    pub text: Seq<char>,
    pub xml: Seq<char>,
}

impl View for RawTexts {
    type V = RawTextsView;

    open spec fn view(&self) -> RawTextsView {
        RawTextsView { json: self.json@, text: self.text@, xml: self.xml@ }
    }
}

impl RawTextsView {
    pub open spec fn of(self, format: RawFormat) -> Seq<char> {
        match format {
            RawFormat::Json => self.json,
            RawFormat::Text => self.text,
            RawFormat::Xml => self.xml,
        }
    }

    pub open spec fn with(self, format: RawFormat, text: Seq<char>) -> RawTextsView {
        match format {
            RawFormat::Json => RawTextsView { json: text, ..self },
            RawFormat::Text => RawTextsView { text, ..self },
            RawFormat::Xml => RawTextsView { xml: text, ..self },
        }
    }
}

impl RawTexts {
    pub fn of(&self, format: RawFormat) -> (r: &str)
        ensures
            r@ == self@.of(format),
    {
        match format {
            RawFormat::Json => self.json.as_str(),
            RawFormat::Text => self.text.as_str(),
            RawFormat::Xml => self.xml.as_str(),
        }
    }

    pub fn set(&mut self, format: RawFormat, text: String)
        ensures
            final(self)@ == old(self)@.with(format, text@),
    {
        match format {
            RawFormat::Json => self.json = text,
            RawFormat::Text => self.text = text,
            RawFormat::Xml => self.xml = text,
        }
    }
}

/// All state of a tab.
#[derive(Debug)]
pub struct RequestTab {
    pub id: TabId,
    /// The saved request that the tab was opened from or saved to.
    pub saved_id: Option<Ulid>,
    pub saved_name: Option<String>,
    /// Whether anything changed since the tab was last saved.
    pub dirty: bool,
    pub method: Method,
    pub url: String,
    pub url_error: Option<String>,
    pub path_params: KvTable,
    pub params: KvTable,
    pub headers: KvTable,
    pub form: KvTable,
    pub form_data: FormTable,
    pub body_mode: BodyMode,
    pub raw_format: RawFormat,
    pub raw: RawTexts,
    pub file_path: Option<String>,
    /// The size of the chosen file, for display.
    pub file_size: Option<u64>,
    pub body_hint: Option<BodyHint>,
    pub pre_ops: Vec<PreOp>,
    pub post_ops: Vec<PostOp>,
    pub request_section: RequestSection,
    pub response_section: ResponseSection,
    pub pretty: bool,
    pub response: ResponseState,
    pub notice: Option<Notice>,
    /// What became of the last attempt to save the body.
    pub save_notice: Option<String>,
    /// Counts the requests; what belongs to an earlier one is dropped.
    pub generation: u64,
    pub split: SplitDirection,
}

#[verifier::ext_equal]
pub struct TabView {
    pub id: TabId,
    pub saved_id: Option<Ulid>,
    pub saved_name: Option<Seq<char>>,
    pub dirty: bool,
    pub method: Method,
    pub url: Seq<char>,
    pub url_error: Option<Seq<char>>,
    pub path_params: TableView,
    pub params: TableView,
    pub headers: TableView,
    pub form: TableView,
    pub form_data: Seq<FormRowView>,
    pub body_mode: BodyMode,
    pub raw_format: RawFormat,
    pub raw: RawTextsView,
    pub file_path: Option<Seq<char>>,
    pub file_size: Option<u64>,
    pub body_hint: Option<BodyHint>,
    pub pre_ops: Seq<PreOpView>,
    pub post_ops: Seq<PostOpView>,
    pub request_section: RequestSection,
    pub response_section: ResponseSection,
    pub pretty: bool,
    pub response: ResponseState,
    pub notice: Option<Notice>,
    pub save_notice: Option<Seq<char>>,
    pub generation: u64,
    pub split: SplitDirection,
}

impl View for RequestTab {
    type V = TabView;

    open spec fn view(&self) -> TabView {
        TabView {
            id: self.id,
            saved_id: self.saved_id,
            saved_name: opt_text(self.saved_name),
            dirty: self.dirty,
            method: self.method,
            url: self.url@,
            url_error: opt_text(self.url_error),
            path_params: self.path_params@,
            params: self.params@,
            headers: self.headers@,
            form: self.form@,
            form_data: self.form_data@,
            body_mode: self.body_mode,
            raw_format: self.raw_format,
            raw: self.raw@,
            file_path: opt_text(self.file_path),
            file_size: self.file_size,
            body_hint: self.body_hint,
            pre_ops: views(self.pre_ops@),
            post_ops: views(self.post_ops@),
            request_section: self.request_section,
            response_section: self.response_section,
            pretty: self.pretty,
            response: self.response,
            notice: self.notice,
            save_notice: opt_text(self.save_notice),
            generation: self.generation,
            split: self.split,
        }
    }
}

/// A new tab.
pub open spec fn fresh_tab(id: TabId, split: SplitDirection) -> TabView {
    TabView {
        id,
        saved_id: None,
        saved_name: None,
        dirty: false,
        method: Method::Get,
        url: Seq::empty(),
        url_error: None,
        path_params: TableView { rows: Seq::empty(), locked: true },
        params: settled(Seq::empty(), false),
        headers: settled(Seq::empty(), false),
        form: settled(Seq::empty(), false),
        form_data: settled_form(Seq::empty()),
        body_mode: BodyMode::Empty,
        raw_format: RawFormat::Json,
        raw: RawTextsView { json: Seq::empty(), text: Seq::empty(), xml: Seq::empty() },
        file_path: None,
        file_size: None,
        body_hint: None,
        pre_ops: Seq::empty(),
        post_ops: Seq::empty(),
        request_section: RequestSection::Params,
        response_section: ResponseSection::Body,
        pretty: true,
        response: ResponseState::Idle,
        notice: None,
        save_notice: None,
        generation: 0,
        split,
    }
}

/// The content type that goes with a chosen file.
pub open spec fn file_content_type(path: Seq<char>) -> Seq<char> {
    content_type_of(extension(path))
}

/// The body that is edited.
pub open spec fn body_of_tab(t: TabView) -> BodyKindView {
    match t.body_mode {
        BodyMode::Empty => BodyKindView::Empty,
        BodyMode::Raw => BodyKindView::Raw { format: t.raw_format, text: t.raw.of(t.raw_format) },
        BodyMode::FormData => BodyKindView::FormData { fields: filled_fields(t.form_data) },
        BodyMode::FormUrlEncoded => BodyKindView::FormUrlEncoded {
            fields: filled_rows(t.form.rows),
        },
        BodyMode::File => match t.file_path {
            Some(path) => BodyKindView::File {
                path,
                content_type: Some(file_content_type(path)),
            },
            None => BodyKindView::File { path: Seq::empty(), content_type: None },
        },
    }
}

/// The request that is edited.
pub open spec fn draft_of(t: TabView) -> DraftView {
    DraftView {
        method: t.method,
        url: t.url,
        path_params: filled_rows(t.path_params.rows),
        params: filled_rows(t.params.rows),
        headers: filled_rows(t.headers.rows),
        body: body_of_tab(t),
        pre_ops: t.pre_ops,
        post_ops: t.post_ops,
    }
}

/// Whether a row sets a content type.
pub open spec fn sets_content_type(row: KeyValueView) -> bool {
    row.enabled && same_header(row.key, "content-type"@)
}

/// What is remarked on the body that is edited.
pub open spec fn hint_of(t: TabView) -> Option<BodyHint> {
    match t.body_mode {
        BodyMode::Raw => if vstd::utf8::encode_utf8(t.raw.of(t.raw_format)).len()
            > BODY_HINT_BYTES {
            Some(BodyHint::TooLarge)
        } else {
            None
        },
        BodyMode::FormData => if exists|i: int|
            0 <= i < t.headers.rows.len() && sets_content_type(#[trigger] t.headers.rows[i]) {
            Some(BodyHint::FormDataContentType)
        } else {
            None
        },
        _ => None,
    }
}

/// The tab after a request was loaded into it.
pub open spec fn loaded(t: TabView, d: DraftView) -> TabView {
    let base = TabView {
        method: d.method,
        url: d.url,
        path_params: settled(d.path_params, t.path_params.locked),
        params: settled(d.params, t.params.locked),
        headers: settled(d.headers, t.headers.locked),
        file_path: None,
        file_size: None,
        pre_ops: d.pre_ops,
        post_ops: d.post_ops,
        url_error: None,
        ..t
    };
    let with_body = match d.body {
        BodyKindView::Empty => TabView { body_mode: BodyMode::Empty, ..base },
        BodyKindView::Raw { format, text } => TabView {
            body_mode: BodyMode::Raw,
            raw_format: format,
            raw: base.raw.with(format, text),
            ..base
        },
        BodyKindView::FormData { fields } => TabView {
            body_mode: BodyMode::FormData,
            form_data: settled_form(form_rows(fields)),
            ..base
        },
        BodyKindView::FormUrlEncoded { fields } => TabView {
            body_mode: BodyMode::FormUrlEncoded,
            form: settled(fields, base.form.locked),
            ..base
        },
        BodyKindView::File { path, .. } => TabView {
            body_mode: BodyMode::File,
            file_path: if path.len() == 0 { None } else { Some(path) },
            ..base
        },
    };
    TabView { body_hint: hint_of(with_body), ..with_body }
}

/// Whether all rows hold something.
pub open spec fn all_filled(rows: Seq<KeyValueView>) -> bool {
    forall|i: int| 0 <= i < rows.len() ==> !blank(#[trigger] rows[i])
}

/// Whether a request is one that an editor can hold: no blank rows, and a file
/// with the content type that follows from its name.
pub open spec fn editable(d: DraftView) -> bool {
    &&& all_filled(d.path_params)
    &&& all_filled(d.params)
    &&& all_filled(d.headers)
    &&& match d.body {
        BodyKindView::FormData { fields } => all_fields_filled(fields),
        BodyKindView::FormUrlEncoded { fields } => all_filled(fields),
        BodyKindView::File { path, content_type } => content_type == if path.len() == 0 {
            None
        } else {
            Some(file_content_type(path))
        },
        _ => true,
    }
}

/// A request that is loaded into a tab is read back from it, and loading does not
/// count as a change.
pub proof fn loaded_request_is_read_back(t: TabView, d: DraftView)
    requires
        editable(d),
    ensures
        draft_of(loaded(t, d)) == d,
        loaded(t, d).dirty == t.dirty,
        loaded(t, d).saved_id == t.saved_id,
        loaded(t, d).saved_name == t.saved_name,
        loaded(t, d).id == t.id,
{
    crate::kv_table::set_values_are_read_back(d.path_params, t.path_params.locked);
    crate::kv_table::set_values_are_read_back(d.params, t.params.locked);
    crate::kv_table::set_values_are_read_back(d.headers, t.headers.locked);
    match d.body {
        BodyKindView::FormData { fields } => {
            crate::form_table::set_fields_are_read_back(fields);
        },
        BodyKindView::FormUrlEncoded { fields } => {
            crate::kv_table::set_values_are_read_back(fields, t.form.locked);
        },
        BodyKindView::File { path, content_type } => {
            if path.len() == 0 {
                assert(path =~= Seq::<char>::empty());
            }
        },
        _ => {},
    }
}

/// What a tab yields is a request that an editor can hold.
pub proof fn edited_requests_are_editable(t: TabView)
    requires
        t.file_path matches Some(path) ==> path.len() > 0,
    ensures
        editable(draft_of(t)),
{
    lemma_filled_rows(t.path_params.rows);
    lemma_filled_rows(t.params.rows);
    lemma_filled_rows(t.headers.rows);
    lemma_filled_rows(t.form.rows);
    crate::form_table::read_fields_are_filled(t.form_data);
}

proof fn lemma_filled_rows(rows: Seq<KeyValueView>)
    ensures
        all_filled(filled_rows(rows)),
    decreases rows.len(),
{
    if rows.len() > 0 {
        lemma_filled_rows(rows.drop_last());
    }
}

fn mentions_content_type(rows: &KvTable) -> (r: bool)
    ensures
        r == exists|i: int| 0 <= i < rows@.rows.len() && sets_content_type(
            #[trigger] rows@.rows[i],
        ),
{
    let n = rows.row_count();
    let mut i: usize = 0;
    while i < n
        invariant
            n == rows@.rows.len(),
            i <= n,
            forall|k: int| 0 <= k < i ==> !sets_content_type(#[trigger] rows@.rows[k]),
        decreases n - i,
    {
        let row = rows.row(i);
        if row.enabled && texts_equal_ignoring_case(row.key.as_str(), "content-type") {
            return true;
        }
        i = i + 1;
    }
    false
}

/// JSON text with its indentation renewed.
pub open spec fn formatted(text: Seq<char>) -> Seq<char> {
    text_of(pretty(vstd::utf8::encode_utf8(text)))
}

/// The tab after its JSON body was formatted. A body that is blank, of another
/// kind or already formatted stays as it is; so does one that is no JSON, with a
/// remark.
pub open spec fn after_format(t: TabView) -> TabView {
    let text = t.raw.of(RawFormat::Json);
    if t.body_mode != BodyMode::Raw || t.raw_format != RawFormat::Json || trimmed(text).len() == 0 {
        t
    } else if json_parsed(vstd::utf8::encode_utf8(text)) is Err {
        TabView { body_hint: Some(BodyHint::InvalidJson), ..t }
    } else if formatted(text) == text {
        t
    } else {
        let changed = TabView {
            raw: t.raw.with(RawFormat::Json, formatted(text)),
            dirty: true,
            ..t
        };
        TabView { body_hint: hint_of(changed), ..changed }
    }
}

/// Formatting a text twice gives what formatting it once gives.
pub proof fn formatting_is_idempotent(text: Seq<char>)
    ensures
        formatted(formatted(text)) == formatted(text),
{
    let bytes = vstd::utf8::encode_utf8(text);
    vstd::utf8::encode_utf8_valid_utf8(text);
    crate::body::text::pretty_text_is_valid(bytes);
    vstd::utf8::decode_utf8_encode_utf8(pretty(bytes));
    crate::body::pretty::pretty_is_idempotent(bytes);
}

/// Formatting changes nothing of a text but the white space between tokens.
pub proof fn formatting_keeps_content(text: Seq<char>)
    ensures
        crate::body::pretty::significant(vstd::utf8::encode_utf8(formatted(text)))
            == crate::body::pretty::significant(vstd::utf8::encode_utf8(text)),
{
    let bytes = vstd::utf8::encode_utf8(text);
    vstd::utf8::encode_utf8_valid_utf8(text);
    crate::body::text::pretty_text_is_valid(bytes);
    vstd::utf8::decode_utf8_encode_utf8(pretty(bytes));
    crate::body::pretty::pretty_keeps_content(bytes);
}

impl RequestTab {
    pub fn new(id: TabId, split: SplitDirection) -> (r: RequestTab)
        ensures
            r@ == fresh_tab(id, split),
    {
        let r = RequestTab {
            id,
            saved_id: None,
            saved_name: None,
            dirty: false,
            method: Method::Get,
            url: String::new(),
            url_error: None,
            path_params: KvTable::new().locked_keys(true),
            params: KvTable::new(),
            headers: KvTable::new(),
            form: KvTable::new(),
            form_data: FormTable::new(),
            body_mode: BodyMode::Empty,
            raw_format: RawFormat::Json,
            raw: RawTexts { json: String::new(), text: String::new(), xml: String::new() },
            file_path: None,
            file_size: None,
            body_hint: None,
            pre_ops: Vec::new(),
            post_ops: Vec::new(),
            request_section: RequestSection::Params,
            response_section: ResponseSection::Body,
            pretty: true,
            response: ResponseState::Idle,
            notice: None,
            save_notice: None,
            generation: 0,
            split,
        };
        proof {
            assert(r@ =~= fresh_tab(id, split));
        }
        r
    }

    /// The request that is edited.
    pub fn draft(&self) -> (r: RequestDraft)
        ensures
            r@ == draft_of(self@),
    {
        let body = match self.body_mode {
            BodyMode::Empty => BodyKind::Empty,
            BodyMode::Raw => BodyKind::Raw {
                format: self.raw_format,
                text: self.raw.of(self.raw_format).to_owned(),
            },
            BodyMode::FormData => BodyKind::FormData { fields: self.form_data.form_fields() },
            BodyMode::FormUrlEncoded => BodyKind::FormUrlEncoded { fields: self.form.values() },
            BodyMode::File => match &self.file_path {
                Some(path) => BodyKind::File {
                    path: path.clone(),
                    content_type: Some(guess_content_type(path.as_str()).to_owned()),
                },
                None => BodyKind::File { path: String::new(), content_type: None },
            },
        };
        let pre_ops = self.pre_ops.clone();
        let post_ops = self.post_ops.clone();
        proof {
            assert(views(pre_ops@) =~= views(self.pre_ops@));
            assert(views(post_ops@) =~= views(self.post_ops@));
        }
        RequestDraft {
            method: self.method,
            url: self.url.clone(),
            path_params: self.path_params.values(),
            params: self.params.values(),
            headers: self.headers.values(),
            body,
            pre_ops,
            post_ops,
        }
    }

    /// What is kept of the tab between two runs.
    pub fn tab_draft(&self) -> (r: TabDraft)
        ensures
            r@ == (TabDraftView {
                id: self@.id,
                draft: draft_of(self@),
                saved_id: self@.saved_id,
                dirty: self@.dirty,
            }),
    {
        TabDraft {
            id: self.id,
            draft: self.draft(),
            saved_id: self.saved_id,
            dirty: self.dirty,
        }
    }

    /// The name of the saved request, else a title that follows from the URL.
    pub fn title(&self) -> (r: String)
        ensures
            r@ == title_of_tab(self@),
    {
        match &self.saved_name {
            Some(name) => name.clone(),
            None => tab_title(self.url.as_str()),
        }
    }

    pub fn has_path_params(&self) -> (r: bool)
        ensures
            r == (firsts(names_from(self@.url, 0)).len() > 0),
    {
        let names = extract_path_params(self.url.as_str());
        proof {
            assert(views(names@).len() == names@.len());
        }
        names.len() > 0
    }

    pub fn mark_dirty(&mut self)
        ensures
            final(self)@ == (TabView { dirty: true, ..old(self)@ }),
    {
        self.dirty = true;
    }

    pub fn mark_clean(&mut self)
        ensures
            final(self)@ == (TabView { dirty: false, ..old(self)@ }),
    {
        self.dirty = false;
    }

    /// Takes a URL as it was typed: the table of path parameters follows it.
    pub fn set_url(&mut self, url: &str)
        ensures
            final(self)@ == (TabView {
                url: url@,
                path_params: TableView {
                    rows: synced(old(self)@.path_params.rows, firsts(names_from(url@, 0))),
                    locked: old(self)@.path_params.locked,
                },
                url_error: None,
                dirty: true,
                ..old(self)@
            }),
    {
        self.url = url.to_owned();
        let names = extract_path_params(url);
        let _changed = self.path_params.sync_keys(&names);
        self.url_error = None;
        self.dirty = true;
    }

    /// Works out anew what is remarked on the body.
    pub fn refresh_body_hint(&mut self)
        ensures
            final(self)@ == (TabView { body_hint: hint_of(old(self)@), ..old(self)@ }),
    {
        self.body_hint = match self.body_mode {
            BodyMode::Raw => match body_hint_for(
                self.raw.of(self.raw_format).as_bytes().len(),
            ) {
                Some(_) => Some(BodyHint::TooLarge),
                None => None,
            },
            BodyMode::FormData => if mentions_content_type(&self.headers) {
                Some(BodyHint::FormDataContentType)
            } else {
                None
            },
            _ => None,
        };
    }

    pub fn set_body_mode(&mut self, mode: BodyMode)
        ensures
            ({
                let edited = TabView { body_mode: mode, dirty: true, ..old(self)@ };
                final(self)@ == (TabView { body_hint: hint_of(edited), ..edited })
            }),
    {
        self.body_mode = mode;
        self.dirty = true;
        self.refresh_body_hint();
    }

    pub fn set_raw_format(&mut self, format: RawFormat)
        ensures
            ({
                let edited = TabView { raw_format: format, dirty: true, ..old(self)@ };
                final(self)@ == (TabView { body_hint: hint_of(edited), ..edited })
            }),
    {
        self.raw_format = format;
        self.dirty = true;
        self.refresh_body_hint();
    }

    /// Takes the text of the raw body as it was typed.
    pub fn set_raw_text(&mut self, text: String)
        ensures
            ({
                let edited = TabView {
                    raw: old(self)@.raw.with(old(self)@.raw_format, text@),
                    dirty: true,
                    ..old(self)@
                };
                final(self)@ == (TabView { body_hint: hint_of(edited), ..edited })
            }),
    {
        let format = self.raw_format;
        self.raw.set(format, text);
        self.dirty = true;
        self.refresh_body_hint();
    }

    /// Formats the JSON body.
    pub fn format_body(&mut self)
        ensures
            final(self)@ == after_format(old(self)@),
    {
        match self.body_mode {
            BodyMode::Raw => {},
            _ => {
                return;
            },
        }
        match self.raw_format {
            RawFormat::Json => {},
            _ => {
                return;
            },
        }
        let blank = trim(self.raw.json.as_str());
        if blank.as_str().unicode_len() == 0 {
            return;
        }
        match parse_value(self.raw.json.as_str().as_bytes()) {
            Ok(_) => {},
            Err(_) => {
                self.body_hint = Some(BodyHint::InvalidJson);
                return;
            },
        }
        let out = pretty_json(self.raw.json.as_str().as_bytes());
        let doc = TextDoc::from_bytes(out);
        if same_text(doc.text(), self.raw.json.as_str()) {
            return;
        }
        self.raw.json = doc.text().to_owned();
        self.dirty = true;
        self.refresh_body_hint();
    }

    /// Makes a chosen file the body.
    pub fn choose_file(&mut self, path: String, size: Option<u64>)
        ensures
            final(self)@ == (TabView {
                file_path: Some(path@),
                file_size: size,
                body_mode: BodyMode::File,
                dirty: true,
                ..old(self)@
            }),
    {
        self.file_path = Some(path);
        self.file_size = size;
        self.body_mode = BodyMode::File;
        self.dirty = true;
    }

    /// Takes the choice of a file back; the body stays a file.
    pub fn clear_file(&mut self)
        ensures
            final(self)@ == (TabView {
                file_path: None,
                file_size: None,
                dirty: true,
                ..old(self)@
            }),
    {
        self.file_path = None;
        self.file_size = None;
        self.dirty = true;
    }

    /// Loads a request.
    pub fn load_draft(&mut self, draft: &RequestDraft)
        ensures
            final(self)@ == loaded(old(self)@, draft@),
    {
        self.method = draft.method;
        self.url = draft.url.clone();
        self.path_params.set_values(&draft.path_params);
        self.params.set_values(&draft.params);
        self.headers.set_values(&draft.headers);
        self.file_path = None;
        self.file_size = None;
        self.pre_ops = draft.pre_ops.clone();
        self.post_ops = draft.post_ops.clone();
        proof {
            assert(views(self.pre_ops@) =~= views(draft.pre_ops@));
            assert(views(self.post_ops@) =~= views(draft.post_ops@));
        }
        match &draft.body {
            BodyKind::Empty => self.body_mode = BodyMode::Empty,
            BodyKind::Raw { format, text } => {
                self.body_mode = BodyMode::Raw;
                self.raw_format = *format;
                self.raw.set(*format, text.clone());
            },
            BodyKind::FormData { fields } => {
                self.body_mode = BodyMode::FormData;
                self.form_data.set_form_fields(fields);
            },
            BodyKind::FormUrlEncoded { fields } => {
                self.body_mode = BodyMode::FormUrlEncoded;
                self.form.set_values(fields);
            },
            BodyKind::File { path, .. } => {
                self.body_mode = BodyMode::File;
                if path.as_str().unicode_len() > 0 {
                    self.file_path = Some(path.clone());
                }
            },
        }
        self.url_error = None;
        self.refresh_body_hint();
    }

    /// Starts sending the request that is edited: its number and the request to
    /// send.
    pub fn send(&mut self) -> (r: Option<(u64, HttpRequest)>)
        requires
            old(self)@.generation < u64::MAX,
        ensures
            starts(old(self)@, draft_of(old(self)@), final(self)@, r),
    {
        let draft = self.draft();
        self.send_draft(&draft)
    }

    /// Starts sending `draft`, the request that is edited with its variables
    /// replaced. Nothing is sent while a request is under way, nor where the
    /// request is refused, whose reason is then shown.
    pub fn send_draft(&mut self, draft: &RequestDraft) -> (r: Option<(u64, HttpRequest)>)
        requires
            old(self)@.generation < u64::MAX,
        ensures
            starts(old(self)@, draft@, final(self)@, r),
    {
        if self.response.is_in_flight() {
            return None;
        }
        match prepare(draft) {
            Ok(req) => {
                self.url_error = None;
                self.notice = None;
                self.save_notice = None;
                self.generation = self.generation + 1;
                self.response = ResponseState::InFlight { received: 0, total: None };
                Some((self.generation, req))
            },
            Err(e) => {
                self.url_error = Some(e.message());
                None
            },
        }
    }

    /// Notes the progress of a request. Tells whether the request is still the
    /// current one.
    pub fn progress(&mut self, generation: u64, received: u64, total: Option<u64>) -> (r: bool)
        ensures
            r == (generation == old(self)@.generation),
            final(self)@ == (if r && old(self)@.response is InFlight {
                TabView { response: ResponseState::InFlight { received, total }, ..old(self)@ }
            } else {
                old(self)@
            }),
    {
        if self.generation != generation {
            return false;
        }
        if self.response.is_in_flight() {
            self.response = ResponseState::InFlight { received, total };
        }
        true
    }

    /// Notes the outcome of a request; that of an earlier one is dropped.
    pub fn apply_outcome(
        &mut self,
        generation: u64,
        outcome: Result<(BodyStore, ResponseView), RequestError>,
    )
        ensures
            final(self)@ == after_outcome(old(self)@, generation, outcome),
    {
        if self.generation != generation {
            return;
        }
        let ok = outcome.is_ok();
        self.response = ResponseState::finished(outcome);
        if ok {
            self.response_section = ResponseSection::Body;
        }
    }

    /// Gives up the request that is under way.
    pub fn cancel(&mut self)
        requires
            old(self)@.generation < u64::MAX,
        ensures
            final(self)@ == after_cancel(old(self)@),
    {
        if !self.response.is_in_flight() {
            return;
        }
        self.generation = self.generation + 1;
        self.response = ResponseState::Failed { error: RequestError::Cancelled };
    }

    /// Drops the response; without effect where there is none.
    pub fn clear_response(&mut self)
        requires
            old(self)@.generation < u64::MAX,
        ensures
            final(self)@ == after_clear(old(self)@),
    {
        match self.response {
            ResponseState::Idle => {
                return;
            },
            _ => {},
        }
        self.generation = self.generation + 1;
        self.response = ResponseState::Idle;
        self.response_section = ResponseSection::Body;
        self.notice = None;
    }

    pub fn set_pretty(&mut self, pretty: bool)
        ensures
            final(self)@ == (TabView { pretty, ..old(self)@ }),
    {
        self.pretty = pretty;
    }

    /// The text and the language of the read-only editor, where the response is
    /// shown in it.
    pub fn editor_text(&self) -> (r: Option<(&str, &str)>)
        ensures
            match self@.response {
                ResponseState::Done { body, view } => match shown_doc(view, self@.pretty) {
                    Some(d) => if d.tier == ViewTier::Editor {
                        r matches Some(pair) && pair.0@ == d.doc@ && pair.1@
                            == crate::response::language_of(view.kind)
                    } else {
                        r is None
                    },
                    None => r is None,
                },
                _ => r is None,
            },
    {
        match &self.response {
            ResponseState::Done { view, .. } => match view.doc(self.pretty) {
                Some(d) => match d.tier {
                    ViewTier::Editor => Some((d.doc.text(), view.kind.editor_language())),
                    _ => None,
                },
                None => None,
            },
            _ => None,
        }
    }

    /// Turns to the search in the response. Tells whether the editor takes the
    /// focus; where it does not, a notice says why.
    pub fn find_in_response(&mut self) -> (r: bool)
        ensures
            r == (search_notice(old(self)@) is None),
            final(self)@ == (TabView {
                notice: search_notice(old(self)@),
                response_section: if r {
                    ResponseSection::Body
                } else {
                    old(self)@.response_section
                },
                ..old(self)@
            }),
    {
        let notice = match &self.response {
            ResponseState::Done { view, .. } => match view.doc(self.pretty) {
                Some(d) => if d.doc.line_count() == 0 {
                    Some(Notice::EmptyBodySearch)
                } else {
                    match d.tier {
                        ViewTier::Editor => None,
                        _ => Some(Notice::VirtualSearch),
                    }
                },
                None => Some(Notice::BinarySearch),
            },
            _ => Some(Notice::NoResponse),
        };
        self.notice = notice;
        match notice {
            Some(_) => false,
            None => {
                self.response_section = ResponseSection::Body;
                true
            },
        }
    }

    /// The file name that is suggested for the body, where there is a response.
    pub fn suggested_file_name(&self) -> (r: Option<String>)
        ensures
            match self@.response {
                ResponseState::Done { view, .. } => r is Some && r->0@ == "response."@
                    + crate::response::extension_of(view.kind),
                _ => r is None,
            },
    {
        match &self.response {
            ResponseState::Done { view, .. } => {
                let mut out = "response.".to_owned();
                push_text(&mut out, crate::response::file_extension(view.kind));
                Some(out)
            },
            _ => None,
        }
    }

    /// The file that holds the body, where it is on disk.
    pub fn body_path(&self) -> (r: Option<&str>)
        ensures
            match self@.response {
                ResponseState::Done { body, .. } => match body@ {
                    crate::http::sink::BodyView::Spilled { file, .. } => r is Some && r->0@ == file,
                    crate::http::sink::BodyView::Memory(_) => r is None,
                },
                _ => r is None,
            },
    {
        match &self.response {
            ResponseState::Done { body, .. } => body.path(),
            _ => None,
        }
    }

    /// Notes what became of an attempt to save the body of the given request.
    pub fn save_finished(&mut self, generation: u64, dest: &str, failure: Option<&str>)
        ensures
            final(self)@ == (if generation == old(self)@.generation {
                TabView {
                    save_notice: Some(
                        match failure {
                            None => "已保存到 "@ + dest@,
                            Some(e) => "保存失败："@ + e@,
                        },
                    ),
                    ..old(self)@
                }
            } else {
                old(self)@
            }),
    {
        if self.generation != generation {
            return;
        }
        let text = match failure {
            None => {
                let mut out = "已保存到 ".to_owned();
                push_text(&mut out, dest);
                out
            },
            Some(e) => {
                let mut out = "保存失败：".to_owned();
                push_text(&mut out, e);
                out
            },
        };
        self.save_notice = Some(text);
    }
}

pub open spec fn title_of_tab(t: TabView) -> Seq<char> {
    match t.saved_name {
        Some(name) => name,
        None => title_of(t.url),
    }
}

/// The text of a response that is shown.
pub open spec fn shown_doc(view: ResponseView, pretty: bool) -> Option<
    crate::response::PreparedDoc,
> {
    if pretty && view.pretty is Some {
        view.pretty
    } else {
        view.raw
    }
}

/// Why the response of a tab cannot be searched.
pub open spec fn search_notice(t: TabView) -> Option<Notice> {
    match t.response {
        ResponseState::Done { body, view } => match shown_doc(view, t.pretty) {
            Some(d) => if d.doc.table().starts.len() == 0 {
                Some(Notice::EmptyBodySearch)
            } else if d.tier == ViewTier::Editor {
                None
            } else {
                Some(Notice::VirtualSearch)
            },
            None => Some(Notice::BinarySearch),
        },
        _ => Some(Notice::NoResponse),
    }
}

/// What starting to send `draft` makes of a tab, and what it hands over: the number
/// of the request and the request. Nothing is handed over while a request is under
/// way, nor where the request is refused, whose reason is then shown.
pub open spec fn starts(
    before: TabView,
    draft: DraftView,
    after: TabView,
    handed: Option<(u64, HttpRequest)>,
) -> bool {
    if before.response is InFlight {
        handed is None && after == before
    } else {
        match prepared(draft) {
            Ok(request) => {
                &&& handed matches Some(pair) && pair.0 == before.generation + 1 && pair.1@
                    == request
                &&& after == (TabView {
                    url_error: None,
                    notice: None,
                    save_notice: None,
                    generation: (before.generation + 1) as u64,
                    response: ResponseState::InFlight { received: 0, total: None },
                    ..before
                })
            },
            Err(e) => handed is None && after == (TabView {
                url_error: Some(error_text(e)),
                ..before
            }),
        }
    }
}

pub open spec fn after_outcome(
    t: TabView,
    generation: u64,
    outcome: Result<(BodyStore, ResponseView), RequestError>,
) -> TabView {
    if t.generation != generation {
        t
    } else {
        TabView {
            response: state_of(outcome),
            response_section: if outcome is Ok {
                ResponseSection::Body
            } else {
                t.response_section
            },
            ..t
        }
    }
}

pub open spec fn after_cancel(t: TabView) -> TabView {
    if t.response is InFlight {
        TabView {
            generation: (t.generation + 1) as u64,
            response: ResponseState::Failed { error: RequestError::Cancelled },
            ..t
        }
    } else {
        t
    }
}

pub open spec fn after_clear(t: TabView) -> TabView {
    if t.response is Idle {
        t
    } else {
        TabView {
            generation: (t.generation + 1) as u64,
            response: ResponseState::Idle,
            response_section: ResponseSection::Body,
            notice: None,
            ..t
        }
    }
}

/// Whatever a request that was cancelled, or whose response was cleared, still
/// reports is dropped.
pub proof fn outcome_of_a_dropped_request_is_ignored(
    t: TabView,
    outcome: Result<(BodyStore, ResponseView), RequestError>,
)
    requires
        t.generation < u64::MAX,
    ensures
        t.response is InFlight ==> after_outcome(after_cancel(t), t.generation, outcome)
            == after_cancel(t),
        !(t.response is Idle) ==> after_outcome(after_clear(t), t.generation, outcome)
            == after_clear(t),
{
}

/// A second cancellation, or a second clearing, changes nothing.
pub proof fn dropping_twice_is_dropping_once(t: TabView)
    requires
        t.generation < u64::MAX,
    ensures
        after_cancel(after_cancel(t)) == after_cancel(t),
        after_clear(after_clear(t)) == after_clear(t),
{
}

} // verus!
