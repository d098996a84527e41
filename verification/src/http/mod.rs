//! From a request draft to what is sent, and from what is received to a stored
//! body.
use crate::model::{
    BodyKind, BodyKindView, DraftView, FormField, FormFieldView, FormValue, FormValueView, KeyValue,
    KeyValueView, Method, RequestDraft,
};
use crate::strings::{
    ascii_lower, chars_of, opt_text, same_text, string_of, texts_equal_ignoring_case, trim, trimmed,
    views,
};
use crate::url::{
    build_url, pairs_view, query_pairs, url_error_text, url_outcome, used_pairs, Url, UrlView,
};
use error::{ErrorView, RequestError};
use vstd::prelude::*;
use vstd::utf8::encode_utf8;

pub mod buffer;
pub mod error;
pub mod received;
pub mod reception;
pub mod sink;

verus! {

pub const USER_AGENT_VALUE: &'static str = "GetCat/0.1.0";

/// Milliseconds after which a connection attempt is given up.
pub const CONNECT_TIMEOUT: u64 = 10000;

/// One part of a multipart body.
#[derive(Debug, PartialEq, Eq)]
pub struct FormPart {
    pub name: String,
    pub value: FormValue,
}

pub struct FormPartView {
    pub name: Seq<char>,
    pub value: FormValueView,
}

impl View for FormPart {
    type V = FormPartView;

    open spec fn view(&self) -> FormPartView {
        FormPartView { name: self.name@, value: self.value@ }
    }
}

/// The body as it is sent.
#[derive(Debug, PartialEq, Eq)]
pub enum OutboundBody {
    Empty,
    Bytes { content_type: String, data: Vec<u8> },
    /// A multipart form; its files are read while it is sent.
    Form { parts: Vec<FormPart> },
    /// A file that is read while it is sent.
    File { path: String, content_type: Option<String> },
}

pub enum OutboundView {
    Empty,
    Bytes { content_type: Seq<char>, data: Seq<u8> },
    Form { parts: Seq<FormPartView> },
    File { path: Seq<char>, content_type: Option<Seq<char>> },
}

impl View for OutboundBody {
    type V = OutboundView;

    open spec fn view(&self) -> OutboundView {
        match *self {
            OutboundBody::Empty => OutboundView::Empty,
            OutboundBody::Bytes { content_type, data } => OutboundView::Bytes {
                content_type: content_type@,
                data: data@,
            },
            OutboundBody::Form { parts } => OutboundView::Form { parts: views(parts@) },
            OutboundBody::File { path, content_type } => OutboundView::File {
                path: path@,
                content_type: opt_text(content_type),
            },
        }
    }
}

/// A request ready to be sent.
#[derive(Debug, PartialEq, Eq)]
pub struct HttpRequest {
    pub method: Method,
    pub url: Url,
    pub headers: Vec<(String, String)>,
    pub body: OutboundBody,
}

pub struct HttpRequestView {
    pub method: Method,
    pub url: UrlView,
    pub headers: Seq<(Seq<char>, Seq<char>)>,
    pub body: OutboundView,
}

impl View for HttpRequest {
    type V = HttpRequestView;

    open spec fn view(&self) -> HttpRequestView {
        HttpRequestView {
            method: self.method,
            url: self.url@,
            headers: pairs_view(self.headers@),
            body: self.body@,
        }
    }
}

/// The bytes that a header name is made of.
pub open spec fn is_token(b: u8) -> bool {
    ||| 0x30 <= b <= 0x39
    ||| 0x41 <= b <= 0x5a
    ||| 0x61 <= b <= 0x7a
    ||| b == 0x21
    ||| b == 0x23
    ||| b == 0x24
    ||| b == 0x25
    ||| b == 0x26
    ||| b == 0x27
    ||| b == 0x2a
    ||| b == 0x2b
    ||| b == 0x2d
    ||| b == 0x2e
    ||| b == 0x5e
    ||| b == 0x5f
    ||| b == 0x60
    ||| b == 0x7c
    ||| b == 0x7e
}

/// Whether bytes can name a header.
pub open spec fn header_name_ok(bytes: Seq<u8>) -> bool {
    1 <= bytes.len() <= 65535 && forall|i: int| 0 <= i < bytes.len() ==> is_token(#[trigger] bytes[i])
}

/// Whether bytes can be the value of a header: no control character but the tab.
pub open spec fn header_value_ok(bytes: Seq<u8>) -> bool {
    forall|i: int|
        0 <= i < bytes.len() ==> (#[trigger] bytes[i] >= 0x20 && bytes[i] != 0x7f) || bytes[i] == 0x09
}

/// `HeaderName::from_bytes` of the `http` crate, as `reqwest` hands it on:
/// succeeds on 1 to 65535 token bytes.
#[verifier::external_body]
fn valid_header_name(bytes: &[u8]) -> (r: bool)
    ensures
        r == header_name_ok(bytes@),
{
    reqwest::header::HeaderName::from_bytes(bytes).is_ok()
}

/// `HeaderValue::from_str` of the `http` crate, as `reqwest` hands it on:
/// succeeds where no byte is a control character other than the tab.
#[verifier::external_body]
fn valid_header_value(s: &str) -> (r: bool)
    ensures
        r == header_value_ok(encode_utf8(s@)),
{
    reqwest::header::HeaderValue::from_str(s).is_ok()
}

/// The upper-case hexadecimal digit `n`.
pub open spec fn hex_digit(n: int) -> char {
    if n < 10 {
        ('0' as int + n) as char
    } else {
        ('A' as int + n - 10) as char
    }
}

/// One byte of a form text: letters, digits and `*-._` as they are, a space as
/// `+`, anything else as `%XX`.
pub open spec fn form_byte(b: u8) -> Seq<char> {
    if 0x30 <= b <= 0x39 || 0x41 <= b <= 0x5a || 0x61 <= b <= 0x7a || b == 0x2a || b == 0x2d || b
        == 0x2e || b == 0x5f {
        seq![b as char]
    } else if b == 0x20 {
        seq!['+']
    } else {
        seq!['%', hex_digit(b as int / 16), hex_digit(b as int % 16)]
    }
}

/// Bytes as a form text.
pub open spec fn form_encoded(bytes: Seq<u8>) -> Seq<char>
    decreases bytes.len(),
{
    if bytes.len() == 0 {
        Seq::empty()
    } else {
        form_encoded(bytes.drop_last()) + form_byte(bytes.last())
    }
}

/// Pairs as a form text: `name=value`, joined with `&`.
pub open spec fn form_text(pairs: Seq<(Seq<char>, Seq<char>)>) -> Seq<char>
    decreases pairs.len(),
{
    if pairs.len() == 0 {
        Seq::empty()
    } else {
        let (k, v) = pairs.last();
        form_text(pairs.drop_last()) + (if pairs.len() > 1 {
            seq!['&']
        } else {
            Seq::empty()
        }) + form_encoded(encode_utf8(k)) + seq!['='] + form_encoded(encode_utf8(v))
    }
}

/// `form_urlencoded::Serializer` of the `url` crate, with `append_pair` for each
/// pair in turn.
#[verifier::external_body]
fn serialize_form(pairs: &Vec<(String, String)>) -> (r: String)
    ensures
        r@ == form_text(pairs_view(pairs@)),
{
    ::url::form_urlencoded::Serializer::new(String::new()).extend_pairs(pairs).finish()
}

/// Whether a header row takes part: switched on and with a name.
pub open spec fn header_used(row: KeyValueView) -> bool {
    row.enabled && trimmed(row.key).len() > 0
}

/// The headers of a request, or the first name at which a row is refused.
pub open spec fn headers_of(rows: Seq<KeyValueView>) -> Result<
    Seq<(Seq<char>, Seq<char>)>,
    Seq<char>,
>
    decreases rows.len(),
{
    if rows.len() == 0 {
        Ok(Seq::empty())
    } else {
        match headers_of(rows.drop_last()) {
            Err(name) => Err(name),
            Ok(head) => {
                let row = rows.last();
                let name = trimmed(row.key);
                let value = trimmed(row.value);
                if !header_used(row) {
                    Ok(head)
                } else if header_name_ok(encode_utf8(name)) && header_value_ok(
                    encode_utf8(value),
                ) {
                    Ok(head.push((name, value)))
                } else {
                    Err(name)
                }
            },
        }
    }
}

/// A disabled row, or one without a name, has no effect on the headers.
pub proof fn unused_headers_have_no_effect(
    a: Seq<KeyValueView>,
    row: KeyValueView,
    b: Seq<KeyValueView>,
)
    requires
        !header_used(row),
    ensures
        headers_of(a + seq![row] + b) == headers_of(a + b),
    decreases b.len(),
{
    if b.len() == 0 {
        assert((a + seq![row] + b).drop_last() =~= a);
        assert(a + b =~= a);
    } else {
        unused_headers_have_no_effect(a, row, b.drop_last());
        assert((a + seq![row] + b).drop_last() =~= a + seq![row] + b.drop_last());
        assert((a + b).drop_last() =~= a + b.drop_last());
    }
}

/// The message for a file that was not chosen.
pub open spec fn no_file() -> ErrorView {
    ErrorView::FileBody("未选择文件"@)
}

/// Whether a form field takes part: switched on and with a name.
pub open spec fn field_used(f: FormFieldView) -> bool {
    f.enabled && f.key.len() > 0
}

/// The parts of a multipart form; a used file field without a file is refused.
pub open spec fn parts_of(fields: Seq<FormFieldView>) -> Result<Seq<FormPartView>, ErrorView>
    decreases fields.len(),
{
    if fields.len() == 0 {
        Ok(Seq::empty())
    } else {
        match parts_of(fields.drop_last()) {
            Err(e) => Err(e),
            Ok(head) => {
                let f = fields.last();
                if !field_used(f) {
                    Ok(head)
                } else if f.value matches FormValueView::File { path, .. } && path.len() == 0 {
                    Err(no_file())
                } else {
                    Ok(head.push(FormPartView { name: f.key, value: f.value }))
                }
            },
        }
    }
}

/// The body as it is sent, or why it cannot be.
pub open spec fn body_of(body: BodyKindView) -> Result<OutboundView, ErrorView> {
    match body {
        BodyKindView::Empty => Ok(OutboundView::Empty),
        BodyKindView::Raw { format, text } => Ok(
            OutboundView::Bytes {
                content_type: format.spec_content_type(),
                data: encode_utf8(text),
            },
        ),
        BodyKindView::FormData { fields } => match parts_of(fields) {
            Ok(parts) => Ok(OutboundView::Form { parts }),
            Err(e) => Err(e),
        },
        BodyKindView::FormUrlEncoded { fields } => Ok(
            OutboundView::Bytes {
                content_type: "application/x-www-form-urlencoded"@,
                data: encode_utf8(form_text(used_pairs(fields))),
            },
        ),
        BodyKindView::File { path, content_type } => if path.len() == 0 {
            Err(no_file())
        } else {
            Ok(OutboundView::File { path, content_type })
        },
    }
}

/// The request that a draft describes, or the first thing wrong with it: its URL,
/// then its headers, then its body.
pub open spec fn prepared(d: DraftView) -> Result<HttpRequestView, ErrorView> {
    match url_outcome(d) {
        Err(e) => Err(ErrorView::InvalidUrl(url_error_text(e))),
        Ok(url) => match headers_of(d.headers) {
            Err(name) => Err(ErrorView::InvalidHeader(name)),
            Ok(headers) => match body_of(d.body) {
                Err(e) => Err(e),
                Ok(body) => Ok(HttpRequestView { method: d.method, url, headers, body }),
            },
        },
    }
}

/// The view of a preparation.
pub open spec fn request_result(r: Result<HttpRequest, RequestError>) -> Result<
    HttpRequestView,
    ErrorView,
> {
    match r {
        Ok(req) => Ok(req@),
        Err(e) => Err(e@),
    }
}

/// Checks and trims the headers that take part.
pub fn prepare_headers(rows: &Vec<KeyValue>) -> (r: Result<Vec<(String, String)>, RequestError>)
    ensures
        match r {
            Ok(h) => headers_of(views(rows@)) == Ok::<Seq<(Seq<char>, Seq<char>)>, Seq<char>>(
                pairs_view(h@),
            ),
            Err(e) => headers_of(views(rows@)) matches Err(name) && e@
                == ErrorView::InvalidHeader(name),
        },
{
    let ghost all = views(rows@);
    let mut out: Vec<(String, String)> = Vec::new();
    let mut i: usize = 0;
    proof {
        assert(all.take(0) =~= Seq::<KeyValueView>::empty());
        assert(pairs_view(out@) =~= Seq::<(Seq<char>, Seq<char>)>::empty());
    }
    while i < rows.len()
        invariant
            all == views(rows@),
            i <= rows@.len(),
            headers_of(all.take(i as int)) == Ok::<Seq<(Seq<char>, Seq<char>)>, Seq<char>>(
                pairs_view(out@),
            ),
        decreases rows@.len() - i,
    {
        let row = &rows[i];
        proof {
            assert(all.take(i + 1).drop_last() =~= all.take(i as int));
            assert(all[i as int] == row@);
        }
        let name = trim(row.key.as_str());
        if row.enabled && !name.as_str().is_empty() {
            let value = trim(row.value.as_str());
            if !valid_header_name(name.as_str().as_bytes()) || !valid_header_value(
                value.as_str(),
            ) {
                proof {
                    lemma_header_error(all, i + 1);
                }
                return Err(RequestError::InvalidHeader(name));
            }
            let ghost done = out@;
            let ghost pair = (name@, value@);
            out.push((name, value));
            proof {
                assert(pairs_view(out@) =~= pairs_view(done).push(pair));
            }
        }
        i = i + 1;
    }
    proof {
        assert(all.take(i as int) =~= all);
    }
    Ok(out)
}

proof fn lemma_header_error(rows: Seq<KeyValueView>, k: int)
    requires
        0 <= k <= rows.len(),
        headers_of(rows.take(k)) is Err,
    ensures
        headers_of(rows) == headers_of(rows.take(k)),
    decreases rows.len(),
{
    if k == rows.len() {
        assert(rows.take(k) =~= rows);
    } else {
        assert(rows.drop_last().take(k) =~= rows.take(k));
        lemma_header_error(rows.drop_last(), k);
    }
}

proof fn lemma_part_error(fields: Seq<FormFieldView>, k: int)
    requires
        0 <= k <= fields.len(),
        parts_of(fields.take(k)) is Err,
    ensures
        parts_of(fields) == parts_of(fields.take(k)),
    decreases fields.len(),
{
    if k == fields.len() {
        assert(fields.take(k) =~= fields);
    } else {
        assert(fields.drop_last().take(k) =~= fields.take(k));
        lemma_part_error(fields.drop_last(), k);
    }
}

fn prepare_parts(fields: &Vec<FormField>) -> (r: Result<Vec<FormPart>, RequestError>)
    ensures
        match r {
            Ok(p) => parts_of(views(fields@)) == Ok::<Seq<FormPartView>, ErrorView>(views(p@)),
            Err(e) => parts_of(views(fields@)) == Err::<Seq<FormPartView>, ErrorView>(e@),
        },
{
    let ghost all = views(fields@);
    let mut out: Vec<FormPart> = Vec::new();
    let mut i: usize = 0;
    proof {
        assert(all.take(0) =~= Seq::<FormFieldView>::empty());
        assert(views(out@) =~= Seq::<FormPartView>::empty());
    }
    while i < fields.len()
        invariant
            all == views(fields@),
            i <= fields@.len(),
            parts_of(all.take(i as int)) == Ok::<Seq<FormPartView>, ErrorView>(views(out@)),
        decreases fields@.len() - i,
    {
        let f = &fields[i];
        proof {
            assert(all.take(i + 1).drop_last() =~= all.take(i as int));
            assert(all[i as int] == f@);
        }
        if f.enabled && !f.key.as_str().is_empty() {
            let missing = match &f.value {
                FormValue::Text { .. } => false,
                FormValue::File { path, .. } => path.as_str().is_empty(),
            };
            if missing {
                proof {
                    lemma_part_error(all, i + 1);
                }
                return Err(RequestError::FileBody("未选择文件".to_owned()));
            }
            let ghost done = out@;
            let part = FormPart { name: f.key.clone(), value: f.value.clone() };
            let ghost view = part@;
            out.push(part);
            proof {
                assert(views(out@) =~= views(done).push(view));
            }
        }
        i = i + 1;
    }
    proof {
        assert(all.take(i as int) =~= all);
    }
    Ok(out)
}

fn copy_bytes(s: &str) -> (r: Vec<u8>)
    ensures
        r@ == encode_utf8(s@),
{
    s.as_bytes_vec()
}

fn prepare_body(body: &BodyKind) -> (r: Result<OutboundBody, RequestError>)
    ensures
        match r {
            Ok(b) => body_of(body@) == Ok::<OutboundView, ErrorView>(b@),
            Err(e) => body_of(body@) == Err::<OutboundView, ErrorView>(e@),
        },
{
    match body {
        BodyKind::Empty => Ok(OutboundBody::Empty),
        BodyKind::Raw { format, text } => Ok(
            OutboundBody::Bytes {
                content_type: format.content_type().to_owned(),
                data: copy_bytes(text.as_str()),
            },
        ),
        BodyKind::FormData { fields } => match prepare_parts(fields) {
            Ok(parts) => Ok(OutboundBody::Form { parts }),
            Err(e) => Err(e),
        },
        BodyKind::FormUrlEncoded { fields } => {
            let pairs = query_pairs(fields);
            let text = serialize_form(&pairs);
            Ok(
                OutboundBody::Bytes {
                    content_type: "application/x-www-form-urlencoded".to_owned(),
                    data: copy_bytes(text.as_str()),
                },
            )
        },
        BodyKind::File { path, content_type } => {
            if path.as_str().is_empty() {
                return Err(RequestError::FileBody("未选择文件".to_owned()));
            }
            Ok(
                OutboundBody::File {
                    path: path.clone(),
                    content_type: crate::model::clone_text(content_type),
                },
            )
        },
    }
}

/// Turns a draft into a request that can be sent.
pub fn prepare(draft: &RequestDraft) -> (r: Result<HttpRequest, RequestError>)
    ensures
        request_result(r) == prepared(draft@),
{
    let url = match build_url(draft) {
        Ok(url) => url,
        Err(e) => return Err(RequestError::InvalidUrl(e.message())),
    };
    let headers = match prepare_headers(&draft.headers) {
        Ok(headers) => headers,
        Err(e) => return Err(e),
    };
    let body = match prepare_body(&draft.body) {
        Ok(body) => body,
        Err(e) => return Err(e),
    };
    Ok(HttpRequest { method: draft.method, url, headers, body })
}

/// Whether two header names are the same, in any case.
pub open spec fn same_header(a: Seq<char>, b: Seq<char>) -> bool {
    ascii_lower(a) == ascii_lower(b)
}

/// The headers that follow from the body and the connection, and are therefore
/// never taken from the user.
pub open spec fn is_computed(name: Seq<char>) -> bool {
    same_header(name, "content-length"@) || same_header(name, "transfer-encoding"@) || same_header(
        name,
        "host"@,
    )
}

/// The headers of the user that are sent.
pub open spec fn forwarded(headers: Seq<(Seq<char>, Seq<char>)>) -> Seq<(Seq<char>, Seq<char>)>
    decreases headers.len(),
{
    if headers.len() == 0 {
        Seq::empty()
    } else {
        let head = forwarded(headers.drop_last());
        if is_computed(headers.last().0) {
            head
        } else {
            head.push(headers.last())
        }
    }
}

/// Whether the user has set a content type.
pub open spec fn has_content_type(headers: Seq<(Seq<char>, Seq<char>)>) -> bool {
    exists|i: int| 0 <= i < headers.len() && same_header((#[trigger] headers[i]).0, "content-type"@)
}

/// The content type that a body brings along.
pub open spec fn own_content_type(body: OutboundView) -> Option<Seq<char>> {
    match body {
        OutboundView::Empty => None,
        OutboundView::Bytes { content_type, .. } => Some(content_type),
        OutboundView::Form { .. } => None,
        OutboundView::File { content_type, .. } => content_type,
    }
}

/// The headers that are sent: those of the user, and the content type of the body
/// where the user has set none.
pub open spec fn wire_headers_of(req: HttpRequestView) -> Seq<(Seq<char>, Seq<char>)> {
    let own = own_content_type(req.body);
    if own is Some && !has_content_type(req.headers) {
        forwarded(req.headers).push(("content-type"@, own->0))
    } else {
        forwarded(req.headers)
    }
}

/// No header that follows from the body or the connection is taken from the user.
pub proof fn computed_headers_are_not_forwarded(headers: Seq<(Seq<char>, Seq<char>)>)
    ensures
        forall|i: int|
            0 <= i < forwarded(headers).len() ==> !is_computed(
                (#[trigger] forwarded(headers)[i]).0,
            ),
    decreases headers.len(),
{
    if headers.len() > 0 {
        computed_headers_are_not_forwarded(headers.drop_last());
        let head = forwarded(headers.drop_last());
        assert forall|i: int| 0 <= i < forwarded(headers).len() implies !is_computed(
            (#[trigger] forwarded(headers)[i]).0,
        ) by {
            if i < head.len() {
                assert(forwarded(headers)[i] == head[i]);
            }
        }
    }
}

/// A content type of the user is kept, and the body adds none of its own.
pub proof fn user_content_type_wins(req: HttpRequestView)
    requires
        has_content_type(req.headers),
    ensures
        wire_headers_of(req) == forwarded(req.headers),
{
}

fn is_computed_header(name: &str) -> (r: bool)
    ensures
        r == is_computed(name@),
{
    texts_equal_ignoring_case(name, "content-length") || texts_equal_ignoring_case(
        name,
        "transfer-encoding",
    ) || texts_equal_ignoring_case(name, "host")
}

/// Collects the headers that are sent.
pub fn wire_headers(req: &HttpRequest) -> (r: Vec<(String, String)>)
    ensures
        pairs_view(r@) == wire_headers_of(req@),
{
    let ghost all = req@.headers;
    let mut out: Vec<(String, String)> = Vec::new();
    let mut found = false;
    let mut i: usize = 0;
    proof {
        assert(all.take(0) =~= Seq::<(Seq<char>, Seq<char>)>::empty());
        assert(pairs_view(out@) =~= Seq::<(Seq<char>, Seq<char>)>::empty());
    }
    while i < req.headers.len()
        invariant
            all == pairs_view(req.headers@),
            i <= req.headers@.len(),
            pairs_view(out@) == forwarded(all.take(i as int)),
            found == exists|k: int|
                0 <= k < i && same_header((#[trigger] all[k]).0, "content-type"@),
        decreases req.headers@.len() - i,
    {
        let h = &req.headers[i];
        proof {
            assert(all.take(i + 1).drop_last() =~= all.take(i as int));
            assert(all[i as int] == (h.0@, h.1@));
        }
        if texts_equal_ignoring_case(h.0.as_str(), "content-type") {
            found = true;
        }
        if !is_computed_header(h.0.as_str()) {
            let ghost done = out@;
            out.push((h.0.clone(), h.1.clone()));
            proof {
                assert(pairs_view(out@) =~= pairs_view(done).push((h.0@, h.1@)));
            }
        }
        i = i + 1;
    }
    proof {
        assert(all.take(i as int) =~= all);
    }
    let own = match &req.body {
        OutboundBody::Empty => None,
        OutboundBody::Bytes { content_type, .. } => Some(content_type.clone()),
        OutboundBody::Form { .. } => None,
        OutboundBody::File { content_type, .. } => crate::model::clone_text(content_type),
    };
    proof {
        assert(opt_text(own) == own_content_type(req.body@));
    }
    if !found {
        if let Some(ct) = own {
            let ghost done = out@;
            let ghost view = ct@;
            out.push(("content-type".to_owned(), ct));
            proof {
                assert(pairs_view(out@) =~= pairs_view(done).push(("content-type"@, view)));
            }
        }
    }
    out
}

/// The last offset below `n` at which `c` stands in `s`.
pub open spec fn last_index(s: Seq<char>, c: char, n: int) -> Option<int>
    decreases n,
{
    if n <= 0 || n > s.len() {
        None
    } else if s[n - 1] == c {
        Some(n - 1)
    } else {
        last_index(s, c, n - 1)
    }
}

/// A path without the separators at its end, and without a dot behind one, which
/// names nothing more.
pub open spec fn plain_path(path: Seq<char>) -> Seq<char>
    decreases path.len(),
{
    let n = path.len() as int;
    if n > 0 && (path[n - 1] == '/' || (n > 1 && path[n - 1] == '.' && path[n - 2] == '/')) {
        plain_path(path.drop_last())
    } else {
        path
    }
}

/// The last component of a path, by the separator `/`.
pub open spec fn file_name(path: Seq<char>) -> Seq<char> {
    let plain = plain_path(path);
    match last_index(plain, '/', plain.len() as int) {
        Some(i) => plain.skip(i + 1),
        None => plain,
    }
}

/// The extension of a path: what follows the last dot of its last component,
/// where something stands before that dot.
pub open spec fn extension(path: Seq<char>) -> Option<Seq<char>> {
    let name = file_name(path);
    match last_index(name, '.', name.len() as int) {
        Some(i) => if i > 0 && name != seq!['.', '.'] {
            Some(name.skip(i + 1))
        } else {
            None
        },
        None => None,
    }
}

/// The content type that an extension stands for.
pub open spec fn content_type_of(ext: Option<Seq<char>>) -> Seq<char> {
    match ext {
        None => "application/octet-stream"@,
        Some(e) => {
            let low = ascii_lower(e);
            if low == "json"@ {
                "application/json"@
            } else if low == "xml"@ {
                "application/xml"@
            } else if low == "txt"@ || low == "log"@ || low == "md"@ {
                "text/plain"@
            } else if low == "csv"@ {
                "text/csv"@
            } else if low == "html"@ || low == "htm"@ {
                "text/html"@
            } else if low == "png"@ {
                "image/png"@
            } else if low == "jpg"@ || low == "jpeg"@ {
                "image/jpeg"@
            } else if low == "gif"@ {
                "image/gif"@
            } else if low == "pdf"@ {
                "application/pdf"@
            } else if low == "zip"@ {
                "application/zip"@
            } else {
                "application/octet-stream"@
            }
        },
    }
}

fn find_last(s: &Vec<char>, c: char, from: usize) -> (r: Option<usize>)
    requires
        from <= s@.len(),
    ensures
        match r {
            Some(i) => from <= i < s@.len() && last_index(s@.skip(from as int), c, s@.len() - from)
                == Some(i - from),
            None => last_index(s@.skip(from as int), c, s@.len() - from) is None,
        },
{
    let ghost part = s@.skip(from as int);
    let mut n: usize = s.len();
    while n > from
        invariant
            from <= n <= s@.len(),
            part == s@.skip(from as int),
            last_index(part, c, s@.len() - from) == last_index(part, c, n - from),
        decreases n,
    {
        proof {
            assert(part[n - from - 1] == s@[n - 1]);
        }
        if s[n - 1] == c {
            return Some(n - 1);
        }
        n = n - 1;
    }
    None
}

fn plain_chars(path: &str) -> (r: Vec<char>)
    ensures
        r@ == plain_path(path@),
{
    let mut chars = chars_of(path);
    let mut n: usize = chars.len();
    proof {
        assert(chars@.take(n as int) =~= path@);
    }
    while n > 0 && (chars[n - 1] == '/' || (n > 1 && chars[n - 1] == '.' && chars[n - 2] == '/'))
        invariant
            n <= chars@.len(),
            plain_path(chars@.take(n as int)) == plain_path(path@),
        decreases n,
    {
        proof {
            assert(chars@.take(n as int).drop_last() =~= chars@.take(n - 1));
        }
        n = n - 1;
    }
    proof {
        assert(chars@.take(n as int) == plain_path(path@));
    }
    chars.truncate(n);
    chars
}

pub(crate) fn path_extension(path: &str) -> (r: Option<String>)
    ensures
        opt_text(r) == extension(path@),
{
    let chars = plain_chars(path);
    let total = chars.len();
    proof {
        assert(chars@.skip(0) =~= chars@);
    }
    let start: usize = match find_last(&chars, '/', 0) {
        Some(i) => i + 1,
        None => 0,
    };
    let ghost name = chars@.skip(start as int);
    proof {
        assert(name == file_name(path@));
    }
    let n = total - start;
    match find_last(&chars, '.', start) {
        None => None,
        Some(i) => {
            if i == start || (n == 2 && chars[start] == '.' && chars[start + 1] == '.') {
                proof {
                    if i != start {
                        assert(name[0] == '.' && name[1] == '.');
                        assert(name =~= seq!['.', '.']);
                    }
                }
                return None;
            }
            proof {
                assert(name != seq!['.', '.']) by {
                    if name == seq!['.', '.'] {
                        assert(name[0] == chars@[start as int]);
                        assert(name[1] == chars@[start + 1]);
                    }
                }
                assert(chars@.subrange(i + 1, chars@.len() as int) =~= name.skip(i - start + 1));
            }
            Some(string_of(chars.as_slice(), i + 1, chars.len()))
        },
    }
}

/// Guesses the content type of a file by its extension.
pub fn guess_content_type(path: &str) -> (r: &'static str)
    ensures
        r@ == content_type_of(extension(path@)),
{
    let ext = match path_extension(path) {
        Some(e) => {
            let low = crate::strings::lower_chars(e.as_str());
            proof {
                assert(low@.subrange(0, low@.len() as int) =~= low@);
            }
            string_of(low.as_slice(), 0, low.len())
        },
        None => return "application/octet-stream",
    };
    let e = ext.as_str();
    if same_text(e, "json") {
        "application/json"
    } else if same_text(e, "xml") {
        "application/xml"
    } else if same_text(e, "txt") || same_text(e, "log") || same_text(e, "md") {
        "text/plain"
    } else if same_text(e, "csv") {
        "text/csv"
    } else if same_text(e, "html") || same_text(e, "htm") {
        "text/html"
    } else if same_text(e, "png") {
        "image/png"
    } else if same_text(e, "jpg") || same_text(e, "jpeg") {
        "image/jpeg"
    } else if same_text(e, "gif") {
        "image/gif"
    } else if same_text(e, "pdf") {
        "application/pdf"
    } else if same_text(e, "zip") {
        "application/zip"
    } else {
        "application/octet-stream"
    }
}

/// The error of a file that cannot be sent.
pub fn file_err(path: &str, reason: &str) -> (r: RequestError)
    ensures
        r@ == ErrorView::FileBody(path@ + "："@ + reason@),
{
    let mut out = path.to_owned();
    crate::strings::push_text(&mut out, "：");
    crate::strings::push_text(&mut out, reason);
    RequestError::FileBody(out)
}

/// The error of a body that cannot be written to disk.
pub fn spill_err(reason: &str) -> (r: RequestError)
    ensures
        r@ == ErrorView::Spill(reason@),
{
    RequestError::Spill(reason.to_owned())
}

} // verus!
