//! How values are named to the user. The kind of an error is put into words; what
//! a library, a path or a header says about it is passed on as it is.
use crate::body::tier::{ViewTier, EDITOR_MAX_BYTES, EDITOR_MAX_LINES};
use crate::http::error::{is_background, ErrorView, RequestError, PREPARE_PANIC_PREFIX};
use crate::http::sink::{HEAD_BYTES, MAX_BODY_BYTES};
use crate::model::ThemePref;
use crate::response::ContentKind;
use crate::strings::{chars_of, decimal, opt_text, push_decimal, push_text, same_text, string_of};
use vstd::prelude::*;

verus! {

/// `s` without the colons and spaces at its front.
pub open spec fn without_separator(s: Seq<char>) -> Seq<char>
    decreases s.len(),
{
    if s.len() > 0 && (s[0] == ':' || s[0] == ' ') {
        without_separator(s.skip(1))
    } else {
        s
    }
}

/// The kind of an error: a failed background step is told from a network error.
pub open spec fn kind_text(e: ErrorView) -> Seq<char> {
    if is_background(e) {
        "Background processing failed"@
    } else {
        match e {
            ErrorView::InvalidUrl(_) => "Invalid URL"@,
            ErrorView::InvalidHeader(_) => "Invalid header"@,
            ErrorView::Unsupported(_) => "Not supported"@,
            ErrorView::Dns(_) => "DNS lookup failed"@,
            ErrorView::ConnectionRefused(_) => "Connection refused"@,
            ErrorView::Tls(_) => "TLS error"@,
            ErrorView::Timeout => "Timed out"@,
            ErrorView::Spill(_) => "Writing to disk failed"@,
            ErrorView::FileBody(_) => "Invalid file"@,
            ErrorView::Cancelled => "Cancelled"@,
            ErrorView::Other(_) => "Network error"@,
        }
    }
}

/// The detail of an error: the text that it carries, without the prefix of a
/// failed background step; a time-out and a cancellation carry none and have
/// words of their own.
pub open spec fn detail_text(e: ErrorView) -> Seq<char> {
    match e {
        ErrorView::InvalidUrl(s) => s,
        ErrorView::InvalidHeader(s) => s,
        ErrorView::Unsupported(s) => s,
        ErrorView::Dns(s) => s,
        ErrorView::ConnectionRefused(s) => s,
        ErrorView::Tls(s) => s,
        ErrorView::Spill(s) => s,
        ErrorView::FileBody(s) => s,
        ErrorView::Other(s) => if is_background(e) {
            without_separator(s.skip(PREPARE_PANIC_PREFIX@.len() as int))
        } else {
            s
        },
        ErrorView::Timeout => "The connection timed out"@,
        ErrorView::Cancelled => kind_text(e),
    }
}

/// One line about an error: its kind, and its detail where there is any.
pub open spec fn error_line(e: ErrorView) -> Seq<char> {
    if detail_text(e).len() == 0 {
        kind_text(e)
    } else {
        kind_text(e) + ": "@ + detail_text(e)
    }
}

fn background_rest(s: &str) -> (r: Option<String>)
    ensures
        match r {
            Some(rest) => is_background(ErrorView::Other(s@)) && rest@ == without_separator(
                s@.skip(PREPARE_PANIC_PREFIX@.len() as int),
            ),
            None => !is_background(ErrorView::Other(s@)),
        },
{
    let chars = chars_of(s);
    let prefix = chars_of(PREPARE_PANIC_PREFIX);
    let n = prefix.len();
    if chars.len() < n {
        return None;
    }
    let head = string_of(chars.as_slice(), 0, n);
    proof {
        assert(chars@.subrange(0, n as int) =~= s@.take(n as int));
    }
    if !same_text(head.as_str(), PREPARE_PANIC_PREFIX) {
        return None;
    }
    let mut i: usize = n;
    while i < chars.len() && (chars[i] == ':' || chars[i] == ' ')
        invariant
            n <= i <= chars@.len(),
            without_separator(chars@.skip(n as int)) == without_separator(chars@.skip(i as int)),
        decreases chars@.len() - i,
    {
        proof {
            assert(chars@.skip(i as int).skip(1) =~= chars@.skip(i + 1));
        }
        i = i + 1;
    }
    proof {
        assert(chars@.subrange(i as int, chars@.len() as int) =~= chars@.skip(i as int));
    }
    Some(string_of(chars.as_slice(), i, chars.len()))
}

/// The kind of an error.
pub fn error_kind(e: &RequestError) -> (r: &'static str)
    ensures
        r@ == kind_text(e@),
{
    match e {
        RequestError::InvalidUrl(_) => "Invalid URL",
        RequestError::InvalidHeader(_) => "Invalid header",
        RequestError::Unsupported(_) => "Not supported",
        RequestError::Dns(_) => "DNS lookup failed",
        RequestError::ConnectionRefused(_) => "Connection refused",
        RequestError::Tls(_) => "TLS error",
        RequestError::Timeout => "Timed out",
        RequestError::Spill(_) => "Writing to disk failed",
        RequestError::FileBody(_) => "Invalid file",
        RequestError::Cancelled => "Cancelled",
        RequestError::Other(s) => match background_rest(s.as_str()) {
            Some(_) => "Background processing failed",
            None => "Network error",
        },
    }
}

/// The detail of an error, for display next to its kind.
pub fn error_detail(e: &RequestError) -> (r: String)
    ensures
        r@ == detail_text(e@),
{
    match e {
        RequestError::InvalidUrl(s) => s.clone(),
        RequestError::InvalidHeader(s) => s.clone(),
        RequestError::Unsupported(s) => s.clone(),
        RequestError::Dns(s) => s.clone(),
        RequestError::ConnectionRefused(s) => s.clone(),
        RequestError::Tls(s) => s.clone(),
        RequestError::Spill(s) => s.clone(),
        RequestError::FileBody(s) => s.clone(),
        RequestError::Other(s) => match background_rest(s.as_str()) {
            Some(rest) => rest,
            None => s.clone(),
        },
        RequestError::Timeout => "The connection timed out".to_owned(),
        RequestError::Cancelled => error_kind(e).to_owned(),
    }
}

/// One line about a request that is refused before it is sent.
pub fn prepare_error_line(e: &RequestError) -> (r: String)
    ensures
        r@ == error_line(e@),
{
    let mut out = error_kind(e).to_owned();
    let detail = error_detail(e);
    if detail.as_str().unicode_len() > 0 {
        push_text(&mut out, ": ");
        push_text(&mut out, detail.as_str());
    }
    out
}

pub open spec fn kind_name(kind: ContentKind) -> Seq<char> {
    match kind {
        ContentKind::Json => "JSON"@,
        ContentKind::Xml => "XML"@,
        ContentKind::Html => "HTML"@,
        ContentKind::Text => "Text"@,
        ContentKind::Binary => "Binary"@,
    }
}

/// What a body holds.
pub fn content_kind_label(kind: ContentKind) -> (r: &'static str)
    ensures
        r@ == kind_name(kind),
{
    match kind {
        ContentKind::Json => "JSON",
        ContentKind::Xml => "XML",
        ContentKind::Html => "HTML",
        ContentKind::Text => "Text",
        ContentKind::Binary => "Binary",
    }
}

/// A limit in whole mebibytes.
pub open spec fn mib_text(bytes: nat) -> Seq<char> {
    decimal(bytes / 1048576) + " MB"@
}

/// A limit in whole mebibytes.
pub fn mib_label(bytes: u64) -> (r: String)
    ensures
        r@ == mib_text(bytes as nat),
{
    let mut out = String::new();
    push_decimal(&mut out, (bytes / 1048576) as u128);
    push_text(&mut out, " MB");
    proof {
        assert(out@ =~= mib_text(bytes as nat));
    }
    out
}

/// What is remarked on the way in which a body is shown.
pub open spec fn notice_text(tier: ViewTier) -> Option<Seq<char>> {
    match tier {
        ViewTier::Editor => None,
        ViewTier::Virtual => Some(
            "Over "@ + mib_text(EDITOR_MAX_BYTES as nat) + " or "@ + decimal(
                EDITOR_MAX_LINES as nat,
            ) + " lines: shown as plain text"@,
        ),
        ViewTier::Preview => Some(
            "Over "@ + mib_text(MAX_BODY_BYTES as nat)
                + ": written to a temporary file, only the first "@ + mib_text(HEAD_BYTES as nat)
                + " is shown"@,
        ),
    }
}

/// What is remarked on the way in which a body is shown; the editor needs no
/// remark. The numbers are those by which the way is chosen.
pub fn tier_notice(tier: ViewTier) -> (r: Option<String>)
    ensures
        opt_text(r) == notice_text(tier),
{
    let mut out = "Over ".to_owned();
    match tier {
        ViewTier::Editor => {
            return None;
        },
        ViewTier::Virtual => {
            push_text(&mut out, mib_label(EDITOR_MAX_BYTES as u64).as_str());
            push_text(&mut out, " or ");
            push_decimal(&mut out, EDITOR_MAX_LINES as u128);
            push_text(&mut out, " lines: shown as plain text");
        },
        ViewTier::Preview => {
            push_text(&mut out, mib_label(MAX_BODY_BYTES).as_str());
            push_text(&mut out, ": written to a temporary file, only the first ");
            push_text(&mut out, mib_label(HEAD_BYTES as u64).as_str());
            push_text(&mut out, " is shown");
        },
    }
    Some(out)
}

/// The name of a choice of colours.
pub fn theme_label(pref: ThemePref) -> (r: &'static str)
    ensures
        r@ == (match pref {
            ThemePref::System => "System"@,
            ThemePref::Light => "Light"@,
            ThemePref::Dark => "Dark"@,
        }),
{
    match pref {
        ThemePref::System => "System",
        ThemePref::Light => "Light",
        ThemePref::Dark => "Dark",
    }
}

/// Whatever a library says about an error is passed on: no two errors of one kind
/// are described alike unless they carry the same text.
pub proof fn details_are_passed_on(a: ErrorView, b: ErrorView)
    requires
        !is_background(a),
        !is_background(b),
        kind_text(a) == kind_text(b),
        detail_text(a) == detail_text(b),
    ensures
        a == b,
{
    reveal_strlit("Invalid URL");
    reveal_strlit("Invalid header");
    reveal_strlit("Not supported");
    reveal_strlit("DNS lookup failed");
    reveal_strlit("Connection refused");
    reveal_strlit("TLS error");
    reveal_strlit("Timed out");
    reveal_strlit("Writing to disk failed");
    reveal_strlit("Invalid file");
    reveal_strlit("Cancelled");
    reveal_strlit("Network error");
    let n = kind_text(a).len();
    let second = kind_text(a)[1];
    assert(n == kind_text(b).len() && second == kind_text(b)[1]);
    assert(a is Timeout <==> n == 9 && second == 'i');
    assert(b is Timeout <==> n == 9 && second == 'i');
}

} // verus!
