//! What can go wrong with a request, sorted into kinds that a user understands.
use crate::strings::{ascii_lower, chars_of, find_chars, first_index, push_text, views};
use vstd::prelude::*;

verus! {

#[derive(Debug, PartialEq, Eq)]
pub enum RequestError {
    InvalidUrl(String),
    InvalidHeader(String),
    Unsupported(String),
    Dns(String),
    ConnectionRefused(String),
    Tls(String),
    Timeout,
    /// The body could not be written to disk.
    Spill(String),
    /// The file to be sent could not be read.
    FileBody(String),
    Cancelled,
    Other(String),
}

pub enum ErrorView {
    InvalidUrl(Seq<char>),
    InvalidHeader(Seq<char>),
    Unsupported(Seq<char>),
    Dns(Seq<char>),
    ConnectionRefused(Seq<char>),
    Tls(Seq<char>),
    Timeout,
    Spill(Seq<char>),
    FileBody(Seq<char>),
    Cancelled,
    Other(Seq<char>),
}

impl View for RequestError {
    type V = ErrorView;

    open spec fn view(&self) -> ErrorView {
        match *self {
            RequestError::InvalidUrl(s) => ErrorView::InvalidUrl(s@),
            RequestError::InvalidHeader(s) => ErrorView::InvalidHeader(s@),
            RequestError::Unsupported(s) => ErrorView::Unsupported(s@),
            RequestError::Dns(s) => ErrorView::Dns(s@),
            RequestError::ConnectionRefused(s) => ErrorView::ConnectionRefused(s@),
            RequestError::Tls(s) => ErrorView::Tls(s@),
            RequestError::Timeout => ErrorView::Timeout,
            RequestError::Spill(s) => ErrorView::Spill(s@),
            RequestError::FileBody(s) => ErrorView::FileBody(s@),
            RequestError::Cancelled => ErrorView::Cancelled,
            RequestError::Other(s) => ErrorView::Other(s@),
        }
    }
}

impl Clone for RequestError {
    fn clone(&self) -> (r: RequestError)
        ensures
            r@ == self@,
    {
        match self {
            RequestError::InvalidUrl(s) => RequestError::InvalidUrl(s.clone()),
            RequestError::InvalidHeader(s) => RequestError::InvalidHeader(s.clone()),
            RequestError::Unsupported(s) => RequestError::Unsupported(s.clone()),
            RequestError::Dns(s) => RequestError::Dns(s.clone()),
            RequestError::ConnectionRefused(s) => RequestError::ConnectionRefused(s.clone()),
            RequestError::Tls(s) => RequestError::Tls(s.clone()),
            RequestError::Timeout => RequestError::Timeout,
            RequestError::Spill(s) => RequestError::Spill(s.clone()),
            RequestError::FileBody(s) => RequestError::FileBody(s.clone()),
            RequestError::Cancelled => RequestError::Cancelled,
            RequestError::Other(s) => RequestError::Other(s.clone()),
        }
    }
}

/// What the message of a failed background step starts with.
pub const PREPARE_PANIC_PREFIX: &'static str = "后台处理异常";

pub open spec fn error_label(e: ErrorView) -> Seq<char> {
    match e {
        ErrorView::InvalidUrl(_) => "URL 无效"@,
        ErrorView::InvalidHeader(_) => "Header 无效"@,
        ErrorView::Unsupported(_) => "暂不支持"@,
        ErrorView::Dns(_) => "DNS 失败"@,
        ErrorView::ConnectionRefused(_) => "连接被拒绝"@,
        ErrorView::Tls(_) => "TLS 错误"@,
        ErrorView::Timeout => "超时"@,
        ErrorView::Spill(_) => "落盘失败"@,
        ErrorView::FileBody(_) => "文件无效"@,
        ErrorView::Cancelled => "已取消"@,
        ErrorView::Other(_) => "网络错误"@,
    }
}

/// The full message of an error.
pub open spec fn error_text(e: ErrorView) -> Seq<char> {
    match e {
        ErrorView::InvalidUrl(s) => "无效的 URL："@ + s,
        ErrorView::InvalidHeader(s) => "非法的 Header："@ + s,
        ErrorView::Unsupported(s) => s,
        ErrorView::Dns(s) => "DNS 解析失败："@ + s,
        ErrorView::ConnectionRefused(s) => "连接被拒绝："@ + s,
        ErrorView::Tls(s) => "TLS 错误："@ + s,
        ErrorView::Timeout => "连接超时"@,
        ErrorView::Spill(s) => "写入临时文件失败："@ + s,
        ErrorView::FileBody(s) => "文件 Body 无效："@ + s,
        ErrorView::Cancelled => "已取消"@,
        ErrorView::Other(s) => "网络错误："@ + s,
    }
}

fn labelled(label: &str, detail: &str) -> (r: String)
    ensures
        r@ == label@ + detail@,
{
    let mut out = label.to_owned();
    push_text(&mut out, detail);
    out
}

impl RequestError {
    /// A short label of the kind.
    pub fn kind_label(&self) -> (r: &'static str)
        ensures
            r@ == error_label(self@),
    {
        match self {
            RequestError::InvalidUrl(_) => "URL 无效",
            RequestError::InvalidHeader(_) => "Header 无效",
            RequestError::Unsupported(_) => "暂不支持",
            RequestError::Dns(_) => "DNS 失败",
            RequestError::ConnectionRefused(_) => "连接被拒绝",
            RequestError::Tls(_) => "TLS 错误",
            RequestError::Timeout => "超时",
            RequestError::Spill(_) => "落盘失败",
            RequestError::FileBody(_) => "文件无效",
            RequestError::Cancelled => "已取消",
            RequestError::Other(_) => "网络错误",
        }
    }

    /// The full message.
    pub fn message(&self) -> (r: String)
        ensures
            r@ == error_text(self@),
    {
        match self {
            RequestError::InvalidUrl(s) => labelled("无效的 URL：", s.as_str()),
            RequestError::InvalidHeader(s) => labelled("非法的 Header：", s.as_str()),
            RequestError::Unsupported(s) => s.clone(),
            RequestError::Dns(s) => labelled("DNS 解析失败：", s.as_str()),
            RequestError::ConnectionRefused(s) => labelled("连接被拒绝：", s.as_str()),
            RequestError::Tls(s) => labelled("TLS 错误：", s.as_str()),
            RequestError::Timeout => "连接超时".to_owned(),
            RequestError::Spill(s) => labelled("写入临时文件失败：", s.as_str()),
            RequestError::FileBody(s) => labelled("文件 Body 无效：", s.as_str()),
            RequestError::Cancelled => "已取消".to_owned(),
            RequestError::Other(s) => labelled("网络错误：", s.as_str()),
        }
    }
}

/// Texts joined with `": "`.
pub open spec fn joined(parts: Seq<Seq<char>>) -> Seq<char>
    decreases parts.len(),
{
    if parts.len() == 0 {
        Seq::empty()
    } else if parts.len() == 1 {
        parts[0]
    } else {
        joined(parts.drop_last()) + seq![':', ' '] + parts.last()
    }
}

/// The message of an error followed by those of its causes.
pub fn error_chain(parts: &[String]) -> (r: String)
    ensures
        r@ == joined(views(parts@)),
{
    let ghost all = views(parts@);
    let mut out = String::new();
    let mut i: usize = 0;
    proof {
        assert(all.take(0) =~= Seq::<Seq<char>>::empty());
    }
    while i < parts.len()
        invariant
            all == views(parts@),
            i <= parts@.len(),
            out@ == joined(all.take(i as int)),
        decreases parts@.len() - i,
    {
        proof {
            assert(all.take(i + 1).drop_last() =~= all.take(i as int));
            assert(all.take(i + 1).last() == parts@[i as int]@);
        }
        let ghost before = out@;
        if i > 0 {
            out.push(':');
            out.push(' ');
        }
        push_text(&mut out, parts[i].as_str());
        proof {
            assert(out@ =~= joined(all.take(i + 1)));
        }
        i = i + 1;
    }
    proof {
        assert(all.take(i as int) =~= all);
    }
    out
}

/// Whether `word` stands in `text`.
pub open spec fn mentions(text: Seq<char>, word: Seq<char>) -> bool {
    first_index(text, word, 0) is Some
}

/// The kind of a transport error, by its time-out mark and its chain of messages.
/// The messages carry no URL, so what a URL holds does not matter.
pub open spec fn classified(timed_out: bool, chain: Seq<char>) -> ErrorView {
    let low = ascii_lower(chain);
    if timed_out {
        ErrorView::Timeout
    } else if mentions(low, "certificate"@) || mentions(low, "tls"@) || mentions(low, "handshake"@) {
        ErrorView::Tls(chain)
    } else if mentions(low, "dns"@) || mentions(low, "lookup"@) || mentions(low, "resolve"@)
        || mentions(low, "nodename"@) || mentions(low, "name or service not known"@) {
        ErrorView::Dns(chain)
    } else if mentions(low, "refused"@) {
        ErrorView::ConnectionRefused(chain)
    } else {
        ErrorView::Other(chain)
    }
}

fn mentions_word(text: &Vec<char>, word: &str) -> (r: bool)
    requires
        word@.len() > 0,
    ensures
        r == mentions(text@, word@),
{
    let w = chars_of(word);
    find_chars(text.as_slice(), w.as_slice(), 0).is_some()
}

/// Sorts a transport error. `chain` is its message and those of its causes,
/// without the URL.
pub fn classify(timed_out: bool, chain: String) -> (r: RequestError)
    ensures
        r@ == classified(timed_out, chain@),
{
    if timed_out {
        return RequestError::Timeout;
    }
    let low = crate::strings::lower_chars(chain.as_str());
    proof {
        reveal_strlit("certificate");
        reveal_strlit("tls");
        reveal_strlit("handshake");
        reveal_strlit("dns");
        reveal_strlit("lookup");
        reveal_strlit("resolve");
        reveal_strlit("nodename");
        reveal_strlit("name or service not known");
        reveal_strlit("refused");
    }
    if mentions_word(&low, "certificate") || mentions_word(&low, "tls") || mentions_word(
        &low,
        "handshake",
    ) {
        return RequestError::Tls(chain);
    }
    if mentions_word(&low, "dns") || mentions_word(&low, "lookup") || mentions_word(&low, "resolve")
        || mentions_word(&low, "nodename") || mentions_word(&low, "name or service not known") {
        return RequestError::Dns(chain);
    }
    if mentions_word(&low, "refused") {
        return RequestError::ConnectionRefused(chain);
    }
    RequestError::Other(chain)
}

/// Whether an error is a failed background step and no network error.
pub open spec fn is_background(e: ErrorView) -> bool {
    e matches ErrorView::Other(s) && PREPARE_PANIC_PREFIX@.len() <= s.len() && s.take(
        PREPARE_PANIC_PREFIX@.len() as int,
    ) == PREPARE_PANIC_PREFIX@
}

/// The error of a background step that panicked with `message`.
pub fn background_failure(message: &str) -> (r: RequestError)
    ensures
        r@ == ErrorView::Other(PREPARE_PANIC_PREFIX@ + "："@ + message@),
        is_background(r@),
{
    let mut out = PREPARE_PANIC_PREFIX.to_owned();
    push_text(&mut out, "：");
    push_text(&mut out, message);
    proof {
        let p = PREPARE_PANIC_PREFIX@;
        assert(out@.take(p.len() as int) =~= p);
    }
    RequestError::Other(out)
}

} // verus!
