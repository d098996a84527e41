//! Laws of responses: what a body is taken for, how much of it is shown and how a
//! failure is told.
use crate::body::line_index::{line_table, lines_partition_the_text, LineTable};
use crate::body::text::{clipped, is_longest, line_content, text_of};
use crate::body::tier::{tier_for, ViewTier};
use crate::http::error::{classified, joined, ErrorView};
use crate::http::received::content_type_in;
use crate::http::sink::{head_of, BodyView};
use crate::model::ResponseMeta;
use crate::response::{detected, kind_in, pretty_of, raw_of, ContentKind};
use crate::strings::{ascii_lower, first_index, lemma_first_index, occurs_at, opt_text};
use vstd::prelude::*;

verus! {

/// Whether a word of small letters stands in a text, in any case.
pub open spec fn holds(text: Seq<char>, word: Seq<char>) -> bool {
    exists|a: Seq<char>, b: Seq<char>| ascii_lower(text) == #[trigger] (a + word + b)
}

proof fn lemma_holds(text: Seq<char>, word: Seq<char>)
    requires
        word.len() > 0,
    ensures
        holds(text, word) <==> first_index(ascii_lower(text), word, 0) is Some,
{
    let low = ascii_lower(text);
    lemma_first_index(low, word, 0);
    if let Some(i) = first_index(low, word, 0) {
        let a = low.subrange(0, i);
        let b = low.skip((i + word.len()) as int);
        assert(low =~= a + low.subrange(i, i + word.len()) + b);
        assert(low == a + word + b);
    }
    if holds(text, word) {
        let (a, b) = choose|a: Seq<char>, b: Seq<char>| low == #[trigger] (a + word + b);
        let i = a.len() as int;
        assert(low.subrange(i, i + word.len()) =~= word);
        assert(occurs_at(low, word, i));
    }
}

/// A content type that names JSON, HTML or XML decides, in that order; a picture,
/// a sound or a film is binary; anything else is text, unless its start holds a
/// zero byte.
pub proof fn content_types_decide(content_type: Option<Seq<char>>, head: Seq<u8>)
    ensures
        ({
            let name = match content_type {
                Some(t) => t,
                None => Seq::empty(),
            };
            let kind = detected(content_type, head);
            &&& holds(name, "json"@) ==> kind == ContentKind::Json
            &&& !holds(name, "json"@) && holds(name, "html"@) ==> kind == ContentKind::Html
            &&& !holds(name, "json"@) && !holds(name, "html"@) && holds(name, "xml"@) ==> kind
                == ContentKind::Xml
            &&& !holds(name, "json"@) && !holds(name, "html"@) && !holds(name, "xml"@) && (holds(
                name,
                "image/"@,
            ) || holds(name, "audio/"@) || holds(name, "video/"@)) ==> kind == ContentKind::Binary
            &&& !holds(name, "json"@) && !holds(name, "html"@) && !holds(name, "xml"@) && !holds(
                name,
                "image/"@,
            ) && !holds(name, "audio/"@) && !holds(name, "video/"@) ==> kind == if exists|i: int|
                0 <= i < head.len() && #[trigger] head[i] == 0 {
                ContentKind::Binary
            } else {
                ContentKind::Text
            }
        }),
{
    let name = match content_type {
        Some(t) => t,
        None => Seq::empty(),
    };
    reveal_strlit("json");
    reveal_strlit("html");
    reveal_strlit("xml");
    reveal_strlit("image/");
    reveal_strlit("audio/");
    reveal_strlit("video/");
    lemma_holds(name, "json"@);
    lemma_holds(name, "html"@);
    lemma_holds(name, "xml"@);
    lemma_holds(name, "image/"@);
    lemma_holds(name, "audio/"@);
    lemma_holds(name, "video/"@);
}

/// Valid UTF-8 is shown as the text that has these bytes.
pub proof fn valid_bytes_are_their_text(bytes: Seq<u8>, text: Seq<char>)
    ensures
        bytes == vstd::utf8::encode_utf8(text) ==> text_of(bytes) == text,
        vstd::utf8::valid_utf8(bytes) ==> vstd::utf8::encode_utf8(text_of(bytes)) == bytes,
{
    vstd::utf8::encode_utf8_decode_utf8(text);
    vstd::utf8::encode_utf8_valid_utf8(text);
    if vstd::utf8::valid_utf8(bytes) {
        vstd::utf8::decode_utf8_encode_utf8(bytes);
    }
}

/// A text of up to five megabytes and 200,000 lines is shown in the editor, a
/// larger one as a plain list.
pub proof fn small_texts_are_edited(bytes: int, lines: int)
    ensures
        tier_for(bytes, lines) == if bytes <= 5 * 1024 * 1024 && lines <= 200000 {
            ViewTier::Editor
        } else {
            ViewTier::Virtual
        },
{
}

/// A body in memory is shown whole; of a body on disk the first megabyte is; binary
/// content is not shown; and only JSON in memory is shown indented as well.
pub proof fn bodies_are_shown(kind: ContentKind, bytes: Seq<u8>, file: Seq<char>, len: nat)
    ensures
        kind == ContentKind::Binary ==> raw_of(kind, BodyView::Memory(bytes)) is None && raw_of(
            kind,
            BodyView::Spilled { file, len, head: bytes },
        ) is None,
        kind != ContentKind::Binary ==> (raw_of(kind, BodyView::Memory(bytes)) matches Some(p)
            && p.text == text_of(bytes) && p.tier != ViewTier::Preview),
        kind != ContentKind::Binary && bytes.len() <= 1024 * 1024 ==> (raw_of(
            kind,
            BodyView::Spilled { file, len, head: bytes },
        ) matches Some(p) && p.tier == ViewTier::Preview && p.text == text_of(
            crate::body::text::without_partial(bytes),
        )),
        kind == ContentKind::Json ==> (pretty_of(kind, BodyView::Memory(bytes)) matches Some(p)
            && p.text == text_of(crate::body::pretty::pretty(bytes)) && p.tier
            != ViewTier::Preview),
        kind != ContentKind::Json ==> pretty_of(kind, BodyView::Memory(bytes)) is None,
        pretty_of(kind, BodyView::Spilled { file, len, head: bytes }) is None,
{
    assert(bytes.take(bytes.len() as int) =~= bytes);
}

/// The head of a body that is kept is its first megabyte, or all of it.
pub proof fn the_head_is_the_first_megabyte(received: Seq<u8>, i: int)
    ensures
        received.len() <= 1024 * 1024 ==> head_of(received) == received,
        received.len() > 1024 * 1024 ==> head_of(received).len() == 1024 * 1024,
        0 <= i < head_of(received).len() ==> head_of(received)[i] == received[i],
{
    if received.len() <= 1024 * 1024 {
        assert(head_of(received) =~= received);
    }
}

/// A line of up to 2000 characters is shown whole, a longer one by its first 2000.
pub proof fn long_lines_are_cut(line: Seq<char>, i: int)
    ensures
        line.len() <= 2000 ==> clipped(line) == line,
        line.len() > 2000 ==> clipped(line).len() == 2000,
        0 <= i < clipped(line).len() ==> clipped(line)[i] == line[i],
{
}

/// A line without its terminator: one line feed at its end goes, then one carriage
/// return, and nothing else.
pub proof fn terminators_are_taken_off(s: Seq<u8>)
    requires
        s.len() > 0 ==> s[s.len() - 1] != 10 && s[s.len() - 1] != 13,
    ensures
        crate::body::text::without_terminator(s) == s,
        crate::body::text::without_terminator(s.push(10u8)) == s,
        crate::body::text::without_terminator(s.push(13u8).push(10u8)) == s,
        crate::body::text::without_terminator(s.push(13u8)) == s,
        crate::body::text::without_terminator(s.push(13u8).push(13u8).push(10u8)) == s.push(13u8),
        crate::body::text::without_terminator(s.push(10u8).push(10u8)) == s.push(10u8),
{
    assert(s.push(10u8).drop_last() =~= s);
    assert(s.push(13u8).drop_last() =~= s);
    assert(s.push(13u8).push(10u8).drop_last() =~= s.push(13u8));
    assert(s.push(13u8).push(13u8).push(10u8).drop_last() =~= s.push(13u8).push(13u8));
    assert(s.push(13u8).push(13u8).drop_last() =~= s.push(13u8));
    assert(s.push(10u8).push(10u8).drop_last() =~= s.push(10u8));
}

proof fn lemma_content_type(headers: Seq<(Seq<char>, Seq<u8>)>, k: int)
    requires
        0 <= k <= headers.len(),
        forall|i: int|
            0 <= i < k ==> ascii_lower((#[trigger] headers[i]).0) != ascii_lower("content-type"@),
    ensures
        content_type_in(headers) == content_type_in(headers.skip(k)),
    decreases k,
{
    if k == 0 {
        assert(headers.skip(0) =~= headers);
    } else {
        assert(ascii_lower(headers[0].0) != ascii_lower("content-type"@));
        let rest = headers.skip(1);
        assert forall|i: int| 0 <= i < k - 1 implies ascii_lower((#[trigger] rest[i]).0)
            != ascii_lower("content-type"@) by {
            assert(rest[i] == headers[i + 1]);
        }
        lemma_content_type(rest, k - 1);
        assert(rest.skip(k - 1) =~= headers.skip(k));
    }
}

/// The content type of a response is the text of the first header of that name, in
/// any case; a value beyond printable ASCII and tabs gives none.
pub proof fn the_first_content_type_counts(headers: Seq<(Seq<char>, Seq<u8>)>, k: int)
    requires
        0 <= k <= headers.len(),
        forall|i: int|
            0 <= i < k ==> ascii_lower((#[trigger] headers[i]).0) != ascii_lower("content-type"@),
        k < headers.len() ==> ascii_lower(headers[k].0) == ascii_lower("content-type"@),
    ensures
        k == headers.len() ==> content_type_in(headers) is None,
        k < headers.len() && (forall|i: int|
            0 <= i < headers[k].1.len() ==> (32 <= #[trigger] headers[k].1[i] <= 126
                || headers[k].1[i] == 9)) ==> (content_type_in(headers) matches Some(t)
            && vstd::utf8::encode_utf8(t) == headers[k].1),
        k < headers.len() && (exists|i: int|
            0 <= i < headers[k].1.len() && !(32 <= #[trigger] headers[k].1[i] <= 126
                || headers[k].1[i] == 9)) ==> content_type_in(headers) is None,
{
    lemma_content_type(headers, k);
    if k < headers.len() {
        let value = headers[k].1;
        assert(headers.skip(k)[0] == headers[k]);
        if crate::http::received::is_plain(value) {
            crate::body::text::lemma_ascii_is_valid(value);
            vstd::utf8::decode_utf8_encode_utf8(value);
        }
    }
}

/// The messages of an error and its causes stand one behind the other, with a colon
/// and a space between.
pub proof fn messages_are_joined(parts: Seq<Seq<char>>, next: Seq<char>)
    ensures
        joined(seq![next]) == next,
        parts.len() > 0 ==> joined(parts.push(next)) == joined(parts) + seq![':', ' '] + next,
{
    assert(parts.push(next).drop_last() =~= parts);
}

/// A request that timed out is told as that; otherwise a message that names
/// certificates, TLS or a handshake is about TLS, one that names the resolution of
/// names is about DNS, one that says refused is a refused connection, in that order
/// and in any case; the message is handed on.
pub proof fn failures_are_sorted(chain: Seq<char>)
    ensures
        ({
            let tls = holds(chain, "certificate"@) || holds(chain, "tls"@) || holds(
                chain,
                "handshake"@,
            );
            let dns = holds(chain, "dns"@) || holds(chain, "lookup"@) || holds(chain, "resolve"@)
                || holds(chain, "nodename"@) || holds(chain, "name or service not known"@);
            &&& classified(true, chain) == ErrorView::Timeout
            &&& tls ==> classified(false, chain) == ErrorView::Tls(chain)
            &&& !tls && dns ==> classified(false, chain) == ErrorView::Dns(chain)
            &&& !tls && !dns && holds(chain, "refused"@) ==> classified(false, chain)
                == ErrorView::ConnectionRefused(chain)
            &&& !tls && !dns && !holds(chain, "refused"@) ==> classified(false, chain)
                == ErrorView::Other(chain)
        }),
{
    reveal_strlit("certificate");
    reveal_strlit("tls");
    reveal_strlit("handshake");
    reveal_strlit("dns");
    reveal_strlit("lookup");
    reveal_strlit("resolve");
    reveal_strlit("nodename");
    reveal_strlit("name or service not known");
    reveal_strlit("refused");
    lemma_holds(chain, "certificate"@);
    lemma_holds(chain, "tls"@);
    lemma_holds(chain, "handshake"@);
    lemma_holds(chain, "dns"@);
    lemma_holds(chain, "lookup"@);
    lemma_holds(chain, "resolve"@);
    lemma_holds(chain, "nodename"@);
    lemma_holds(chain, "name or service not known"@);
    lemma_holds(chain, "refused"@);
}

/// The longest line of a text is at least as long as every line, and longer than
/// every later one.
pub proof fn the_longest_line_is_longest(t: LineTable, k: usize, i: int)
    requires
        is_longest(t, Some(k)),
        0 <= i < t.starts.len(),
    ensures
        t.end(i) - t.start(i) <= t.end(k as int) - t.start(k as int),
        i > k ==> t.end(i) - t.start(i) < t.end(k as int) - t.start(k as int),
        !is_longest(t, None),
{
    assert(t.width(i) <= t.width(k as int));
}

/// A line is shown as its bytes up to its terminator.
pub proof fn lines_are_shown_without_terminators(bytes: Seq<u8>, ix: int) -> (end: Seq<u8>)
    requires
        0 <= ix < line_table(bytes).starts.len(),
    ensures
        ({
            let t = line_table(bytes);
            &&& bytes.subrange(t.start(ix), t.end(ix)) == line_content(bytes, ix) + end
            &&& end.len() == 0 || end == seq![10u8] || end == seq![13u8] || end == seq![13u8, 10u8]
        }),
        forall|p: int|
            0 <= p < line_content(bytes, ix).len() ==> #[trigger] line_content(bytes, ix)[p] != 10,
{
    lines_partition_the_text(bytes);
    let t = line_table(bytes);
    let line = bytes.subrange(t.start(ix), t.end(ix));
    let content = line_content(bytes, ix);
    let end = line.skip(content.len() as int);
    assert(line =~= content + end);
    if end.len() == 1 {
        assert(end =~= seq![end[0]]);
    } else if end.len() == 2 {
        assert(end =~= seq![13u8, 10u8]);
    }
    assert forall|p: int| 0 <= p < content.len() implies #[trigger] content[p] != 10 by {
        assert(content[p] == bytes[t.start(ix) + p]);
        if p == line.len() - 1 {
            assert(content.len() == line.len());
        }
    }
    end
}

/// What a response holds is told by its content type and its first kilobyte.
pub proof fn the_first_kilobyte_is_looked_at(meta: ResponseMeta, bytes: Seq<u8>)
    ensures
        bytes.len() <= 1024 ==> kind_in(meta, BodyView::Memory(bytes)) == detected(
            opt_text(meta.content_type),
            bytes,
        ),
        bytes.len() > 1024 ==> kind_in(meta, BodyView::Memory(bytes)) == detected(
            opt_text(meta.content_type),
            bytes.take(1024),
        ),
{
    assert(bytes.take(bytes.len() as int) =~= bytes);
}

} // verus!
