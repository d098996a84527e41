//! Laws of the request that is sent: which rows of a draft become query pairs,
//! headers and parts, and with which text.
use crate::http::error::ErrorView;
use crate::http::{
    body_of, form_byte, form_encoded, form_text, forwarded, header_name_ok, header_value_ok,
    headers_of, parts_of, prepared, wire_headers_of, FormPartView, HttpRequestView, OutboundView,
};
use crate::laws::text::{
    blank, only_ascii_letters_are_lowered, tight, trimming_takes_the_ends,
};
use crate::model::{
    BodyKindView, DraftView, FormFieldView, FormValueView, KeyValueView, RawFormat,
};
use crate::strings::{ascii_lower, trimmed};
use crate::url::{extended, used_pairs, UrlView};
use vstd::prelude::*;
use vstd::utf8::encode_utf8;

verus! {

/// The pairs of rows one after the other are the pairs of the first rows and of
/// the last.
pub proof fn query_pairs_follow_the_rows(a: Seq<KeyValueView>, b: Seq<KeyValueView>)
    ensures
        used_pairs(a + b) == used_pairs(a) + used_pairs(b),
    decreases b.len(),
{
    if b.len() == 0 {
        assert(a + b =~= a);
        assert(used_pairs(a) + used_pairs(b) =~= used_pairs(a));
    } else {
        query_pairs_follow_the_rows(a, b.drop_last());
        assert((a + b).drop_last() =~= a + b.drop_last());
        assert(used_pairs(a + b) =~= used_pairs(a) + used_pairs(b));
    }
}

/// An enabled row with a key gives one pair, its key and its value as they are
/// written; any other row gives none.
pub proof fn a_row_gives_its_pair(row: KeyValueView)
    ensures
        row.enabled && row.key.len() > 0 ==> used_pairs(seq![row]) == seq![(row.key, row.value)],
        !row.enabled || row.key.len() == 0 ==> used_pairs(seq![row]).len() == 0,
{
    reveal_with_fuel(used_pairs, 2);
    assert(seq![row].drop_last() =~= Seq::<KeyValueView>::empty());
    assert(row.enabled && row.key.len() > 0 ==> used_pairs(seq![row]) =~= seq![
        (row.key, row.value),
    ]);
}

/// Where every row is enabled and has a key, there are as many pairs as rows, and
/// each pair is the key and the value of its row as they are written.
pub proof fn used_rows_give_their_pairs(rows: Seq<KeyValueView>)
    requires
        forall|i: int|
            0 <= i < rows.len() ==> (#[trigger] rows[i]).enabled && rows[i].key.len() > 0,
    ensures
        used_pairs(rows).len() == rows.len(),
        forall|i: int|
            0 <= i < rows.len() ==> #[trigger] used_pairs(rows)[i] == (rows[i].key, rows[i].value),
    decreases rows.len(),
{
    if rows.len() > 0 {
        let head = rows.drop_last();
        used_rows_give_their_pairs(head);
        assert(rows[rows.len() - 1].enabled);
        assert forall|i: int| 0 <= i < rows.len() implies #[trigger] used_pairs(rows)[i] == (
            rows[i].key,
            rows[i].value,
        ) by {
            if i < head.len() {
                assert(used_pairs(head)[i] == (head[i].key, head[i].value));
            }
        }
    }
}

/// Pairs are appended behind the query that a URL has, with a `&` between, and
/// nothing else of the URL changes.
pub proof fn pairs_are_appended_to_the_query(u: UrlView, pairs: Seq<(Seq<char>, Seq<char>)>)
    ensures
        extended(u, pairs).base == u.base,
        extended(u, pairs).scheme == u.scheme,
        extended(u, pairs).path == u.path,
        extended(u, pairs).fragment == u.fragment,
        u.query is None || u.query->0.len() == 0 ==> extended(u, pairs).query == Some(
            form_text(pairs),
        ),
        u.query is Some && u.query->0.len() > 0 ==> extended(u, pairs).query == Some(
            u.query->0 + seq!['&'] + form_text(pairs),
        ),
{
}

/// A byte that names of headers are made of: a letter, a digit or one of the
/// signs that HTTP lists.
pub open spec fn token_byte(b: u8) -> bool {
    ||| '0' <= b as char <= '9'
    ||| 'A' <= b as char <= 'Z'
    ||| 'a' <= b as char <= 'z'
    ||| seq!['!', '#', '$', '%', '&', '\'', '*', '+', '-', '.', '^', '_', '`', '|', '~'].contains(
        b as char,
    )
}

/// A row whose key can name a header and whose value holds no control character
/// but the tab, white space around them aside.
pub open spec fn sendable(row: KeyValueView) -> bool {
    &&& 1 <= encode_utf8(trimmed(row.key)).len() <= 65535
    &&& forall|i: int|
        0 <= i < encode_utf8(trimmed(row.key)).len() ==> token_byte(
            #[trigger] encode_utf8(trimmed(row.key))[i],
        )
    &&& forall|i: int|
        0 <= i < encode_utf8(trimmed(row.value)).len() ==> (#[trigger] encode_utf8(
            trimmed(row.value),
        )[i] >= 32 && encode_utf8(trimmed(row.value))[i] != 127) || encode_utf8(
            trimmed(row.value),
        )[i] == 9
}

proof fn lemma_token(b: u8)
    ensures
        token_byte(b) <==> crate::http::is_token(b),
{
    let signs = seq!['!', '#', '$', '%', '&', '\'', '*', '+', '-', '.', '^', '_', '`', '|', '~'];
    let c = b as char;
    assert(signs[0] == '!' && signs[1] == '#' && signs[2] == '$' && signs[3] == '%' && signs[4]
        == '&' && signs[5] == '\'' && signs[6] == '*' && signs[7] == '+' && signs[8] == '-'
        && signs[9] == '.' && signs[10] == '^' && signs[11] == '_' && signs[12] == '`' && signs[13]
        == '|' && signs[14] == '~');
    if signs.contains(c) {
        let i = choose|i: int| 0 <= i < signs.len() && signs[i] == c;
        assert(0 <= i < 15);
    }
}

proof fn lemma_sendable(row: KeyValueView)
    ensures
        sendable(row) <==> header_name_ok(encode_utf8(trimmed(row.key))) && header_value_ok(
            encode_utf8(trimmed(row.value)),
        ),
{
    let name = encode_utf8(trimmed(row.key));
    assert forall|i: int| 0 <= i < name.len() implies token_byte(#[trigger] name[i])
        == crate::http::is_token(name[i]) by {
        lemma_token(name[i]);
    }
}

/// Where every row is enabled, has a name and can be sent, there are as many
/// headers as rows, and each is the name and the value of its row without the
/// white space around them.
pub proof fn used_rows_give_their_headers(rows: Seq<KeyValueView>)
    requires
        forall|i: int|
            0 <= i < rows.len() ==> (#[trigger] rows[i]).enabled && trimmed(rows[i].key).len() > 0
                && sendable(rows[i]),
    ensures
        headers_of(rows) is Ok,
        headers_of(rows)->Ok_0.len() == rows.len(),
        forall|i: int|
            0 <= i < rows.len() ==> #[trigger] headers_of(rows)->Ok_0[i] == (
                trimmed(rows[i].key),
                trimmed(rows[i].value),
            ),
    decreases rows.len(),
{
    if rows.len() > 0 {
        let head = rows.drop_last();
        assert forall|i: int| 0 <= i < head.len() implies (#[trigger] head[i]).enabled && trimmed(
            head[i].key,
        ).len() > 0 && sendable(head[i]) by {
            assert(rows[i] == head[i]);
        }
        used_rows_give_their_headers(head);
        let last = rows[rows.len() - 1];
        assert(last.enabled && sendable(last));
        lemma_sendable(last);
        assert forall|i: int| 0 <= i < rows.len() implies #[trigger] headers_of(rows)->Ok_0[i] == (
            trimmed(rows[i].key),
            trimmed(rows[i].value),
        ) by {
            if i < head.len() {
                assert(headers_of(head)->Ok_0[i] == (trimmed(head[i].key), trimmed(head[i].value)));
            }
        }
    }
}

/// A key and a value without white space at their ends are sent character for
/// character, and white space around them is taken off.
pub proof fn a_header_is_sent_as_written(
    row: KeyValueView,
    name: Seq<char>,
    value: Seq<char>,
    a: Seq<char>,
    b: Seq<char>,
    c: Seq<char>,
    d: Seq<char>,
)
    requires
        row.enabled,
        name.len() > 0,
        tight(name),
        tight(value),
        blank(a) && blank(b) && blank(c) && blank(d),
        row.key == a + name + b,
        row.value == c + value + d,
        sendable(row),
    ensures
        headers_of(seq![row]) == Ok::<Seq<(Seq<char>, Seq<char>)>, Seq<char>>(seq![(name, value)]),
{
    trimming_takes_the_ends(a, name, b);
    trimming_takes_the_ends(c, value, d);
    let rows = seq![row];
    assert(rows[0] == row);
    used_rows_give_their_headers(rows);
    assert(headers_of(rows)->Ok_0 =~= seq![(name, value)]);
}

/// Headers follow the order of the rows; a row that is switched off or has no name
/// adds none; and the first row that cannot be sent refuses the request, by its
/// name.
pub proof fn headers_follow_the_rows(a: Seq<KeyValueView>, row: KeyValueView, b: Seq<KeyValueView>)
    requires
        headers_of(a) is Ok,
    ensures
        !row.enabled || trimmed(row.key).len() == 0 ==> headers_of(a.push(row)) == headers_of(a),
        row.enabled && trimmed(row.key).len() > 0 && sendable(row) ==> headers_of(a.push(row))
            == Ok::<Seq<(Seq<char>, Seq<char>)>, Seq<char>>(
            headers_of(a)->Ok_0.push((trimmed(row.key), trimmed(row.value))),
        ),
        row.enabled && trimmed(row.key).len() > 0 && !sendable(row) ==> headers_of(a.push(row) + b)
            == Err::<Seq<(Seq<char>, Seq<char>)>, Seq<char>>(trimmed(row.key)),
    decreases b.len(),
{
    lemma_sendable(row);
    assert(a.push(row).drop_last() =~= a);
    if b.len() == 0 {
        assert(a.push(row) + b =~= a.push(row));
    } else {
        headers_follow_the_rows(a, row, b.drop_last());
        assert((a.push(row) + b).drop_last() =~= a.push(row) + b.drop_last());
    }
}

/// A multipart field that takes part: switched on, with a name, and with a chosen
/// file where it is one.
pub open spec fn has_part(f: FormFieldView) -> bool {
    &&& f.enabled
    &&& f.key.len() > 0
    &&& match f.value {
        FormValueView::Text { .. } => true,
        FormValueView::File { path, .. } => path.len() > 0,
    }
}

/// Where every field takes part, there are as many parts as fields, and each has
/// the name and the value of its field as they are written.
pub proof fn used_fields_give_their_parts(fields: Seq<FormFieldView>)
    requires
        forall|i: int| 0 <= i < fields.len() ==> has_part(#[trigger] fields[i]),
    ensures
        parts_of(fields) is Ok,
        parts_of(fields)->Ok_0.len() == fields.len(),
        forall|i: int|
            0 <= i < fields.len() ==> (#[trigger] parts_of(fields)->Ok_0[i]).name == fields[i].key
                && parts_of(fields)->Ok_0[i].value == fields[i].value,
    decreases fields.len(),
{
    if fields.len() > 0 {
        let head = fields.drop_last();
        assert forall|i: int| 0 <= i < head.len() implies has_part(#[trigger] head[i]) by {
            assert(fields[i] == head[i]);
        }
        used_fields_give_their_parts(head);
        assert(has_part(fields[fields.len() - 1]));
        assert forall|i: int| 0 <= i < fields.len() implies (#[trigger] parts_of(
            fields,
        )->Ok_0[i]).name == fields[i].key && parts_of(fields)->Ok_0[i].value
            == fields[i].value by {
            if i < head.len() {
                assert(parts_of(head)->Ok_0[i].name == head[i].key);
            }
        }
    }
}

/// Parts follow the order of the fields; a field that is switched off or has no
/// name adds none; and a file field that takes part without a file refuses the
/// request.
pub proof fn parts_follow_the_fields(
    a: Seq<FormFieldView>,
    f: FormFieldView,
    b: Seq<FormFieldView>,
)
    requires
        parts_of(a) is Ok,
    ensures
        !f.enabled || f.key.len() == 0 ==> parts_of(a.push(f)) == parts_of(a),
        has_part(f) ==> parts_of(a.push(f)) == Ok::<Seq<FormPartView>, ErrorView>(
            parts_of(a)->Ok_0.push(FormPartView { name: f.key, value: f.value }),
        ),
        f.enabled && f.key.len() > 0 && !has_part(f) ==> parts_of(a.push(f) + b) is Err
            && parts_of(a.push(f) + b)->Err_0 == ErrorView::FileBody("未选择文件"@),
    decreases b.len(),
{
    assert(a.push(f).drop_last() =~= a);
    if b.len() == 0 {
        assert(a.push(f) + b =~= a.push(f));
    } else {
        parts_follow_the_fields(a, f, b.drop_last());
        assert((a.push(f) + b).drop_last() =~= a.push(f) + b.drop_last());
    }
}

/// What the body of a draft is sent as.
pub proof fn bodies_are_sent_as_written(body: BodyKindView)
    ensures
        match body {
            BodyKindView::Empty => body_of(body) == Ok::<OutboundView, ErrorView>(
                OutboundView::Empty,
            ),
            BodyKindView::Raw { format, text } => body_of(body) is Ok && body_of(body)->Ok_0
                is Bytes && body_of(body)->Ok_0->data == encode_utf8(text) && body_of(
                body,
            )->Ok_0->Bytes_content_type == match format {
                RawFormat::Json => "application/json"@,
                RawFormat::Text => "text/plain"@,
                RawFormat::Xml => "application/xml"@,
            },
            BodyKindView::FormData { fields } => match parts_of(fields) {
                Ok(parts) => body_of(body) is Ok && body_of(body)->Ok_0 is Form && body_of(
                    body,
                )->Ok_0->parts == parts,
                Err(e) => body_of(body) is Err && body_of(body)->Err_0 == e,
            },
            BodyKindView::FormUrlEncoded { fields } => body_of(body) is Ok && body_of(body)->Ok_0
                is Bytes && body_of(body)->Ok_0->data == encode_utf8(form_text(used_pairs(fields)))
                && body_of(body)->Ok_0->Bytes_content_type == "application/x-www-form-urlencoded"@,
            BodyKindView::File { path, content_type } => if path.len() == 0 {
                body_of(body) is Err && body_of(body)->Err_0 == ErrorView::FileBody("未选择文件"@)
            } else {
                body_of(body) is Ok && body_of(body)->Ok_0 is File && body_of(body)->Ok_0->path
                    == path && body_of(body)->Ok_0->File_content_type == content_type
            },
        },
{
}

/// A request that can be prepared carries the method of its draft, the URL, the
/// headers and the body; of several faults the URL's is told first, the headers'
/// next and the body's last.
pub proof fn faults_are_told_in_order(d: DraftView)
    ensures
        crate::url::url_outcome(d) is Err ==> prepared(d) is Err && prepared(d)->Err_0
            is InvalidUrl,
        crate::url::url_outcome(d) is Ok && headers_of(d.headers) is Err ==> prepared(d) is Err
            && prepared(d)->Err_0 == ErrorView::InvalidHeader(headers_of(d.headers)->Err_0),
        crate::url::url_outcome(d) is Ok && headers_of(d.headers) is Ok && body_of(d.body) is Err
            ==> prepared(d) is Err && prepared(d)->Err_0 == body_of(d.body)->Err_0,
        crate::url::url_outcome(d) is Ok && headers_of(d.headers) is Ok && body_of(d.body) is Ok
            ==> prepared(d) is Ok && prepared(d)->Ok_0.method == d.method && prepared(d)->Ok_0.url
            == crate::url::url_outcome(d)->Ok_0 && prepared(d)->Ok_0.headers == headers_of(
            d.headers,
        )->Ok_0 && prepared(d)->Ok_0.body == body_of(d.body)->Ok_0,
{
}

/// A header name that the connection and the body decide on, in any case.
pub open spec fn decided_elsewhere(name: Seq<char>) -> bool {
    ||| ascii_lower(name) == "content-length"@
    ||| ascii_lower(name) == "transfer-encoding"@
    ||| ascii_lower(name) == "host"@
}

proof fn lemma_low(word: Seq<char>)
    requires
        forall|i: int| 0 <= i < word.len() ==> !('A' <= #[trigger] word[i] && word[i] <= 'Z'),
    ensures
        ascii_lower(word) == word,
{
    assert forall|i: int| 0 <= i < word.len() implies ascii_lower(word)[i] == word[i] by {
        only_ascii_letters_are_lowered(word, i);
    }
    assert(ascii_lower(word) =~= word);
}

proof fn lemma_low_names()
    ensures
        ascii_lower("content-length"@) == "content-length"@,
        ascii_lower("transfer-encoding"@) == "transfer-encoding"@,
        ascii_lower("host"@) == "host"@,
        ascii_lower("content-type"@) == "content-type"@,
{
    reveal_strlit("content-length");
    reveal_strlit("transfer-encoding");
    reveal_strlit("host");
    reveal_strlit("content-type");
    lemma_low("content-length"@);
    lemma_low("transfer-encoding"@);
    lemma_low("host"@);
    lemma_low("content-type"@);
}

/// Headers are sent in their order and as they are, all but those that the
/// connection and the body decide on.
pub proof fn headers_are_forwarded_in_order(
    a: Seq<(Seq<char>, Seq<char>)>,
    name: Seq<char>,
    value: Seq<char>,
)
    ensures
        forwarded(Seq::empty()).len() == 0,
        decided_elsewhere(name) ==> forwarded(a.push((name, value))) == forwarded(a),
        !decided_elsewhere(name) ==> forwarded(a.push((name, value))) == forwarded(a).push(
            (name, value),
        ),
{
    lemma_low_names();
    assert(a.push((name, value)).drop_last() =~= a);
}

/// The content type of the body is sent last where no header of the request names
/// one, in any case, and never beside one.
pub proof fn the_body_brings_its_type(req: HttpRequestView)
    ensures
        ({
            let named = exists|i: int|
                0 <= i < req.headers.len() && ascii_lower((#[trigger] req.headers[i]).0)
                    == "content-type"@;
            let own = match req.body {
                OutboundView::Bytes { content_type, .. } => Some(content_type),
                OutboundView::File { content_type, .. } => content_type,
                _ => None,
            };
            match own {
                Some(t) if !named => wire_headers_of(req) == forwarded(req.headers).push(
                    ("content-type"@, t),
                ),
                _ => wire_headers_of(req) == forwarded(req.headers),
            }
        }),
{
    lemma_low_names();
    if crate::http::has_content_type(req.headers) {
        let i = choose|i: int|
            0 <= i < req.headers.len() && crate::http::same_header(
                (#[trigger] req.headers[i]).0,
                "content-type"@,
            );
        assert(ascii_lower(req.headers[i].0) == "content-type"@);
    }
}

/// The value of a hexadecimal digit in capitals.
pub open spec fn hex_value(c: char) -> int {
    if '0' <= c && c <= '9' {
        c as int - '0' as int
    } else {
        c as int - 'A' as int + 10
    }
}

/// A form text is written byte by byte: letters, digits and four signs as they are,
/// a space as a plus, and any other byte as a percent sign with its two digits.
pub proof fn form_bytes_can_be_read(b: u8)
    ensures
        ({
            let t = form_byte(b);
            let plain = ('0' <= b as char <= '9') || ('A' <= b as char <= 'Z') || ('a' <= b as char
                <= 'z') || b as char == '*' || b as char == '-' || b as char == '.' || b as char
                == '_';
            &&& plain ==> t == seq![b as char]
            &&& b == 32 ==> t == seq!['+']
            &&& !plain && b != 32 ==> t.len() == 3 && t[0] == '%' && 16 * hex_value(t[1])
                + hex_value(t[2]) == b && 0 <= hex_value(t[1]) < 16 && 0 <= hex_value(t[2]) < 16
        }),
{
}

/// Bytes one after the other are written one after the other, and pairs with an
/// equals sign inside and an ampersand between.
pub proof fn form_texts_follow_the_pairs(
    a: Seq<u8>,
    b: u8,
    pairs: Seq<(Seq<char>, Seq<char>)>,
    k: Seq<char>,
    v: Seq<char>,
)
    ensures
        form_encoded(Seq::empty()).len() == 0,
        form_encoded(a.push(b)) == form_encoded(a) + form_byte(b),
        form_text(seq![(k, v)]) == form_encoded(encode_utf8(k)) + seq!['='] + form_encoded(
            encode_utf8(v),
        ),
        pairs.len() > 0 ==> form_text(pairs.push((k, v))) == form_text(pairs) + seq!['&']
            + form_encoded(encode_utf8(k)) + seq!['='] + form_encoded(encode_utf8(v)),
{
    assert(a.push(b).drop_last() =~= a);
    assert(pairs.push((k, v)).drop_last() =~= pairs);
    let one = seq![(k, v)];
    assert(one.drop_last() =~= Seq::<(Seq<char>, Seq<char>)>::empty());
    assert(form_text(one.drop_last()).len() == 0);
    assert(form_text(one) =~= form_encoded(encode_utf8(k)) + seq!['='] + form_encoded(
        encode_utf8(v),
    ));
}

} // verus!
