//! Laws of addresses: the placeholders of a URL, what fills them, and the text
//! that is parsed.
use crate::laws::text::{
    a_word_in_the_middle_is_found, blank, lemma_shifted_index, tight, trimming_takes_the_ends,
};
use crate::model::{DraftView, KeyValueView};
use crate::strings::{first_index, lemma_first_index, lemma_first_index_is, occurs_at};
use crate::url::{
    accepted, extended, filled, filled_from, firsts, has_room, lemma_row_at, names_from,
    placeholder, request_text, row_at, url_outcome, url_parsed, used_pairs, UrlErrorView, UrlView,
};
use vstd::prelude::*;

verus! {

/// A stretch of an address: characters that stand for themselves, or a
/// placeholder.
pub enum Stretch {
    Fixed(Seq<char>),
    Placeholder(Seq<char>),
}

/// A text without an opening brace.
pub open spec fn unopened(text: Seq<char>) -> bool {
    forall|i: int| 0 <= i < text.len() ==> #[trigger] text[i] != '{'
}

/// No brace in fixed text, and in a placeholder a name without one.
pub open spec fn proper(s: Stretch) -> bool {
    match s {
        Stretch::Fixed(text) => unopened(text),
        Stretch::Placeholder(name) => name.len() > 0 && forall|i: int|
            0 <= i < name.len() ==> #[trigger] name[i] != '{' && name[i] != '}',
    }
}

pub open spec fn all_proper(address: Seq<Stretch>) -> bool {
    forall|i: int| 0 <= i < address.len() ==> proper(#[trigger] address[i])
}

/// How a stretch is written.
pub open spec fn stretch_text(s: Stretch) -> Seq<char> {
    match s {
        Stretch::Fixed(text) => text,
        Stretch::Placeholder(name) => seq!['{'] + name + seq!['}'],
    }
}

/// How stretches are written one after the other.
pub open spec fn address_text(address: Seq<Stretch>) -> Seq<char>
    decreases address.len(),
{
    if address.len() == 0 {
        Seq::empty()
    } else {
        stretch_text(address[0]) + address_text(address.skip(1))
    }
}

/// The names of the placeholders, in their order.
pub open spec fn placeholder_names(address: Seq<Stretch>) -> Seq<Seq<char>>
    decreases address.len(),
{
    if address.len() == 0 {
        Seq::empty()
    } else {
        (match address[0] {
            Stretch::Fixed(_) => Seq::empty(),
            Stretch::Placeholder(name) => seq![name],
        }) + placeholder_names(address.skip(1))
    }
}

/// The first enabled row for a name.
pub open spec fn fills(rows: Seq<KeyValueView>, name: Seq<char>, k: int) -> bool {
    &&& 0 <= k < rows.len()
    &&& rows[k].enabled && rows[k].key == name
    &&& forall|i: int| 0 <= i < k ==> !(#[trigger] rows[i].enabled && rows[i].key == name)
}

/// What a stretch becomes: a placeholder the value of the first enabled row of its
/// name, if there is one, and anything else stays.
pub open spec fn stretch_value(s: Stretch, rows: Seq<KeyValueView>) -> Seq<char> {
    match s {
        Stretch::Fixed(text) => text,
        Stretch::Placeholder(name) => if exists|k: int| fills(rows, name, k) {
            rows[choose|k: int| fills(rows, name, k)].value
        } else {
            stretch_text(s)
        },
    }
}

/// What stretches become one after the other.
pub open spec fn address_value(address: Seq<Stretch>, rows: Seq<KeyValueView>) -> Seq<char>
    decreases address.len(),
{
    if address.len() == 0 {
        Seq::empty()
    } else {
        stretch_value(address[0], rows) + address_value(address.skip(1), rows)
    }
}

/// Rows whose keys hold no closing brace.
pub open spec fn braceless_keys(rows: Seq<KeyValueView>) -> bool {
    forall|i: int, c: int|
        0 <= i < rows.len() && 0 <= c < rows[i].key.len() ==> #[trigger] rows[i].key[c] != '}'
}

proof fn lemma_shifted_row(url: Seq<char>, rows: Seq<KeyValueView>, at: int, k: int)
    requires
        0 <= at <= url.len(),
        0 <= k,
    ensures
        row_at(url, rows, at + k) == row_at(url.skip(at), rows, k),
    decreases rows.len(),
{
    if rows.len() > 0 {
        let pat = placeholder(rows[0].key);
        if at + k + pat.len() <= url.len() {
            assert(url.skip(at).subrange(k, k + pat.len()) =~= url.subrange(
                at + k,
                at + k + pat.len(),
            ));
        }
        lemma_shifted_row(url, rows.skip(1), at, k);
    }
}

proof fn lemma_shifted_fill(url: Seq<char>, rows: Seq<KeyValueView>, at: int, k: int)
    requires
        0 <= at <= url.len(),
        0 <= k,
    ensures
        filled_from(url, rows, at + k) == filled_from(url.skip(at), rows, k),
    decreases url.len() - (at + k),
{
    if at + k < url.len() {
        lemma_shifted_row(url, rows, at, k);
        lemma_row_at(url, rows, at + k);
        match row_at(url, rows, at + k) {
            Some(row) => lemma_shifted_fill(url, rows, at, k + row.key.len() + 2),
            None => {
                assert(url.skip(at)[k] == url[at + k]);
                lemma_shifted_fill(url, rows, at, k + 1);
            },
        }
    }
}

proof fn lemma_no_row(url: Seq<char>, rows: Seq<KeyValueView>, at: int)
    requires
        0 <= at < url.len(),
        url[at] != '{',
    ensures
        row_at(url, rows, at) is None,
    decreases rows.len(),
{
    if rows.len() > 0 {
        let pat = placeholder(rows[0].key);
        if occurs_at(url, pat, at) {
            assert(url.subrange(at, at + pat.len())[0] == url[at]);
        }
        lemma_no_row(url, rows.skip(1), at);
    }
}

proof fn lemma_fixed(text: Seq<char>, rest: Seq<char>, rows: Seq<KeyValueView>)
    requires
        proper(Stretch::Fixed(text)),
    ensures
        filled(text + rest, rows) == text + filled(rest, rows),
    decreases text.len(),
{
    let url = text + rest;
    if text.len() == 0 {
        assert(url =~= rest);
        assert(text + filled(rest, rows) =~= filled(rest, rows));
    } else {
        assert(url[0] == text[0]);
        lemma_no_row(url, rows, 0);
        lemma_shifted_fill(url, rows, 1, 0);
        let tail = text.skip(1);
        assert(url.skip(1) =~= tail + rest);
        lemma_fixed(tail, rest, rows);
        assert(seq![text[0]] + (tail + filled(rest, rows)) =~= text + filled(rest, rows));
    }
}

proof fn lemma_same_placeholder(name: Seq<char>, rest: Seq<char>, key: Seq<char>)
    requires
        proper(Stretch::Placeholder(name)),
        forall|c: int| 0 <= c < key.len() ==> #[trigger] key[c] != '}',
    ensures
        occurs_at(seq!['{'] + name + seq!['}'] + rest, placeholder(key), 0) <==> key == name,
{
    let url = seq!['{'] + name + seq!['}'] + rest;
    let pat = placeholder(key);
    let n = name.len() as int;
    let m = key.len() as int;
    if key == name {
        assert(url.subrange(0, pat.len() as int) =~= pat);
    }
    if occurs_at(url, pat, 0) {
        let sub = url.subrange(0, m + 2);
        assert(sub == pat);
        if m < n {
            assert(sub[m + 1] == name[m]);
            assert(pat[m + 1] == '}');
        } else if m > n {
            assert(sub[n + 1] == '}');
            assert(pat[n + 1] == key[n]);
        } else {
            assert forall|i: int| 0 <= i < n implies name[i] == key[i] by {
                assert(sub[i + 1] == name[i]);
                assert(pat[i + 1] == key[i]);
            }
            assert(name =~= key);
        }
    }
}

proof fn lemma_placeholder_row(
    name: Seq<char>,
    rest: Seq<char>,
    rows: Seq<KeyValueView>,
    k: int,
)
    requires
        proper(Stretch::Placeholder(name)),
        braceless_keys(rows),
        0 <= k <= rows.len(),
        forall|i: int| 0 <= i < k ==> !(#[trigger] rows[i].enabled && rows[i].key == name),
    ensures
        k < rows.len() && rows[k].enabled && rows[k].key == name ==> row_at(
            seq!['{'] + name + seq!['}'] + rest,
            rows,
            0,
        ) == Some(rows[k]),
        k == rows.len() ==> row_at(seq!['{'] + name + seq!['}'] + rest, rows, 0) is None,
    decreases k,
{
    let url = seq!['{'] + name + seq!['}'] + rest;
    if rows.len() > 0 {
        lemma_same_placeholder(name, rest, rows[0].key);
        if k > 0 {
            assert(!(rows[0].enabled && rows[0].key == name));
            let tail = rows.skip(1);
            assert forall|i: int| 0 <= i < k - 1 implies !(#[trigger] tail[i].enabled
                && tail[i].key == name) by {
                assert(tail[i] == rows[i + 1]);
            }
            assert forall|i: int, c: int|
                0 <= i < tail.len() && 0 <= c < tail[i].key.len() implies #[trigger] tail[i].key[c]
                != '}' by {
                assert(tail[i] == rows[i + 1]);
                assert(rows[i + 1].key[c] != '}');
            }
            lemma_placeholder_row(name, rest, tail, k - 1);
        }
    }
}

proof fn lemma_first_row(rows: Seq<KeyValueView>, name: Seq<char>, n: int)
    requires
        0 <= n <= rows.len(),
        !(exists|k: int| fills(rows, name, k)),
    ensures
        forall|i: int| 0 <= i < n ==> !(#[trigger] rows[i].enabled && rows[i].key == name),
    decreases n,
{
    if n > 0 {
        lemma_first_row(rows, name, n - 1);
        if rows[n - 1].enabled && rows[n - 1].key == name {
            assert(fills(rows, name, n - 1));
        }
    }
}

proof fn lemma_placeholder(name: Seq<char>, rest: Seq<char>, rows: Seq<KeyValueView>)
    requires
        proper(Stretch::Placeholder(name)),
        braceless_keys(rows),
    ensures
        filled(stretch_text(Stretch::Placeholder(name)) + rest, rows) == stretch_value(
            Stretch::Placeholder(name),
            rows,
        ) + filled(rest, rows),
{
    let s = Stretch::Placeholder(name);
    let url = stretch_text(s) + rest;
    let n = (name.len() + 2) as int;
    assert(url.skip(n) =~= rest);
    lemma_shifted_fill(url, rows, n, 0);
    if exists|k: int| fills(rows, name, k) {
        let k = choose|k: int| fills(rows, name, k);
        lemma_placeholder_row(name, rest, rows, k);
    } else {
        lemma_first_row(rows, name, rows.len() as int);
        lemma_placeholder_row(name, rest, rows, rows.len() as int);
        let tail = name + seq!['}'];
        assert(url.skip(1) =~= tail + rest);
        lemma_shifted_fill(url, rows, 1, 0);
        assert forall|i: int| 0 <= i < tail.len() implies #[trigger] tail[i] != '{' by {
            if i < name.len() {
                assert(tail[i] == name[i]);
            }
        }
        lemma_fixed(tail, rest, rows);
        assert(url[0] == '{');
        assert(seq!['{'] + (tail + filled(rest, rows)) =~= stretch_text(s) + filled(rest, rows));
    }
}

/// An address is filled in stretch by stretch: each placeholder becomes the value
/// of the first enabled row of its name, as it is written; a placeholder without a
/// row, and all other text, stays.
pub proof fn placeholders_are_filled(address: Seq<Stretch>, rows: Seq<KeyValueView>)
    requires
        all_proper(address),
        braceless_keys(rows),
    ensures
        filled(address_text(address), rows) == address_value(address, rows),
    decreases address.len(),
{
    if address.len() > 0 {
        let rest = address.skip(1);
        assert(proper(address[0]));
        assert(all_proper(rest));
        placeholders_are_filled(rest, rows);
        match address[0] {
            Stretch::Fixed(text) => lemma_fixed(text, address_text(rest), rows),
            Stretch::Placeholder(name) => lemma_placeholder(name, address_text(rest), rows),
        }
    }
}

proof fn lemma_shifted_names(url: Seq<char>, at: int, k: int)
    requires
        0 <= at <= url.len(),
        0 <= k,
        at + k <= url.len(),
    ensures
        names_from(url, at + k) == names_from(url.skip(at), k),
    decreases url.len() - (at + k),
{
    let t = url.skip(at);
    lemma_shifted_index(url, seq!['{'], at, k);
    lemma_first_index(t, seq!['{'], k);
    if let Some(start) = first_index(t, seq!['{'], k) {
        lemma_shifted_index(url, seq!['}'], at, start + 1);
        lemma_first_index(t, seq!['}'], start + 1);
        if let Some(end) = first_index(t, seq!['}'], start + 1) {
            assert(url.subrange(at + start + 1, at + end) =~= t.subrange(start + 1, end));
            lemma_shifted_names(url, at, end + 1);
        }
    }
}

proof fn lemma_names_after_fixed(text: Seq<char>, rest: Seq<char>)
    requires
        proper(Stretch::Fixed(text)),
    ensures
        names_from(text + rest, 0) == names_from(rest, 0),
{
    let url = text + rest;
    let k = text.len() as int;
    assert(url.skip(k) =~= rest);
    lemma_shifted_names(url, k, 0);
    lemma_first_index(url, seq!['{'], 0);
    lemma_first_index(url, seq!['{'], k);
    assert forall|j: int| 0 <= j < k implies !occurs_at(url, seq!['{'], j) by {
        if occurs_at(url, seq!['{'], j) {
            assert(url.subrange(j, j + 1)[0] == url[j]);
            assert(url[j] == text[j]);
        }
    }
    if let Some(at) = first_index(url, seq!['{'], k) {
        lemma_first_index_is(url, seq!['{'], 0, at);
    }
}

proof fn lemma_names_at_placeholder(name: Seq<char>, rest: Seq<char>)
    requires
        proper(Stretch::Placeholder(name)),
    ensures
        names_from(stretch_text(Stretch::Placeholder(name)) + rest, 0) == seq![name] + names_from(
            rest,
            0,
        ),
{
    let url = stretch_text(Stretch::Placeholder(name)) + rest;
    let end = (name.len() + 1) as int;
    assert(url.subrange(0, 1) =~= seq!['{']);
    lemma_first_index_is(url, seq!['{'], 0, 0);
    assert(url.subrange(end, end + 1) =~= seq!['}']);
    assert forall|j: int| 1 <= j < end implies !occurs_at(url, seq!['}'], j) by {
        if occurs_at(url, seq!['}'], j) {
            assert(url.subrange(j, j + 1)[0] == url[j]);
            assert(url[j] == name[j - 1]);
        }
    }
    lemma_first_index_is(url, seq!['}'], 1, end);
    assert(url.subrange(1, end) =~= name);
    assert(!name.contains('{'));
    assert(url.skip(end + 1) =~= rest);
    lemma_shifted_names(url, end + 1, 0);
}

/// The path parameters of an address are the names of its placeholders, in their
/// order, each at its first place only.
pub proof fn placeholders_are_named(address: Seq<Stretch>)
    requires
        all_proper(address),
    ensures
        names_from(address_text(address), 0) == placeholder_names(address),
    decreases address.len(),
{
    if address.len() == 0 {
        lemma_first_index(address_text(address), seq!['{'], 0);
    } else {
        let rest = address.skip(1);
        assert(proper(address[0]));
        assert(all_proper(rest));
        placeholders_are_named(rest);
        match address[0] {
            Stretch::Fixed(text) => {
                lemma_names_after_fixed(text, address_text(rest));
                assert(placeholder_names(address) =~= placeholder_names(rest));
            },
            Stretch::Placeholder(name) => lemma_names_at_placeholder(name, address_text(rest)),
        }
    }
}

/// Braces around nothing, or around another opening brace, name no parameter, and
/// neither does a brace that does not close.
pub proof fn other_braces_name_nothing(inner: Seq<char>, rest: Seq<char>)
    requires
        forall|i: int| 0 <= i < inner.len() ==> #[trigger] inner[i] != '}',
    ensures
        inner.len() == 0 || inner.contains('{') ==> names_from(
            seq!['{'] + inner + seq!['}'] + rest,
            0,
        ) == names_from(rest, 0),
        names_from(seq!['{'] + inner, 0).len() == 0,
{
    let url = seq!['{'] + inner + seq!['}'] + rest;
    let end = (inner.len() + 1) as int;
    assert(url.subrange(0, 1) =~= seq!['{']);
    lemma_first_index_is(url, seq!['{'], 0, 0);
    assert(url.subrange(end, end + 1) =~= seq!['}']);
    assert forall|j: int| 1 <= j < end implies !occurs_at(url, seq!['}'], j) by {
        if occurs_at(url, seq!['}'], j) {
            assert(url.subrange(j, j + 1)[0] == url[j]);
            assert(url[j] == inner[j - 1]);
        }
    }
    lemma_first_index_is(url, seq!['}'], 1, end);
    assert(url.subrange(1, end) =~= inner);
    assert(url.skip(end + 1) =~= rest);
    lemma_shifted_names(url, end + 1, 0);
    let open = seq!['{'] + inner;
    assert(open.subrange(0, 1) =~= seq!['{']);
    lemma_first_index_is(open, seq!['{'], 0, 0);
    lemma_first_index(open, seq!['}'], 1);
    if let Some(k) = first_index(open, seq!['}'], 1) {
        assert(open.subrange(k, k + 1)[0] == open[k]);
        assert(open[k] == inner[k - 1]);
    }
}

/// A name that came before is not listed again, and one that did not is listed
/// behind those before it.
pub proof fn each_name_is_listed_once(names: Seq<Seq<char>>, name: Seq<char>)
    ensures
        firsts(Seq::empty()).len() == 0,
        names.contains(name) ==> firsts(names.push(name)) == firsts(names),
        !names.contains(name) ==> firsts(names.push(name)) == firsts(names).push(name),
{
    assert(names.push(name).drop_last() =~= names);
    crate::url::firsts_are_distinct(names);
    if names.contains(name) {
        assert(names.to_set().contains(name));
        assert(firsts(names).to_set().contains(name));
    } else if firsts(names).contains(name) {
        assert(firsts(names).to_set().contains(name));
        assert(names.to_set().contains(name));
    }
}

/// White space around an address is ignored; an address of white space only is no
/// address; one that names a scheme is parsed as it is, and any other behind
/// `http://`.
pub proof fn an_address_has_a_scheme(
    d: DraftView,
    left: Seq<char>,
    raw: Seq<char>,
    right: Seq<char>,
    scheme: Seq<char>,
    rest: Seq<char>,
)
    requires
        blank(left),
        tight(raw),
        blank(right),
        d.url == left + raw + right,
    ensures
        raw.len() == 0 ==> request_text(d) is None,
        raw.len() > 0 && filled(raw, d.path_params) == scheme + seq![':', '/', '/'] + rest
            ==> request_text(d) == Some(filled(raw, d.path_params)),
        raw.len() > 0 && (forall|i: int| !mark_at(filled(raw, d.path_params), i)) ==> request_text(
            d,
        ) == Some(seq!['h', 't', 't', 'p', ':', '/', '/'] + filled(raw, d.path_params)),
{
    trimming_takes_the_ends(left, raw, right);
    let text = filled(raw, d.path_params);
    lemma_mark(text, scheme, rest);
    reveal_strlit("http://");
    assert("http://"@ =~= seq!['h', 't', 't', 'p', ':', '/', '/']);
}

/// Whether `://` stands in a text at an offset.
pub open spec fn mark_at(text: Seq<char>, i: int) -> bool {
    0 <= i && i + 3 <= text.len() && text[i] == ':' && text[i + 1] == '/' && text[i + 2] == '/'
}

proof fn lemma_mark(text: Seq<char>, scheme: Seq<char>, rest: Seq<char>)
    ensures
        text == scheme + seq![':', '/', '/'] + rest ==> first_index(text, seq![':', '/', '/'], 0)
            is Some,
        (forall|i: int| !mark_at(text, i)) ==> first_index(text, seq![':', '/', '/'], 0) is None,
{
    let mark = seq![':', '/', '/'];
    if text == scheme + mark + rest {
        a_word_in_the_middle_is_found(scheme, mark, rest);
    }
    lemma_first_index(text, mark, 0);
    if let Some(i) = first_index(text, mark, 0) {
        let sub = text.subrange(i, i + 3);
        assert(sub[0] == text[i] && sub[1] == text[i + 1] && sub[2] == text[i + 2]);
        assert(mark_at(text, i));
    }
}

/// Only the schemes `http` and `https` are accepted; a URL that is accepted is
/// handed on as it was parsed.
pub proof fn other_schemes_are_refused(u: UrlView, e: Seq<char>)
    ensures
        u.scheme == "http"@ || u.scheme == "https"@ ==> accepted(Ok(u)) == Ok::<
            UrlView,
            UrlErrorView,
        >(u),
        u.scheme != "http"@ && u.scheme != "https"@ ==> accepted(Ok(u)) == Err::<
            UrlView,
            UrlErrorView,
        >(UrlErrorView::Invalid("不支持的协议："@ + u.scheme)),
        accepted(Err(e)) == Err::<UrlView, UrlErrorView>(UrlErrorView::Invalid(e)),
{
}

/// The URL of a request is what its address parses as, with the pairs of its used
/// parameters behind its query; without such parameters it is left as it is parsed;
/// and what stops it is told.
pub proof fn a_url_is_parsed_and_extended(d: DraftView, text: Seq<char>, u: UrlView)
    requires
        request_text(d) == Some(text),
        url_parsed(text) == Ok::<UrlView, Seq<char>>(u),
        u.scheme == "http"@ || u.scheme == "https"@,
    ensures
        used_pairs(d.params).len() == 0 ==> url_outcome(d) == Ok::<UrlView, UrlErrorView>(u),
        used_pairs(d.params).len() > 0 && has_room(u, used_pairs(d.params)) ==> url_outcome(d)
            == Ok::<UrlView, UrlErrorView>(extended(u, used_pairs(d.params))),
        used_pairs(d.params).len() > 0 && !has_room(u, used_pairs(d.params)) ==> url_outcome(d)
            is Err,
{
}

/// A request without an address has no URL, and an address that does not parse is
/// told with the parser's own words.
pub proof fn a_url_that_fails_is_told(d: DraftView, text: Seq<char>, e: Seq<char>)
    ensures
        request_text(d) is None ==> url_outcome(d) == Err::<UrlView, UrlErrorView>(
            UrlErrorView::Empty,
        ),
        request_text(d) == Some(text) && url_parsed(text) == Err::<UrlView, Seq<char>>(e)
            ==> url_outcome(d) == Err::<UrlView, UrlErrorView>(UrlErrorView::Invalid(e)),
{
}

/// The text of a URL is its parts in order, the query behind `?` and the fragment
/// behind `#`, where there are any.
pub proof fn urls_are_their_parts(u: UrlView)
    ensures
        u.query is None && u.fragment is None ==> u.href() == u.base,
        u.query is Some && u.fragment is None ==> u.href() == u.base + seq!['?'] + u.query->0,
        u.query is None && u.fragment is Some ==> u.href() == u.base + seq!['#'] + u.fragment->0,
        u.query is Some && u.fragment is Some ==> u.href() == u.base + seq!['?'] + u.query->0
            + seq!['#'] + u.fragment->0,
{
    assert(u.query is None && u.fragment is None ==> u.href() =~= u.base);
    assert(u.query is Some && u.fragment is None ==> u.href() =~= u.base + seq!['?'] + u.query->0);
    assert(u.query is None && u.fragment is Some ==> u.href() =~= u.base + seq!['#']
        + u.fragment->0);
    assert(u.query is Some && u.fragment is Some ==> u.href() =~= u.base + seq!['?'] + u.query->0
        + seq!['#'] + u.fragment->0);
}

} // verus!
