//! Laws of editing: the tables of a request, the title of its tab, and what becomes
//! of a request that was sent.
use crate::form_table::{filled_fields, settled_form, FormRowView};
use crate::http::{content_type_of, extension, last_index, plain_path, prepared};
use crate::http::error::RequestError;
use crate::http::sink::BodyStore;
use crate::kv_table::{effective, filled_rows, row_for, settled, synced};
use crate::laws::text::{blank, tight, trimming_takes_the_ends};
use crate::model::{BodyKindView, DraftView, FormValueView, KeyValueView, RawFormat};
use crate::request_tab::{
    after_cancel, after_clear, after_format, after_outcome, draft_of, formatted, hint_of, starts,
    title_of, title_of_tab, BodyHint, BodyMode, TabView,
};
use crate::response::{ResponseState, ResponseView};
use crate::strings::{ascii_lower, first_index, lemma_first_index, lemma_first_index_is, occurs_at};
use vstd::prelude::*;

verus! {

/// A table is read row by row: a row with a key or a value is read as it is, also
/// where it is switched off, and a row without either is not.
pub proof fn rows_with_content_are_read(rows: Seq<KeyValueView>, row: KeyValueView)
    ensures
        filled_rows(Seq::empty()).len() == 0,
        row.key.len() == 0 && row.value.len() == 0 ==> filled_rows(rows.push(row)) == filled_rows(
            rows,
        ),
        row.key.len() > 0 || row.value.len() > 0 ==> filled_rows(rows.push(row)) == filled_rows(
            rows,
        ).push(row),
{
    assert(rows.push(row).drop_last() =~= rows);
}

/// A table whose keys are free ends with one row to type into, which is enabled;
/// all that was in it stays in place. One whose keys are given is left alone.
pub proof fn tables_end_with_a_blank_row(rows: Seq<KeyValueView>, i: int)
    ensures
        settled(rows, true).rows == rows,
        ({
            let all = settled(rows, false).rows;
            &&& rows.len() <= all.len() <= rows.len() + 1
            &&& all[all.len() - 1].key.len() == 0 && all[all.len() - 1].value.len() == 0
            &&& all.len() > rows.len() ==> all[all.len() - 1].enabled
            &&& all.len() > rows.len() ==> rows.len() == 0 || rows[rows.len() - 1].key.len() > 0
                || rows[rows.len() - 1].value.len() > 0
            &&& 0 <= i < rows.len() ==> all[i] == rows[i]
        }),
{
}

/// The number on a table counts the enabled rows with a key.
pub proof fn rows_in_use_are_counted(rows: Seq<KeyValueView>, row: KeyValueView)
    ensures
        effective(Seq::empty()) == 0,
        effective(rows.push(row)) == effective(rows) + if row.enabled && row.key.len() > 0 {
            1nat
        } else {
            0nat
        },
{
    assert(rows.push(row).drop_last() =~= rows);
}

proof fn lemma_row_for(rows: Seq<KeyValueView>, key: Seq<char>, k: int)
    requires
        0 <= k <= rows.len(),
        forall|i: int| 0 <= i < k ==> (#[trigger] rows[i]).key != key,
    ensures
        k < rows.len() && rows[k].key == key ==> row_for(rows, key) == rows[k],
        k == rows.len() ==> row_for(rows, key) == (KeyValueView {
            key,
            value: Seq::empty(),
            enabled: true,
        }),
    decreases k,
{
    if k > 0 {
        assert(rows[0].key != key);
        let rest = rows.skip(1);
        assert forall|i: int| 0 <= i < k - 1 implies (#[trigger] rest[i]).key != key by {
            assert(rest[i] == rows[i + 1]);
        }
        lemma_row_for(rest, key, k - 1);
    }
}

/// The table of path parameters follows the names in the address: one row for each
/// name, in order; a name that had a row keeps it, value and switch, and a new name
/// starts empty and enabled.
pub proof fn path_rows_follow_the_names(
    rows: Seq<KeyValueView>,
    names: Seq<Seq<char>>,
    i: int,
    k: int,
)
    requires
        names.no_duplicates(),
        0 <= i < names.len(),
        0 <= k <= rows.len(),
        forall|j: int| 0 <= j < k ==> (#[trigger] rows[j]).key != names[i],
        k < rows.len() ==> rows[k].key == names[i],
    ensures
        synced(rows, names).len() == names.len(),
        synced(rows, names)[i].key == names[i],
        k < rows.len() ==> synced(rows, names)[i] == rows[k],
        k == rows.len() ==> synced(rows, names)[i] == (KeyValueView {
            key: names[i],
            value: Seq::empty(),
            enabled: true,
        }),
{
    lemma_row_for(rows, names[i], k);
    let keys = crate::kv_table::keys_of(rows);
    if keys == names {
        assert(keys[i] == rows[i].key);
        if k < rows.len() {
            assert(keys[k] == rows[k].key);
        } else {
            assert(rows[i].key != names[i]);
        }
    }
}

/// A multipart field is read where it has a key, a text or a file, also where it is
/// switched off, and not otherwise; and the table ends with a text row to type into.
pub proof fn fields_with_content_are_read(rows: Seq<FormRowView>, row: FormRowView, i: int)
    ensures
        ({
            let content = match row.field.value {
                FormValueView::Text { value } => value.len() > 0,
                FormValueView::File { path, .. } => path.len() > 0,
            };
            &&& row.field.key.len() > 0 || content ==> filled_fields(rows.push(row))
                == filled_fields(rows).push(row.field)
            &&& row.field.key.len() == 0 && !content ==> filled_fields(rows.push(row))
                == filled_fields(rows)
            &&& row.field.key.len() > 0 || content ==> settled_form(rows.push(row)).len()
                == rows.len() + 2 && settled_form(rows.push(row)).last().field.key.len() == 0
                && settled_form(rows.push(row)).last().field.enabled && settled_form(
                rows.push(row),
            ).last().field.value == (FormValueView::Text { value: Seq::empty() })
            &&& row.field.key.len() == 0 && !content ==> settled_form(rows.push(row)) == rows.push(
                row,
            )
            &&& 0 <= i < rows.len() ==> settled_form(rows.push(row))[i] == rows[i]
        }),
{
    assert(rows.push(row).drop_last() =~= rows);
}

/// A text without the given character.
pub open spec fn free_of(s: Seq<char>, c: char) -> bool {
    forall|i: int| 0 <= i < s.len() ==> #[trigger] s[i] != c
}

proof fn lemma_char_index(a: Seq<char>, c: char, b: Seq<char>)
    requires
        free_of(a, c),
    ensures
        first_index(a + seq![c] + b, seq![c], 0) == Some(a.len() as int),
{
    let s = a + seq![c] + b;
    let at = a.len() as int;
    assert(s.subrange(at, at + 1) =~= seq![c]);
    assert forall|j: int| 0 <= j < at implies !occurs_at(s, seq![c], j) by {
        if occurs_at(s, seq![c], j) {
            assert(s.subrange(j, j + 1)[0] == s[j]);
            assert(s[j] == a[j]);
        }
    }
    lemma_first_index_is(s, seq![c], 0, at);
}

proof fn lemma_no_char(a: Seq<char>, c: char)
    requires
        free_of(a, c),
    ensures
        first_index(a, seq![c], 0) is None,
{
    lemma_first_index(a, seq![c], 0);
    if let Some(j) = first_index(a, seq![c], 0) {
        assert(a.subrange(j, j + 1)[0] == a[j]);
    }
}

proof fn lemma_scheme(scheme: Seq<char>, rest: Seq<char>)
    requires
        free_of(scheme, ':'),
    ensures
        first_index(scheme + seq![':', '/', '/'] + rest, seq![':', '/', '/'], 0) == Some(
            scheme.len() as int,
        ),
        (scheme + seq![':', '/', '/'] + rest).skip((scheme.len() + 3) as int) == rest,
{
    let mark = seq![':', '/', '/'];
    let s = scheme + mark + rest;
    let at = scheme.len() as int;
    assert(s.subrange(at, at + 3) =~= mark);
    assert forall|j: int| 0 <= j < at implies !occurs_at(s, mark, j) by {
        if occurs_at(s, mark, j) {
            assert(s.subrange(j, j + 3)[0] == s[j]);
            assert(s[j] == scheme[j]);
        }
    }
    lemma_first_index_is(s, mark, 0, at);
    assert(s.skip(at + 3) =~= rest);
}

/// The title of a tab is the path of its address without the query; where there is
/// no path beyond `/`, it is the host; and without an address it says that the
/// request is new.
pub proof fn titles_name_the_path(
    left: Seq<char>,
    scheme: Seq<char>,
    host: Seq<char>,
    path: Seq<char>,
    query: Seq<char>,
    right: Seq<char>,
)
    requires
        blank(left),
        blank(right),
        free_of(scheme, ':'),
        host.len() > 0,
        free_of(host, '/'),
        free_of(host, '?'),
        free_of(path, '?'),
        query.len() == 0 || query[0] == '?',
        path.len() == 0 || path[0] == '/',
        tight(scheme + seq![':', '/', '/'] + (host + path + query)),
    ensures
        ({
            let url = left + (scheme + seq![':', '/', '/'] + (host + path + query)) + right;
            title_of(url) == if path.len() > 1 {
                path
            } else {
                host
            }
        }),
        title_of(left) == "新请求"@,
{
    let rest = host + path + query;
    let t = scheme + seq![':', '/', '/'] + rest;
    trimming_takes_the_ends(left, t, right);
    reveal_strlit("://");
    reveal_strlit("?");
    reveal_strlit("/");
    assert("://"@ =~= seq![':', '/', '/']);
    assert("?"@ =~= seq!['?']);
    assert("/"@ =~= seq!['/']);
    lemma_scheme(scheme, rest);
    let shown = host + path;
    lemma_shown(host, path, query);
    lemma_path_of(host, path);
    lemma_blank_title(left);
}

proof fn lemma_shown(host: Seq<char>, path: Seq<char>, query: Seq<char>)
    requires
        free_of(host, '?'),
        free_of(path, '?'),
        query.len() == 0 || query[0] == '?',
    ensures
        match first_index(host + path + query, seq!['?'], 0) {
            Some(i) => (host + path + query).take(i) == host + path,
            None => host + path + query == host + path,
        },
{
    let shown = host + path;
    assert(free_of(shown, '?')) by {
        assert forall|i: int| 0 <= i < shown.len() implies #[trigger] shown[i] != '?' by {
            if i < host.len() {
                assert(shown[i] == host[i]);
            } else {
                assert(shown[i] == path[i - host.len()]);
            }
        }
    }
    if query.len() == 0 {
        assert(shown + query =~= shown);
        lemma_no_char(shown, '?');
    } else {
        assert(shown + query =~= shown + seq!['?'] + query.skip(1));
        lemma_char_index(shown, '?', query.skip(1));
        assert((shown + query).take(shown.len() as int) =~= shown);
    }
}

proof fn lemma_path_of(host: Seq<char>, path: Seq<char>)
    requires
        host.len() > 0,
        free_of(host, '/'),
        path.len() == 0 || path[0] == '/',
    ensures
        match first_index(host + path, seq!['/'], 0) {
            Some(i) => i == host.len() && path.len() > 0 && (host + path).skip(i) == path && (host
                + path).take(i) == host,
            None => path.len() == 0 && host + path == host,
        },
{
    if path.len() == 0 {
        assert(host + path =~= host);
        lemma_no_char(host, '/');
    } else {
        assert(host + path =~= host + seq!['/'] + path.skip(1));
        lemma_char_index(host, '/', path.skip(1));
        assert((host + path).skip(host.len() as int) =~= path);
        assert((host + path).take(host.len() as int) =~= host);
    }
}

proof fn lemma_blank_title(left: Seq<char>)
    requires
        blank(left),
    ensures
        title_of(left) == "新请求"@,
{
    let none = Seq::<char>::empty();
    trimming_takes_the_ends(left, none, none);
    assert(left + none + none =~= left);
    reveal_strlit("://");
    reveal_strlit("?");
    lemma_first_index(none, "://"@, 0);
    lemma_first_index(none, "?"@, 0);
}

/// The title of a tab whose request was saved is the name that it was saved under.
pub proof fn saved_names_are_titles(t: TabView)
    ensures
        t.saved_name matches Some(name) ==> title_of_tab(t) == name,
        t.saved_name is None ==> title_of_tab(t) == title_of(t.url),
{
}

proof fn lemma_last_char(a: Seq<char>, c: char, b: Seq<char>, n: int)
    requires
        free_of(b, c),
        a.len() < n <= a.len() + 1 + b.len(),
    ensures
        last_index(a + seq![c] + b, c, n) == Some(a.len() as int),
    decreases n,
{
    let s = a + seq![c] + b;
    if n - 1 > a.len() {
        assert(s[n - 1] == b[n - 2 - a.len()]);
        lemma_last_char(a, c, b, n - 1);
    } else {
        assert(s[n - 1] == c);
    }
}

/// The type of a file follows from the letters behind the last dot of its name, in
/// any case, whatever directories it is in.
pub proof fn files_have_extensions(dir: Seq<char>, stem: Seq<char>, ext: Seq<char>)
    requires
        stem.len() > 0,
        free_of(stem, '/'),
        ext.len() > 0,
        free_of(ext, '/'),
        free_of(ext, '.'),
    ensures
        extension(dir + seq!['/'] + (stem + seq!['.'] + ext)) == Some(ext),
{
    let name = stem + seq!['.'] + ext;
    let path = dir + seq!['/'] + name;
    let n = path.len() as int;
    assert(path[n - 1] == ext[ext.len() - 1]);
    assert(plain_path(path) == path);
    assert(free_of(name, '/')) by {
        assert forall|i: int| 0 <= i < name.len() implies #[trigger] name[i] != '/' by {
            if i < stem.len() {
                assert(name[i] == stem[i]);
            } else if i > stem.len() {
                assert(name[i] == ext[i - stem.len() - 1]);
            }
        }
    }
    lemma_last_char(dir, '/', name, n);
    assert(path.skip((dir.len() + 1) as int) =~= name);
    lemma_last_char(stem, '.', ext, name.len() as int);
    assert(name.skip((stem.len() + 1) as int) =~= ext);
    assert(name.len() >= 3);
}

/// Extensions that differ in case only stand for the same type, and one that is not
/// known for bytes of any kind.
pub proof fn extensions_stand_for_types(a: Seq<char>, b: Seq<char>)
    ensures
        ascii_lower(a) == ascii_lower(b) ==> content_type_of(Some(a)) == content_type_of(Some(b)),
        ascii_lower(a) == "json"@ ==> content_type_of(Some(a)) == "application/json"@,
        ascii_lower(a) == "xml"@ ==> content_type_of(Some(a)) == "application/xml"@,
        ascii_lower(a) == "txt"@ || ascii_lower(a) == "log"@ || ascii_lower(a) == "md"@
            ==> content_type_of(Some(a)) == "text/plain"@,
        ascii_lower(a) == "csv"@ ==> content_type_of(Some(a)) == "text/csv"@,
        ascii_lower(a) == "html"@ || ascii_lower(a) == "htm"@ ==> content_type_of(Some(a))
            == "text/html"@,
        ascii_lower(a) == "png"@ ==> content_type_of(Some(a)) == "image/png"@,
        ascii_lower(a) == "jpg"@ || ascii_lower(a) == "jpeg"@ ==> content_type_of(Some(a))
            == "image/jpeg"@,
        ascii_lower(a) == "gif"@ ==> content_type_of(Some(a)) == "image/gif"@,
        ascii_lower(a) == "pdf"@ ==> content_type_of(Some(a)) == "application/pdf"@,
        ascii_lower(a) == "zip"@ ==> content_type_of(Some(a)) == "application/zip"@,
        ascii_lower(a).len() > 4 || ascii_lower(a).len() < 2 ==> content_type_of(Some(a))
            == "application/octet-stream"@,
        content_type_of(None) == "application/octet-stream"@,
{
    reveal_strlit("json");
    reveal_strlit("xml");
    reveal_strlit("txt");
    reveal_strlit("log");
    reveal_strlit("md");
    reveal_strlit("csv");
    reveal_strlit("html");
    reveal_strlit("htm");
    reveal_strlit("png");
    reveal_strlit("jpg");
    reveal_strlit("jpeg");
    reveal_strlit("gif");
    reveal_strlit("pdf");
    reveal_strlit("zip");
    assert("json"@[0] == 'j' && "html"@[0] == 'h' && "jpeg"@[1] == 'p' && "json"@[1] == 's');
    assert("xml"@[0] == 'x' && "txt"@[0] == 't' && "log"@[0] == 'l' && "csv"@[0] == 'c');
    assert("htm"@[0] == 'h' && "png"@[0] == 'p' && "png"@[1] == 'n' && "jpg"@[0] == 'j');
    assert("gif"@[0] == 'g' && "pdf"@[0] == 'p' && "pdf"@[1] == 'd' && "zip"@[0] == 'z');
}

/// The outcome of a request reaches its tab, whatever else the tab holds; that of
/// any other request does not.
pub proof fn outcomes_reach_their_request(
    t: TabView,
    generation: u64,
    outcome: Result<(BodyStore, ResponseView), RequestError>,
)
    ensures
        generation != t.generation ==> after_outcome(t, generation, outcome) == t,
        generation == t.generation ==> ({
            let r = after_outcome(t, generation, outcome);
            &&& r.url == t.url && r.method == t.method && r.generation == t.generation && r.dirty
                == t.dirty && r.id == t.id && r.saved_id == t.saved_id
            &&& match outcome {
                Ok((body, view)) => r.response == (ResponseState::Done { body, view }),
                Err(error) => r.response == (ResponseState::Failed { error }),
            }
        }),
{
}

/// Cancelling ends the request under way, and clearing puts the response away;
/// either leaves what is edited alone.
pub proof fn dropping_ends_the_request(t: TabView)
    ensures
        t.response is InFlight ==> after_cancel(t).response == (ResponseState::Failed {
            error: RequestError::Cancelled,
        }),
        !(t.response is InFlight) ==> after_cancel(t) == t,
        after_clear(t).response is Idle,
        after_cancel(t).url == t.url && after_clear(t).url == t.url,
        after_cancel(t).dirty == t.dirty && after_clear(t).dirty == t.dirty,
        after_cancel(t).raw == t.raw && after_clear(t).raw == t.raw,
{
}

/// Formatting touches a JSON body alone, and only where it changes its text: the tab
/// then counts as changed. A body that is no JSON stays, with a remark.
pub proof fn formatting_touches_json_alone(t: TabView)
    ensures
        ({
            let r = after_format(t);
            let text = t.raw.json;
            let skipped = t.body_mode != BodyMode::Raw || t.raw_format != RawFormat::Json
                || crate::strings::trimmed(text).len() == 0;
            let read = crate::json::json_parsed(vstd::utf8::encode_utf8(text));
            &&& skipped ==> r == t
            &&& !skipped && read is Err ==> r.raw == t.raw && r.dirty == t.dirty && r.body_hint
                == Some(BodyHint::InvalidJson)
            &&& !skipped && read is Ok ==> r.raw.json == formatted(text) && r.raw.text == t.raw.text
                && r.raw.xml == t.raw.xml && r.dirty == (t.dirty || formatted(text) != text)
            &&& r.url == t.url && r.method == t.method && r.headers == t.headers && r.id == t.id
        }),
{
}

/// A typed body is remarked on above ten megabytes; a multipart form where an enabled
/// header sets the content type, in any case; no other body is.
pub proof fn bodies_are_remarked_on(t: TabView, i: int)
    ensures
        t.body_mode == BodyMode::Raw ==> hint_of(t) == if vstd::utf8::encode_utf8(
            t.raw.of(t.raw_format),
        ).len() > 10 * 1024 * 1024 {
            Some(BodyHint::TooLarge)
        } else {
            None
        },
        t.body_mode == BodyMode::FormData && 0 <= i < t.headers.rows.len()
            && t.headers.rows[i].enabled && ascii_lower(t.headers.rows[i].key) == ascii_lower(
            "content-type"@,
        ) ==> hint_of(t) == Some(BodyHint::FormDataContentType),
        t.body_mode == BodyMode::FormData && (forall|k: int|
            0 <= k < t.headers.rows.len() ==> !((#[trigger] t.headers.rows[k]).enabled
                && ascii_lower(t.headers.rows[k].key) == ascii_lower("content-type"@)))
            ==> hint_of(t) is None,
        t.body_mode == BodyMode::Empty || t.body_mode == BodyMode::FormUrlEncoded || t.body_mode
            == BodyMode::File ==> hint_of(t) is None,
{
    if t.body_mode == BodyMode::FormData && 0 <= i < t.headers.rows.len()
        && t.headers.rows[i].enabled && ascii_lower(t.headers.rows[i].key) == ascii_lower(
        "content-type"@,
    ) {
        assert(crate::request_tab::sets_content_type(t.headers.rows[i]));
    }
}

/// What is sent of a tab is what is edited in it: the body of its mode, and of a typed
/// body the text of its format.
pub proof fn the_body_of_the_mode_is_sent(t: TabView)
    ensures
        draft_of(t).method == t.method,
        draft_of(t).url == t.url,
        draft_of(t).pre_ops == t.pre_ops,
        draft_of(t).post_ops == t.post_ops,
        t.body_mode == BodyMode::Empty ==> draft_of(t).body is Empty,
        t.body_mode == BodyMode::Raw && t.raw_format == RawFormat::Json ==> draft_of(t).body == (
        BodyKindView::Raw { format: RawFormat::Json, text: t.raw.json }),
        t.body_mode == BodyMode::Raw && t.raw_format == RawFormat::Text ==> draft_of(t).body == (
        BodyKindView::Raw { format: RawFormat::Text, text: t.raw.text }),
        t.body_mode == BodyMode::Raw && t.raw_format == RawFormat::Xml ==> draft_of(t).body == (
        BodyKindView::Raw { format: RawFormat::Xml, text: t.raw.xml }),
        t.body_mode == BodyMode::FormData ==> draft_of(t).body == (BodyKindView::FormData {
            fields: filled_fields(t.form_data),
        }),
        t.body_mode == BodyMode::FormUrlEncoded ==> draft_of(t).body == (
        BodyKindView::FormUrlEncoded { fields: filled_rows(t.form.rows) }),
        t.body_mode == BodyMode::File && t.file_path is Some ==> draft_of(t).body == (
        BodyKindView::File {
            path: t.file_path->0,
            content_type: Some(content_type_of(extension(t.file_path->0))),
        }),
        t.body_mode == BodyMode::File && t.file_path is None ==> draft_of(t).body == (
        BodyKindView::File { path: Seq::empty(), content_type: None }),
{
}

/// Sending hands over the prepared request under a new number and waits for it; a
/// request that cannot be prepared is not sent, and why is shown; and while one is
/// under way, no other is sent.
pub proof fn sending_hands_over_the_request(
    before: TabView,
    draft: DraftView,
    after: TabView,
    handed: Option<(u64, crate::http::HttpRequest)>,
)
    requires
        starts(before, draft, after, handed),
    ensures
        before.response is InFlight ==> handed is None && after == before,
        !(before.response is InFlight) && prepared(draft) is Ok ==> ({
            &&& handed matches Some(pair) && pair.0 == before.generation + 1 && pair.1@ == prepared(
                draft,
            )->Ok_0
            &&& after.response is InFlight
            &&& after.url_error is None
            &&& after.url == before.url && after.dirty == before.dirty
        }),
        !(before.response is InFlight) && prepared(draft) is Err ==> handed is None
            && after.url_error is Some && after.response == before.response && after.url
            == before.url && after.generation == before.generation,
{
}

} // verus!
