//! The URL of a request: its text with path parameters filled in, parsed, and
//! with the query parameters appended.
use crate::http::{form_encoded, form_text};
use crate::model::{KeyValue, KeyValueView, RequestDraft, DraftView};
use crate::strings::{
    chars_of, find_chars, first_index, lemma_first_index, occurs_at, opt_text, push_text,
    same_text, string_of, trim, trimmed, views,
};
use vstd::prelude::*;

verus! {

#[derive(Debug, PartialEq, Eq)]
pub enum UrlError {
    Empty,
    Invalid(String),
}

pub enum UrlErrorView {
    Empty,
    Invalid(Seq<char>),
}

impl View for UrlError {
    type V = UrlErrorView;

    open spec fn view(&self) -> UrlErrorView {
        match *self {
            UrlError::Empty => UrlErrorView::Empty,
            UrlError::Invalid(text) => UrlErrorView::Invalid(text@),
        }
    }
}

/// The message of an error.
pub open spec fn url_error_text(e: UrlErrorView) -> Seq<char> {
    match e {
        UrlErrorView::Empty => "URL 不能为空"@,
        UrlErrorView::Invalid(detail) => "无效的 URL："@ + detail,
    }
}

impl UrlError {
    /// The message for the user.
    pub fn message(&self) -> (r: String)
        ensures
            r@ == url_error_text(self@),
    {
        match self {
            UrlError::Empty => "URL 不能为空".to_owned(),
            UrlError::Invalid(detail) => {
                let mut out = "无效的 URL：".to_owned();
                push_text(&mut out, detail.as_str());
                out
            },
        }
    }
}

/// A parsed URL: its text and the parts that it is made of.
#[derive(Debug, PartialEq, Eq)]
pub struct Url {
    href: String,
    base: String,
    scheme: String,
    path: String,
    query: Option<String>,
    fragment: Option<String>,
}

pub struct UrlView {
    /// Everything before the query and the fragment.
    pub base: Seq<char>,
    pub scheme: Seq<char>,
    pub path: Seq<char>,
    pub query: Option<Seq<char>>,
    pub fragment: Option<Seq<char>>,
}

/// A part of a URL behind the mark that introduces it.
pub open spec fn marked(mark: char, part: Option<Seq<char>>) -> Seq<char> {
    match part {
        Some(text) => seq![mark] + text,
        None => Seq::empty(),
    }
}

impl UrlView {
    /// The text of the URL.
    pub open spec fn href(self) -> Seq<char> {
        self.base + marked('?', self.query) + marked('#', self.fragment)
    }
}

impl View for Url {
    type V = UrlView;

    closed spec fn view(&self) -> UrlView {
        UrlView {
            base: self.base@,
            scheme: self.scheme@,
            path: self.path@,
            query: opt_text(self.query),
            fragment: opt_text(self.fragment),
        }
    }
}

impl Url {
    #[verifier::type_invariant]
    spec fn spelled(&self) -> bool {
        self.href@ == self@.href()
    }

    pub fn as_str(&self) -> (r: &str)
        ensures
            r@ == self@.href(),
    {
        proof {
            use_type_invariant(self);
        }
        self.href.as_str()
    }

    pub fn scheme(&self) -> (r: &str)
        ensures
            r@ == self@.scheme,
    {
        self.scheme.as_str()
    }

    pub fn path(&self) -> (r: &str)
        ensures
            r@ == self@.path,
    {
        self.path.as_str()
    }

    pub fn query(&self) -> (r: Option<&str>)
        ensures
            match r {
                Some(q) => self@.query == Some(q@),
                None => self@.query is None,
            },
    {
        match &self.query {
            Some(q) => Some(q.as_str()),
            None => None,
        }
    }

    fn of_parts(parts: Parts) -> (r: Url)
        requires
            parts.marks_stand(),
        ensures
            r@ == parts@,
    {
        let mut href = parts.base.clone();
        push_text(&mut href, parts.query.as_str());
        push_text(&mut href, parts.fragment.as_str());
        let query = without_mark(parts.query.as_str());
        let fragment = without_mark(parts.fragment.as_str());
        proof {
            lemma_marked('?', parts.query@);
            lemma_marked('#', parts.fragment@);
            assert(href@ =~= parts@.href());
        }
        Url { href, base: parts.base, scheme: parts.scheme, path: parts.path, query, fragment }
    }
}

/// What a URL is split into. The query and the fragment stand with their marks;
/// where there is none, the text is empty.
struct Parts {
    base: String,
    scheme: String,
    path: String,
    query: String,
    fragment: String,
}

/// A part of a URL without its mark.
pub open spec fn unmarked(text: Seq<char>) -> Option<Seq<char>> {
    if text.len() == 0 {
        None
    } else {
        Some(text.skip(1))
    }
}

impl View for Parts {
    type V = UrlView;

    closed spec fn view(&self) -> UrlView {
        UrlView {
            base: self.base@,
            scheme: self.scheme@,
            path: self.path@,
            query: unmarked(self.query@),
            fragment: unmarked(self.fragment@),
        }
    }
}

impl Parts {
    /// Whether the query and the fragment stand with their marks.
    closed spec fn marks_stand(&self) -> bool {
        &&& self.query@.len() > 0 ==> self.query@[0] == '?'
        &&& self.fragment@.len() > 0 ==> self.fragment@[0] == '#'
    }
}

proof fn lemma_marked(mark: char, text: Seq<char>)
    requires
        text.len() > 0 ==> text[0] == mark,
    ensures
        marked(mark, unmarked(text)) == text,
{
    assert(marked(mark, unmarked(text)) =~= text);
}

fn without_mark(text: &str) -> (r: Option<String>)
    ensures
        opt_text(r) == unmarked(text@),
{
    let chars = chars_of(text);
    if chars.len() == 0 {
        return None;
    }
    proof {
        assert(chars@.subrange(1, chars@.len() as int) =~= text@.skip(1));
    }
    Some(string_of(chars.as_slice(), 1, chars.len()))
}

/// What `url::Url::parse` makes of a text: the URL, or the message of its error.
pub uninterp spec fn url_parsed(text: Seq<char>) -> Result<UrlView, Seq<char>>;

/// The view of what a parse gives.
pub open spec fn parse_view(r: Result<Url, String>) -> Result<UrlView, Seq<char>> {
    match r {
        Ok(u) => Ok(u@),
        Err(e) => Err(e@),
    }
}

/// The view of a list of pairs.
pub open spec fn pairs_view(pairs: Seq<(String, String)>) -> Seq<(Seq<char>, Seq<char>)> {
    pairs.map_values(|p: (String, String)| (p.0@, p.1@))
}

/// `url::Url::parse`, with the URL cut at the ends of its path and of its query.
/// What lies behind the path starts with `?`, and what lies behind the query
/// with `#`.
#[verifier::external_body]
fn parse_parts(text: &str) -> (r: Result<Parts, String>)
    ensures
        match r {
            Ok(p) => url_parsed(text@) == Ok::<UrlView, Seq<char>>(p@) && p.marks_stand(),
            Err(e) => url_parsed(text@) == Err::<UrlView, Seq<char>>(e@),
        },
{
    match ::url::Url::parse(text) {
        Ok(u) => Ok(
            Parts {
                base: u[..::url::Position::AfterPath].to_string(),
                scheme: u.scheme().to_string(),
                path: u.path().to_string(),
                query: u[::url::Position::AfterPath..::url::Position::AfterQuery].to_string(),
                fragment: u[::url::Position::AfterQuery..].to_string(),
            },
        ),
        Err(e) => Err(e.to_string()),
    }
}

/// The query of a URL to which pairs are appended.
pub open spec fn longer_query(query: Option<Seq<char>>, pairs: Seq<(Seq<char>, Seq<char>)>) -> Seq<
    char,
> {
    match query {
        Some(q) => if q.len() > 0 {
            q + seq!['&'] + form_text(pairs)
        } else {
            form_text(pairs)
        },
        None => form_text(pairs),
    }
}

/// A URL with pairs appended to its query; nothing else changes.
pub open spec fn extended(u: UrlView, pairs: Seq<(Seq<char>, Seq<char>)>) -> UrlView {
    UrlView { query: Some(longer_query(u.query, pairs)), ..u }
}

/// How long a URL is in bytes up to its fragment, once pairs are appended. The text
/// of the pairs has a byte for each character.
pub open spec fn length_with(u: UrlView, pairs: Seq<(Seq<char>, Seq<char>)>) -> nat {
    let base = vstd::utf8::encode_utf8(u.base).len();
    let before = match u.query {
        Some(q) => if q.len() > 0 {
            vstd::utf8::encode_utf8(q).len() + 1
        } else {
            0
        },
        None => 0,
    };
    base + 1 + before + form_text(pairs).len()
}

/// Whether pairs can be appended to a URL: the offset of a query that is new fits 32
/// bits, and so does that of the fragment, which the pairs move.
pub open spec fn has_room(u: UrlView, pairs: Seq<(Seq<char>, Seq<char>)>) -> bool {
    &&& u.query is None ==> vstd::utf8::encode_utf8(u.base).len() <= u32::MAX
    &&& u.fragment is Some ==> length_with(u, pairs) <= u32::MAX
}

/// The detail of the error for a URL without room for its query.
pub const TOO_LONG: &'static str = "URLs more than 4 GB are not supported";

proof fn lemma_form_text_grows(pairs: Seq<(Seq<char>, Seq<char>)>, n: int)
    requires
        0 <= n <= pairs.len(),
    ensures
        form_text(pairs.take(n)).len() <= form_text(pairs).len(),
    decreases pairs.len(),
{
    if n == pairs.len() {
        assert(pairs.take(n) =~= pairs);
    } else {
        lemma_form_text_grows(pairs.drop_last(), n);
        assert(pairs.drop_last().take(n) =~= pairs.take(n));
    }
}

/// The length of a text once it is escaped.
fn form_len(text: &str) -> (r: u128)
    ensures
        r == form_encoded(vstd::utf8::encode_utf8(text@)).len(),
        r <= 3 * usize::MAX,
{
    let bytes = text.as_bytes();
    let ghost all = bytes@;
    let mut total: u128 = 0;
    let mut i: usize = 0;
    proof {
        assert(all.take(0) =~= Seq::<u8>::empty());
    }
    while i < bytes.len()
        invariant
            all == bytes@,
            i <= all.len(),
            total == form_encoded(all.take(i as int)).len(),
            total <= 3 * i,
        decreases all.len() - i,
    {
        let b = bytes[i];
        proof {
            assert(all.take(i + 1).drop_last() =~= all.take(i as int));
        }
        let plain = (0x30 <= b && b <= 0x39) || (0x41 <= b && b <= 0x5a) || (0x61 <= b && b
            <= 0x7a) || b == 0x2a || b == 0x2d || b == 0x2e || b == 0x5f || b == 0x20;
        total = total + if plain {
            1
        } else {
            3
        };
        i = i + 1;
    }
    proof {
        assert(all.take(i as int) =~= all);
    }
    total
}

/// Tells whether the text of pairs is at most `limit` long.
fn form_fits(pairs: &Vec<(String, String)>, limit: u128) -> (r: bool)
    requires
        limit <= u32::MAX,
    ensures
        r == (form_text(pairs_view(pairs@)).len() <= limit),
{
    let ghost all = pairs_view(pairs@);
    let mut total: u128 = 0;
    let mut i: usize = 0;
    proof {
        assert(all.take(0) =~= Seq::<(Seq<char>, Seq<char>)>::empty());
    }
    while i < pairs.len()
        invariant
            all == pairs_view(pairs@),
            limit <= u32::MAX,
            i <= pairs@.len(),
            total == form_text(all.take(i as int)).len(),
            total <= limit,
        decreases pairs@.len() - i,
    {
        let mark: u128 = if i > 0 {
            2
        } else {
            1
        };
        total = total + mark + form_len(pairs[i].0.as_str()) + form_len(pairs[i].1.as_str());
        proof {
            assert(all.take(i + 1).drop_last() =~= all.take(i as int));
            assert(all.take(i + 1).last() == (pairs@[i as int].0@, pairs@[i as int].1@));
            lemma_form_text_grows(all, i + 1);
        }
        if total > limit {
            return false;
        }
        i = i + 1;
    }
    proof {
        assert(all.take(i as int) =~= all);
    }
    true
}

/// Tells whether pairs can be appended to a URL.
pub fn check_room(u: &Url, pairs: &Vec<(String, String)>) -> (r: bool)
    ensures
        r == has_room(u@, pairs_view(pairs@)),
{
    let limit: u128 = u32::MAX as u128;
    let base = u.base.as_str().as_bytes().len() as u128;
    let before: u128 = match &u.query {
        Some(q) => if q.as_str().unicode_len() > 0 {
            q.as_str().as_bytes().len() as u128 + 1
        } else {
            0
        },
        None => {
            if base > limit {
                return false;
            }
            0
        },
    };
    if u.fragment.is_none() {
        return true;
    }
    let so_far = base + 1 + before;
    so_far <= limit && form_fits(pairs, limit - so_far)
}

/// `url::Url::parse`, then `append_pair` of `query_pairs_mut` for each pair, with the
/// URL cut as by [`parse_parts`]. The text of the pairs goes behind the query, after
/// `&` where that is not empty; nothing else changes. It panics where the offset of
/// a new query or of the fragment does not fit 32 bits.
#[verifier::external_body]
fn parse_parts_with(text: &str, pairs: &Vec<(String, String)>) -> (r: Result<Parts, String>)
    requires
        pairs@.len() > 0,
        url_parsed(text@) matches Ok(u) ==> has_room(u, pairs_view(pairs@)),
    ensures
        match (r, url_parsed(text@)) {
            (Ok(p), Ok(u)) => p@ == extended(u, pairs_view(pairs@)) && p.marks_stand(),
            (Err(e), Err(detail)) => e@ == detail,
            _ => false,
        },
{
    let mut u = ::url::Url::parse(text).map_err(|e| e.to_string())?;
    u.query_pairs_mut().extend_pairs(pairs);
    Ok(
        Parts {
            base: u[..::url::Position::AfterPath].to_string(),
            scheme: u.scheme().to_string(),
            path: u.path().to_string(),
            query: u[::url::Position::AfterPath..::url::Position::AfterQuery].to_string(),
            fragment: u[::url::Position::AfterQuery..].to_string(),
        },
    )
}

fn parse_url(text: &str) -> (r: Result<Url, String>)
    ensures
        parse_view(r) == url_parsed(text@),
{
    match parse_parts(text) {
        Ok(parts) => Ok(Url::of_parts(parts)),
        Err(e) => Err(e),
    }
}

/// The texts between braces from offset `at` on, in order: not empty, and
/// without a brace in them.
pub open spec fn names_from(url: Seq<char>, at: int) -> Seq<Seq<char>>
    decreases url.len() - at,
{
    if at < 0 || at > url.len() {
        Seq::empty()
    } else {
        proof {
            lemma_first_index(url, seq!['{'], at);
        }
        match first_index(url, seq!['{'], at) {
            None => Seq::empty(),
            Some(start) => {
                proof {
                    lemma_first_index(url, seq!['}'], start + 1);
                }
                match first_index(url, seq!['}'], start + 1) {
                    None => Seq::empty(),
                    Some(end) => {
                        let name = url.subrange(start + 1, end);
                        let rest = names_from(url, end + 1);
                        if name.len() > 0 && !name.contains('{') {
                            seq![name] + rest
                        } else {
                            rest
                        }
                    },
                }
            },
        }
    }
}

/// The elements of `s`, each at its first occurrence only.
pub open spec fn firsts(s: Seq<Seq<char>>) -> Seq<Seq<char>>
    decreases s.len(),
{
    if s.len() == 0 {
        s
    } else {
        let head = firsts(s.drop_last());
        if head.contains(s.last()) {
            head
        } else {
            head.push(s.last())
        }
    }
}

/// [`firsts`] keeps every element once.
pub proof fn firsts_are_distinct(s: Seq<Seq<char>>)
    ensures
        firsts(s).no_duplicates(),
        firsts(s).to_set() == s.to_set(),
    decreases s.len(),
{
    if s.len() == 0 {
        assert(firsts(s).to_set() =~= s.to_set());
    } else {
        firsts_are_distinct(s.drop_last());
        let head = firsts(s.drop_last());
        let f = firsts(s);
        assert forall|x: Seq<char>| f.to_set().contains(x) <==> s.to_set().contains(x) by {
            if s.contains(x) {
                let i = choose|i: int| 0 <= i < s.len() && s[i] == x;
                if i < s.len() - 1 {
                    assert(s.drop_last()[i] == x);
                    assert(s.drop_last().to_set().contains(x));
                    assert(head.to_set().contains(x));
                    let k = choose|k: int| 0 <= k < head.len() && head[k] == x;
                    assert(f[k] == x);
                } else if !head.contains(x) {
                    assert(f[f.len() - 1] == x);
                }
            }
            if f.contains(x) {
                let k = choose|k: int| 0 <= k < f.len() && f[k] == x;
                if k < head.len() {
                    assert(head[k] == x);
                    assert(head.to_set().contains(x));
                    assert(s.drop_last().to_set().contains(x));
                    let i = choose|i: int| 0 <= i < s.drop_last().len() && s.drop_last()[i] == x;
                    assert(s[i] == x);
                } else {
                    assert(s[s.len() - 1] == x);
                }
            }
        }
        assert(f.to_set() =~= s.to_set());
    }
}

fn has_char(chars: &Vec<char>, from: usize, to: usize, c: char) -> (r: bool)
    requires
        from <= to <= chars@.len(),
    ensures
        r == chars@.subrange(from as int, to as int).contains(c),
{
    let mut i: usize = from;
    while i < to
        invariant
            from <= i <= to <= chars@.len(),
            forall|k: int| from <= k < i ==> chars@[k] != c,
        decreases to - i,
    {
        if chars[i] == c {
            proof {
                assert(chars@.subrange(from as int, to as int)[i - from] == c);
            }
            return true;
        }
        i = i + 1;
    }
    false
}

fn listed(names: &Vec<String>, name: &str) -> (r: bool)
    ensures
        r == views(names@).contains(name@),
{
    let mut i: usize = 0;
    while i < names.len()
        invariant
            i <= names@.len(),
            forall|k: int| 0 <= k < i ==> names@[k]@ != name@,
        decreases names@.len() - i,
    {
        if same_text(names[i].as_str(), name) {
            proof {
                assert(views(names@)[i as int] == name@);
            }
            return true;
        }
        i = i + 1;
    }
    proof {
        if views(names@).contains(name@) {
            let k = choose|k: int| 0 <= k < views(names@).len() && views(names@)[k] == name@;
            assert(names@[k]@ == name@);
        }
    }
    false
}

/// The names of the `{name}` placeholders, in the order of their first
/// occurrence; `{}` and an unclosed `{` are skipped.
pub fn extract_path_params(url: &str) -> (r: Vec<String>)
    ensures
        views(r@) == firsts(names_from(url@, 0)),
{
    let chars = chars_of(url);
    let open = ['{'];
    let close = ['}'];
    let mut names: Vec<String> = Vec::new();
    let mut at: usize = 0;
    let n = chars.len();
    let ghost mut seen: Seq<Seq<char>> = Seq::empty();
    proof {
        assert(open@ =~= seq!['{']);
        assert(close@ =~= seq!['}']);
        assert(views(names@) =~= firsts(seen));
        assert(seen + names_from(url@, 0) =~= names_from(url@, 0));
    }
    loop
        invariant
            chars@ == url@,
            n == chars@.len(),
            open@ == seq!['{'],
            close@ == seq!['}'],
            at <= n,
            views(names@) == firsts(seen),
            seen + names_from(url@, at as int) == names_from(url@, 0),
        decreases n - at,
    {
        let start = match find_chars(chars.as_slice(), open.as_slice(), at) {
            Some(i) => i,
            None => {
                proof {
                    assert(seen + Seq::<Seq<char>>::empty() =~= seen);
                }
                return names;
            },
        };
        let end = match find_chars(chars.as_slice(), close.as_slice(), start + 1) {
            Some(i) => i,
            None => {
                proof {
                    assert(seen + Seq::<Seq<char>>::empty() =~= seen);
                }
                return names;
            },
        };
        if end > start + 1 && !has_char(&chars, start + 1, end, '{') {
            let name = string_of(chars.as_slice(), start + 1, end);
            let ghost old_names = views(names@);
            let ghost rest = names_from(url@, end + 1);
            proof {
                assert(seen + (seq![name@] + rest) =~= seen.push(name@) + rest);
                assert(seen.push(name@).drop_last() =~= seen);
                seen = seen.push(name@);
            }
            if !listed(&names, name.as_str()) {
                let ghost added = name@;
                names.push(name);
                proof {
                    assert(views(names@) =~= old_names.push(added));
                }
            }
        }
        at = end + 1;
    }
}

/// A row that takes part: switched on and with a key.
pub open spec fn is_used(row: KeyValueView) -> bool {
    row.enabled && row.key.len() > 0
}

pub open spec fn placeholder(key: Seq<char>) -> Seq<char> {
    seq!['{'] + key + seq!['}']
}

/// The first row whose placeholder stands in `url` at offset `at`.
pub open spec fn row_at(url: Seq<char>, rows: Seq<KeyValueView>, at: int) -> Option<KeyValueView>
    decreases rows.len(),
{
    if rows.len() == 0 {
        None
    } else if is_used(rows[0]) && occurs_at(url, placeholder(rows[0].key), at) {
        Some(rows[0])
    } else {
        row_at(url, rows.skip(1), at)
    }
}

/// The tail of `url` from offset `at` with its placeholders filled in. Filled-in
/// values are not looked at again.
pub open spec fn filled_from(url: Seq<char>, rows: Seq<KeyValueView>, at: int) -> Seq<char>
    decreases url.len() - at,
{
    if at < 0 || at >= url.len() {
        Seq::empty()
    } else {
        proof {
            lemma_row_at(url, rows, at);
        }
        match row_at(url, rows, at) {
            Some(row) => row.value + filled_from(url, rows, at + row.key.len() + 2),
            None => seq![url[at]] + filled_from(url, rows, at + 1),
        }
    }
}

/// `url` with its placeholders filled in.
pub open spec fn filled(url: Seq<char>, rows: Seq<KeyValueView>) -> Seq<char> {
    filled_from(url, rows, 0)
}

proof fn lemma_unused_row(url: Seq<char>, a: Seq<KeyValueView>, row: KeyValueView, b: Seq<
    KeyValueView,
>, at: int)
    requires
        !is_used(row),
    ensures
        row_at(url, a + seq![row] + b, at) == row_at(url, a + b, at),
    decreases a.len(),
{
    let with = a + seq![row] + b;
    let without = a + b;
    if a.len() == 0 {
        assert(with.skip(1) =~= without);
    } else {
        assert(with[0] == a[0] && without[0] == a[0]);
        assert(with.skip(1) =~= a.skip(1) + seq![row] + b);
        assert(without.skip(1) =~= a.skip(1) + b);
        lemma_unused_row(url, a.skip(1), row, b, at);
    }
}

proof fn lemma_unused_row_from(
    url: Seq<char>,
    a: Seq<KeyValueView>,
    row: KeyValueView,
    b: Seq<KeyValueView>,
    at: int,
)
    requires
        !is_used(row),
    ensures
        filled_from(url, a + seq![row] + b, at) == filled_from(url, a + b, at),
    decreases url.len() - at,
{
    if 0 <= at < url.len() {
        lemma_unused_row(url, a, row, b, at);
        lemma_row_at(url, a + b, at);
        match row_at(url, a + b, at) {
            Some(hit) => {
                lemma_unused_row_from(url, a, row, b, at + hit.key.len() + 2);
            },
            None => {
                lemma_unused_row_from(url, a, row, b, at + 1);
            },
        }
    }
}

/// A disabled row, or one without a key, has no effect on the filled-in URL.
pub proof fn unused_path_params_have_no_effect(
    url: Seq<char>,
    a: Seq<KeyValueView>,
    row: KeyValueView,
    b: Seq<KeyValueView>,
)
    requires
        !is_used(row),
    ensures
        filled(url, a + seq![row] + b) == filled(url, a + b),
{
    lemma_unused_row_from(url, a, row, b, 0);
}

/// A row is found where its placeholder stands.
pub proof fn lemma_row_at(url: Seq<char>, rows: Seq<KeyValueView>, at: int)
    requires
        0 <= at < url.len(),
    ensures
        row_at(url, rows, at) is Some ==> url[at] == '{',
        row_at(url, rows, at) matches Some(row) ==> is_used(row) && occurs_at(
            url,
            placeholder(row.key),
            at,
        ),
    decreases rows.len(),
{
    if rows.len() > 0 {
        if is_used(rows[0]) && occurs_at(url, placeholder(rows[0].key), at) {
            let p = placeholder(rows[0].key);
            assert(url.subrange(at, at + p.len())[0] == p[0]);
        } else {
            lemma_row_at(url, rows.skip(1), at);
        }
    }
}

proof fn lemma_no_brace_from(url: Seq<char>, rows: Seq<KeyValueView>, at: int)
    requires
        !url.contains('{'),
        0 <= at <= url.len(),
    ensures
        filled_from(url, rows, at) == url.skip(at),
    decreases url.len() - at,
{
    if at < url.len() {
        lemma_row_at(url, rows, at);
        assert(url[at] != '{');
        lemma_no_brace_from(url, rows, at + 1);
        assert(seq![url[at]] + url.skip(at + 1) =~= url.skip(at));
    } else {
        assert(url.skip(at) =~= Seq::<char>::empty());
    }
}

/// A URL without placeholders is left as it is.
pub proof fn plain_url_is_untouched(url: Seq<char>, rows: Seq<KeyValueView>)
    requires
        !url.contains('{'),
    ensures
        filled(url, rows) == url,
{
    lemma_no_brace_from(url, rows, 0);
    assert(url.skip(0) =~= url);
}

fn find_row<'a>(chars: &Vec<char>, params: &'a Vec<KeyValue>, at: usize) -> (r: Option<&'a KeyValue>)
    requires
        at < chars@.len(),
    ensures
        match r {
            Some(row) => row_at(chars@, views(params@), at as int) == Some(row@) && row@.key.len()
                + 2 <= chars@.len() - at,
            None => row_at(chars@, views(params@), at as int) is None,
        },
{
    let ghost all = views(params@);
    let mut i: usize = 0;
    proof {
        assert(all.skip(0) =~= all);
    }
    while i < params.len()
        invariant
            all == views(params@),
            at < chars@.len(),
            i <= params@.len(),
            row_at(chars@, all, at as int) == row_at(chars@, all.skip(i as int), at as int),
        decreases params@.len() - i,
    {
        proof {
            assert(all.skip(i as int)[0] == params@[i as int]@);
            assert(all.skip(i as int).skip(1) =~= all.skip(i + 1));
        }
        let row = &params[i];
        if row.enabled && placeholder_at(chars, row.key.as_str(), at) {
            return Some(row);
        }
        i = i + 1;
    }
    None
}

fn placeholder_at(chars: &Vec<char>, key: &str, at: usize) -> (r: bool)
    requires
        at < chars@.len(),
    ensures
        r == (key@.len() > 0 && occurs_at(chars@, placeholder(key@), at as int)),
        r ==> key@.len() + 2 <= chars@.len() - at,
{
    let name = chars_of(key);
    let n = name.len();
    let total = chars.len();
    let ghost p = placeholder(key@);
    if n == 0 || chars.len() - at < 2 || chars.len() - at - 2 < n {
        return false;
    }
    let ghost window = chars@.subrange(at as int, at + p.len());
    if chars[at] != '{' || chars[at + n + 1] != '}' {
        proof {
            assert(window[0] == chars@[at as int]);
            assert(window[n + 1] == chars@[at + n + 1]);
            assert(p[0] == '{' && p[n + 1] == '}');
        }
        return false;
    }
    let mut k: usize = 0;
    while k < n
        invariant
            name@ == key@,
            n == name@.len(),
            total == chars@.len(),
            k <= n,
            at + n + 2 <= chars@.len(),
            p == placeholder(key@),
            window == chars@.subrange(at as int, at + p.len()),
            forall|j: int| 0 <= j < k ==> chars@[at + 1 + j] == key@[j],
        decreases n - k,
    {
        if chars[at + 1 + k] != name[k] {
            proof {
                assert(window[1 + k] == chars@[at + 1 + k]);
                assert(p[1 + k] == key@[k as int]);
            }
            return false;
        }
        k = k + 1;
    }
    proof {
        assert(window =~= p);
    }
    true
}

fn substitute_path_params(url: &str, params: &Vec<KeyValue>) -> (r: String)
    ensures
        r@ == filled(url@, views(params@)),
{
    let chars = chars_of(url);
    let ghost rows = views(params@);
    let mut out = String::new();
    let mut at: usize = 0;
    proof {
        assert(out@ + filled(url@, rows) =~= filled(url@, rows));
    }
    while at < chars.len()
        invariant
            chars@ == url@,
            rows == views(params@),
            at <= chars@.len(),
            out@ + filled_from(url@, rows, at as int) == filled(url@, rows),
        decreases chars@.len() - at,
    {
        let ghost before = out@;
        match find_row(&chars, params, at) {
            Some(row) => {
                push_text(&mut out, row.value.as_str());
                let step = row.key.as_str().unicode_len() + 2;
                proof {
                    let tail = filled_from(url@, rows, at + step);
                    assert(out@ + tail =~= before + (row@.value + tail));
                }
                at = at + step;
            },
            None => {
                out.push(chars[at]);
                proof {
                    let tail = filled_from(url@, rows, at + 1);
                    assert(out@ + tail =~= before + (seq![url@[at as int]] + tail));
                }
                at = at + 1;
            },
        }
    }
    proof {
        assert(out@ + Seq::<char>::empty() =~= out@);
    }
    out
}

/// The text that is parsed as the URL of a request; `None` where the request has
/// no URL. Without a scheme `http://` is put in front.
pub open spec fn request_text(d: DraftView) -> Option<Seq<char>> {
    let raw = trimmed(d.url);
    if raw.len() == 0 {
        None
    } else {
        let text = filled(raw, d.path_params);
        if first_index(text, seq![':', '/', '/'], 0) is Some {
            Some(text)
        } else {
            Some("http://"@ + text)
        }
    }
}

/// Builds the text that is parsed as the URL of a request.
pub fn url_text(draft: &RequestDraft) -> (r: Option<String>)
    ensures
        opt_text(r) == request_text(draft@),
{
    let raw = trim(draft.url.as_str());
    if raw.as_str().is_empty() {
        return None;
    }
    let text = substitute_path_params(raw.as_str(), &draft.path_params);
    let chars = chars_of(text.as_str());
    let mark = [':', '/', '/'];
    proof {
        assert(mark@ =~= seq![':', '/', '/']);
    }
    if find_chars(chars.as_slice(), mark.as_slice(), 0).is_some() {
        Some(text)
    } else {
        let mut out = "http://".to_owned();
        push_text(&mut out, text.as_str());
        Some(out)
    }
}

/// The query parameters that are appended: those in use, in order.
pub open spec fn used_pairs(rows: Seq<KeyValueView>) -> Seq<(Seq<char>, Seq<char>)>
    decreases rows.len(),
{
    if rows.len() == 0 {
        Seq::empty()
    } else {
        let head = used_pairs(rows.drop_last());
        if is_used(rows.last()) {
            head.push((rows.last().key, rows.last().value))
        } else {
            head
        }
    }
}

/// A disabled row, or one without a key, adds nothing to the query.
pub proof fn unused_query_params_have_no_effect(
    a: Seq<KeyValueView>,
    row: KeyValueView,
    b: Seq<KeyValueView>,
)
    requires
        !is_used(row),
    ensures
        used_pairs(a + seq![row] + b) == used_pairs(a + b),
    decreases b.len(),
{
    if b.len() == 0 {
        assert((a + seq![row] + b).drop_last() =~= a);
        assert(a + b =~= a);
    } else {
        unused_query_params_have_no_effect(a, row, b.drop_last());
        assert((a + seq![row] + b).drop_last() =~= a + seq![row] + b.drop_last());
        assert((a + b).drop_last() =~= a + b.drop_last());
    }
}

/// Collects the rows that are in use, in order.
pub fn query_pairs(rows: &Vec<KeyValue>) -> (r: Vec<(String, String)>)
    ensures
        pairs_view(r@) == used_pairs(views(rows@)),
{
    let ghost all = views(rows@);
    let mut out: Vec<(String, String)> = Vec::new();
    let mut i: usize = 0;
    proof {
        assert(all.take(0) =~= Seq::<KeyValueView>::empty());
        assert(pairs_view(out@) =~= used_pairs(all.take(0)));
    }
    while i < rows.len()
        invariant
            all == views(rows@),
            i <= rows@.len(),
            pairs_view(out@) == used_pairs(all.take(i as int)),
        decreases rows@.len() - i,
    {
        proof {
            assert(all.take(i + 1).drop_last() =~= all.take(i as int));
            assert(all[i as int] == rows@[i as int]@);
        }
        let row = &rows[i];
        if row.enabled && !row.key.as_str().is_empty() {
            let ghost done = out@;
            out.push((row.key.clone(), row.value.clone()));
            proof {
                assert(pairs_view(out@) =~= pairs_view(done).push((row.key@, row.value@)));
            }
        }
        i = i + 1;
    }
    proof {
        assert(all.take(i as int) =~= all);
    }
    out
}

/// A parsed URL is accepted where its scheme is `http` or `https`.
pub open spec fn accepted(parsed: Result<UrlView, Seq<char>>) -> Result<UrlView, UrlErrorView> {
    match parsed {
        Err(e) => Err(UrlErrorView::Invalid(e)),
        Ok(u) => if u.scheme == "http"@ || u.scheme == "https"@ {
            Ok(u)
        } else {
            Err(UrlErrorView::Invalid("不支持的协议："@ + u.scheme))
        },
    }
}

/// The view of a URL or an error.
pub open spec fn url_result(r: Result<Url, UrlError>) -> Result<UrlView, UrlErrorView> {
    match r {
        Ok(u) => Ok(u@),
        Err(e) => Err(e@),
    }
}

/// Accepts a parsed URL where its scheme is `http` or `https`.
pub fn check_scheme(parsed: Result<Url, String>) -> (r: Result<Url, UrlError>)
    ensures
        url_result(r) == accepted(parse_view(parsed)),
{
    match parsed {
        Err(e) => Err(UrlError::Invalid(e)),
        Ok(u) => if same_text(u.scheme(), "http") || same_text(u.scheme(), "https") {
            Ok(u)
        } else {
            let mut text = "不支持的协议：".to_owned();
            push_text(&mut text, u.scheme());
            Err(UrlError::Invalid(text))
        },
    }
}

/// The URL of a request, or why it has none.
pub open spec fn url_outcome(d: DraftView) -> Result<UrlView, UrlErrorView> {
    match request_text(d) {
        None => Err(UrlErrorView::Empty),
        Some(text) => {
            let pairs = used_pairs(d.params);
            match accepted(url_parsed(text)) {
                Err(e) => Err(e),
                Ok(u) => if pairs.len() == 0 {
                    Ok(u)
                } else if !has_room(u, pairs) {
                    Err(UrlErrorView::Invalid(TOO_LONG@))
                } else {
                    Ok(extended(u, pairs))
                },
            }
        },
    }
}

/// Builds the URL of a request. One whose query or fragment moves behind 4 GB where
/// the parameters are appended is refused.
pub fn build_url(draft: &RequestDraft) -> (r: Result<Url, UrlError>)
    ensures
        url_result(r) == url_outcome(draft@),
        r matches Ok(u) ==> u@.scheme == "http"@ || u@.scheme == "https"@,
{
    let text = match url_text(draft) {
        Some(text) => text,
        None => return Err(UrlError::Empty),
    };
    let plain = match check_scheme(parse_url(text.as_str())) {
        Ok(u) => u,
        Err(e) => return Err(e),
    };
    let pairs = query_pairs(&draft.params);
    if pairs.len() == 0 {
        return Ok(plain);
    }
    if !check_room(&plain, &pairs) {
        return Err(UrlError::Invalid(TOO_LONG.to_owned()));
    }
    match parse_parts_with(text.as_str(), &pairs) {
        Ok(parts) => Ok(Url::of_parts(parts)),
        Err(e) => Err(UrlError::Invalid(e)),
    }
}

} // verus!
