//! JSON documents as `serde_json` reads and writes them.
use vstd::prelude::*;

verus! {

/// What a JSON value holds. A number is held as its text.
pub enum JsonView {
    Null,
    Bool(bool),
    Number(Seq<char>),
    Str(Seq<char>),
    Array(Seq<JsonView>),
    Object(Map<Seq<char>, JsonView>),
}

/// How many arrays and objects `serde_json` reads inside each other.
pub const PARSER_DEPTH: usize = 127;

/// A JSON value of `serde_json`.
#[verifier::external_type_specification]
#[verifier::external_body]
pub struct ExValue(serde_json::Value);

/// What a JSON value holds.
pub uninterp spec fn json_view(v: serde_json::Value) -> JsonView;

/// What `serde_json::from_slice` reads from bytes: the value, or the message of
/// its error.
pub uninterp spec fn json_parsed(bytes: Seq<u8>) -> Result<JsonView, Seq<char>>;

/// The compact text that `serde_json` writes for a value.
pub uninterp spec fn json_text(v: JsonView) -> Seq<char>;

/// `serde_json::from_slice`. A document that was written out, and is not nested
/// deeper than the parser goes, is read back as it was.
#[verifier::external_body]
pub(crate) fn parse_value(bytes: &[u8]) -> (r: Result<serde_json::Value, String>)
    ensures
        match r {
            Ok(v) => reads_as(bytes@, json_view(v)),
            Err(e) => json_parsed(bytes@) == Err::<JsonView, Seq<char>>(e@),
        },
        forall|d: DocView|
            nests_within(d, PARSER_DEPTH as nat) && bytes@ == vstd::utf8::encode_utf8(#[trigger] doc_text(d, 0))
                ==> r is Ok && json_view(r->Ok_0) == doc_json(d),
{
    serde_json::from_slice(bytes).map_err(|e| e.to_string())
}

/// `serde_json::Value::get` with a key: the member of that name, where the value
/// is an object that has one.
#[verifier::external_body]
pub(crate) fn member<'a>(v: &'a serde_json::Value, key: &str) -> (r: Option<&'a serde_json::Value>)
    ensures
        match r {
            Some(m) => json_view(*v) is Object && json_view(*v)->Object_0.contains_key(key@)
                && json_view(*m) == json_view(*v)->Object_0[key@],
            None => !(json_view(*v) is Object && json_view(*v)->Object_0.contains_key(key@)),
        },
{
    v.get(key)
}

/// `serde_json::Value::get` with an index: the element at it, where the value is
/// an array that reaches as far.
#[verifier::external_body]
pub(crate) fn element(v: &serde_json::Value, index: usize) -> (r: Option<&serde_json::Value>)
    ensures
        match r {
            Some(e) => json_view(*v) is Array && index < json_view(*v)->Array_0.len() && json_view(
                *e,
            ) == json_view(*v)->Array_0[index as int],
            None => !(json_view(*v) is Array && index < json_view(*v)->Array_0.len()),
        },
{
    v.get(index)
}

/// `serde_json::Value::as_str`: the text of a string.
#[verifier::external_body]
pub(crate) fn string_of_value(v: &serde_json::Value) -> (r: Option<&str>)
    ensures
        match r {
            Some(s) => json_view(*v) == JsonView::Str(s@),
            None => !(json_view(*v) is Str),
        },
{
    v.as_str()
}

/// `serde_json::Value::as_bool`: the value of a boolean.
#[verifier::external_body]
pub(crate) fn bool_of_value(v: &serde_json::Value) -> (r: Option<bool>)
    ensures
        match r {
            Some(b) => json_view(*v) == JsonView::Bool(b),
            None => !(json_view(*v) is Bool),
        },
{
    v.as_bool()
}

/// `serde_json::Value::as_array`: the number of elements of an array.
#[verifier::external_body]
pub(crate) fn array_len(v: &serde_json::Value) -> (r: Option<usize>)
    ensures
        match r {
            Some(n) => json_view(*v) is Array && n == json_view(*v)->Array_0.len(),
            None => !(json_view(*v) is Array),
        },
{
    v.as_array().map(|items| items.len())
}

/// `serde_json::Value::is_object`.
#[verifier::external_body]
pub(crate) fn is_object(v: &serde_json::Value) -> (r: bool)
    ensures
        r == (json_view(*v) is Object),
{
    v.is_object()
}

/// `serde_json::Value::is_null`.
#[verifier::external_body]
pub(crate) fn is_null(v: &serde_json::Value) -> (r: bool)
    ensures
        r == (json_view(*v) is Null),
{
    v.is_null()
}

/// `serde_json::Value` written out with `to_string`: compact JSON. A number is
/// written as it is held, `null` and the booleans as their names.
#[verifier::external_body]
pub(crate) fn compact_text(v: &serde_json::Value) -> (r: String)
    ensures
        r@ == json_text(json_view(*v)),
        json_view(*v) is Null ==> r@ == "null"@,
        json_view(*v) is Bool ==> r@ == if json_view(*v)->Bool_0 {
            "true"@
        } else {
            "false"@
        },
        json_view(*v) is Number ==> r@ == json_view(*v)->Number_0,
{
    v.to_string()
}

/// A value as a variable holds it: a string as it is, anything else as compact
/// JSON.
pub open spec fn plain_text(v: JsonView) -> Seq<char> {
    match v {
        JsonView::Str(s) => s,
        _ => json_text(v),
    }
}

/// A JSON document to be written: its objects keep the order of their members.
pub enum Doc {
    Bool(bool),
    Str(String),
    Array(Vec<Doc>),
    Object(Vec<(String, Doc)>),
}

pub enum DocView {
    Bool(bool),
    Str(Seq<char>),
    Array(Seq<DocView>),
    Object(Seq<(Seq<char>, DocView)>),
}

impl Doc {
    pub open spec fn spec_view(self) -> DocView
        decreases self,
    {
        match self {
            Doc::Bool(b) => DocView::Bool(b),
            Doc::Str(s) => DocView::Str(s@),
            Doc::Array(items) => DocView::Array(
                Seq::new(
                    items@.len(),
                    |i: int|
                        if 0 <= i < items@.len() {
                            items@[i].spec_view()
                        } else {
                            DocView::Bool(false)
                        },
                ),
            ),
            Doc::Object(fields) => DocView::Object(
                Seq::new(
                    fields@.len(),
                    |i: int|
                        if 0 <= i < fields@.len() {
                            (fields@[i].0@, fields@[i].1.spec_view())
                        } else {
                            (Seq::empty(), DocView::Bool(false))
                        },
                ),
            ),
        }
    }
}

/// Two spaces per level.
pub open spec fn indent(depth: nat) -> Seq<char> {
    Seq::new(2 * depth, |i: int| ' ')
}

/// A document written over several lines, with two spaces per level.
pub open spec fn doc_text(d: DocView, depth: nat) -> Seq<char>
    decreases d, 0int,
{
    match d {
        DocView::Bool(b) => if b {
            "true"@
        } else {
            "false"@
        },
        DocView::Str(s) => json_text(JsonView::Str(s)),
        DocView::Array(items) => if items.len() == 0 {
            seq!['[', ']']
        } else {
            seq!['['] + items_text(items, items.len(), depth + 1) + seq!['\n'] + indent(depth)
                + seq![']']
        },
        DocView::Object(fields) => if fields.len() == 0 {
            seq!['{', '}']
        } else {
            seq!['{'] + fields_text(fields, fields.len(), depth + 1) + seq!['\n'] + indent(depth)
                + seq!['}']
        },
    }
}

/// The first `n` items, each on a line of its own.
pub open spec fn items_text(items: Seq<DocView>, n: nat, depth: nat) -> Seq<char>
    decreases items, n,
{
    if n == 0 || n > items.len() {
        Seq::empty()
    } else {
        items_text(items, (n - 1) as nat, depth) + (if n == 1 {
            seq!['\n']
        } else {
            seq![',', '\n']
        }) + indent(depth) + doc_text(items[n - 1], depth)
    }
}

/// The first `n` members, each on a line of its own.
pub open spec fn fields_text(fields: Seq<(Seq<char>, DocView)>, n: nat, depth: nat) -> Seq<char>
    decreases fields, n,
{
    if n == 0 || n > fields.len() {
        Seq::empty()
    } else {
        fields_text(fields, (n - 1) as nat, depth) + (if n == 1 {
            seq!['\n']
        } else {
            seq![',', '\n']
        }) + indent(depth) + json_text(JsonView::Str(fields[n - 1].0)) + seq![':', ' ']
            + doc_text(fields[n - 1].1, depth)
    }
}

/// What a document holds.
pub open spec fn doc_json(d: DocView) -> JsonView
    decreases d, 0int,
{
    match d {
        DocView::Bool(b) => JsonView::Bool(b),
        DocView::Str(s) => JsonView::Str(s),
        DocView::Array(items) => JsonView::Array(
            Seq::new(
                items.len(),
                |i: int|
                    if 0 <= i < items.len() {
                        doc_json(items[i])
                    } else {
                        JsonView::Null
                    },
            ),
        ),
        DocView::Object(fields) => JsonView::Object(members(fields, fields.len())),
    }
}

/// What the first `n` members hold.
pub open spec fn members(fields: Seq<(Seq<char>, DocView)>, n: nat) -> Map<Seq<char>, JsonView>
    decreases fields, n,
{
    if n == 0 || n > fields.len() {
        Map::empty()
    } else {
        members(fields, (n - 1) as nat).insert(fields[n - 1].0, doc_json(fields[n - 1].1))
    }
}

/// Whether the nesting of a document is at most `levels` deep.
pub open spec fn nests_within(d: DocView, levels: nat) -> bool
    decreases levels,
{
    match d {
        DocView::Array(items) => levels > 0 && forall|i: int|
            0 <= i < items.len() ==> nests_within(#[trigger] items[i], (levels - 1) as nat),
        DocView::Object(fields) => levels > 0 && forall|i: int|
            0 <= i < fields.len() ==> nests_within((#[trigger] fields[i]).1, (levels - 1) as nat),
        _ => true,
    }
}

/// `serde_json` written for a string: its text in quotes, with escapes.
#[verifier::external_body]
pub(crate) fn quoted(s: &str) -> (r: String)
    ensures
        r@ == json_text(JsonView::Str(s@)),
{
    serde_json::Value::from(s).to_string()
}

fn push_indent(out: &mut String, depth: usize)
    ensures
        final(out)@ == old(out)@ + indent(depth as nat),
{
    let mut i: usize = 0;
    proof {
        assert(out@ =~= old(out)@ + indent(0));
    }
    while i < depth
        invariant
            i <= depth,
            out@ == old(out)@ + indent(i as nat),
        decreases depth - i,
    {
        out.push(' ');
        out.push(' ');
        i = i + 1;
        proof {
            assert(out@ =~= old(out)@ + indent(i as nat));
        }
    }
}

/// Appends a document written over several lines.
pub fn push_doc(out: &mut String, d: &Doc, depth: usize)
    requires
        nests_within(d.spec_view(), (usize::MAX - depth) as nat),
    ensures
        final(out)@ == old(out)@ + doc_text(d.spec_view(), depth as nat),
    decreases d,
{
    match d {
        Doc::Bool(b) => {
            if *b {
                out.append("true");
            } else {
                out.append("false");
            }
        },
        Doc::Str(s) => {
            out.append(quoted(s.as_str()).as_str());
        },
        Doc::Array(items) => {
            if items.len() == 0 {
                out.push('[');
                out.push(']');
                proof {
                    assert(out@ =~= old(out)@ + doc_text(d.spec_view(), depth as nat));
                }
                return;
            }
            let ghost views = d.spec_view()->Array_0;
            out.push('[');
            let mut i: usize = 0;
            while i < items.len()
                invariant
                    *d == Doc::Array(*items),
                    views == d.spec_view()->Array_0,
                    views.len() == items@.len(),
                    depth < usize::MAX,
                    nests_within(d.spec_view(), (usize::MAX - depth) as nat),
                    i <= items@.len(),
                    out@ == old(out)@ + seq!['['] + items_text(views, i as nat, (depth + 1) as nat),
                decreases items@.len() - i,
            {
                let ghost before = out@;
                if i > 0 {
                    out.push(',');
                }
                out.push('\n');
                push_indent(out, depth + 1);
                proof {
                    assert(views[i as int] == items@[i as int].spec_view());
                    assert(nests_within(views[i as int], (usize::MAX - depth - 1) as nat));
                    assert(decreases_to!(d => items@[i as int]));
                }
                push_doc(out, &items[i], depth + 1);
                i = i + 1;
                proof {
                    assert(out@ =~= old(out)@ + seq!['['] + items_text(
                        views,
                        i as nat,
                        (depth + 1) as nat,
                    ));
                }
            }
            out.push('\n');
            push_indent(out, depth);
            out.push(']');
        },
        Doc::Object(fields) => {
            if fields.len() == 0 {
                out.push('{');
                out.push('}');
                proof {
                    assert(out@ =~= old(out)@ + doc_text(d.spec_view(), depth as nat));
                }
                return;
            }
            let ghost views = d.spec_view()->Object_0;
            out.push('{');
            let mut i: usize = 0;
            while i < fields.len()
                invariant
                    *d == Doc::Object(*fields),
                    views == d.spec_view()->Object_0,
                    views.len() == fields@.len(),
                    depth < usize::MAX,
                    nests_within(d.spec_view(), (usize::MAX - depth) as nat),
                    i <= fields@.len(),
                    out@ == old(out)@ + seq!['{'] + fields_text(views, i as nat, (depth + 1) as nat),
                decreases fields@.len() - i,
            {
                if i > 0 {
                    out.push(',');
                }
                out.push('\n');
                push_indent(out, depth + 1);
                out.append(quoted(fields[i].0.as_str()).as_str());
                out.push(':');
                out.push(' ');
                proof {
                    assert(views[i as int] == (fields@[i as int].0@, fields@[i as int].1.spec_view()));
                    assert(nests_within(views[i as int].1, (usize::MAX - depth - 1) as nat));
                    assert(decreases_to!(d => fields@[i as int].1));
                }
                push_doc(out, &fields[i].1, depth + 1);
                i = i + 1;
                proof {
                    assert(out@ =~= old(out)@ + seq!['{'] + fields_text(
                        views,
                        i as nat,
                        (depth + 1) as nat,
                    ));
                }
            }
            out.push('\n');
            push_indent(out, depth);
            out.push('}');
        },
    }
    proof {
        assert(out@ =~= old(out)@ + doc_text(d.spec_view(), depth as nat));
    }
}

/// The whole number that a value is, where it is one that fits 64 bits.
pub open spec fn whole_number(v: JsonView) -> Option<u64> {
    match v {
        JsonView::Number(text) => if exists|n: u64| text == #[trigger] decimal_u64(n) {
            Some(choose|n: u64| text == #[trigger] decimal_u64(n))
        } else {
            None
        },
        _ => None,
    }
}

/// `n` in decimal.
pub open spec fn decimal_u64(n: u64) -> Seq<char> {
    crate::strings::decimal(n as nat)
}

/// The number written as `n` is `n`.
pub proof fn lemma_whole_number(n: u64)
    ensures
        whole_number(JsonView::Number(decimal_u64(n))) == Some(n),
{
    let m = choose|m: u64| decimal_u64(n) == #[trigger] decimal_u64(m);
    crate::strings::decimals_are_distinct(n as nat, m as nat);
}

/// `serde_json::Value::as_u64`: the value of a number that is whole, not negative
/// and fits 64 bits. Such a number is held without a fraction, an exponent or a
/// sign.
#[verifier::external_body]
pub(crate) fn number_of_value(v: &serde_json::Value) -> (r: Option<u64>)
    ensures
        r == whole_number(json_view(*v)),
{
    v.as_u64()
}

/// `serde_json::Value` of an object after `serde_json::Map::insert`: the member
/// `key` holds the whole number `n`, the other members stay. Anything but an
/// object is handed back.
#[verifier::external_body]
pub(crate) fn with_member(v: serde_json::Value, key: &str, n: u64) -> (r: serde_json::Value)
    ensures
        json_view(r) == match json_view(v) {
            JsonView::Object(m) => JsonView::Object(
                m.insert(key@, JsonView::Number(decimal_u64(n))),
            ),
            other => other,
        },
{
    let mut v = v;
    if let Some(map) = v.as_object_mut() {
        map.insert(key.to_string(), serde_json::Value::from(n));
    }
    v
}

/// The indented bytes that `serde_json::to_vec_pretty` writes for a value.
pub uninterp spec fn json_pretty(v: JsonView) -> Seq<u8>;

/// Whether a number is whole and fits 64 bits, with a sign or without.
pub open spec fn is_whole(text: Seq<char>) -> bool {
    ||| exists|n: u64| text == #[trigger] decimal_u64(n)
    ||| exists|n: u64|
        1 <= n <= 0x8000_0000_0000_0000 && text == seq!['-'] + #[trigger] decimal_u64(n)
}

/// Whether a value reads back as it was written: its nesting is within what the
/// parser goes through, and its numbers are whole, since a fraction may come back
/// as its neighbour.
pub open spec fn round_trips(v: JsonView) -> bool {
    reads_back(v, PARSER_DEPTH as nat)
}

/// Whether a value nests at most `levels` deep and holds whole numbers only.
pub open spec fn reads_back(v: JsonView, levels: nat) -> bool
    decreases levels,
{
    match v {
        JsonView::Number(text) => is_whole(text),
        JsonView::Array(items) => levels > 0 && forall|i: int|
            0 <= i < items.len() ==> reads_back(#[trigger] items[i], (levels - 1) as nat),
        JsonView::Object(m) => levels > 0 && forall|k: Seq<char>|
            m.contains_key(k) ==> reads_back(#[trigger] m[k], (levels - 1) as nat),
        _ => true,
    }
}

/// Whether `serde_json::from_slice` reads `v` from `bytes`.
pub open spec fn reads_as(bytes: Seq<u8>, v: JsonView) -> bool {
    json_parsed(bytes) == Ok::<JsonView, Seq<char>>(v)
}

/// `serde_json::to_vec_pretty` of a value. With a line feed behind it, what was
/// written is read back.
#[verifier::external_body]
pub(crate) fn pretty_bytes(v: &serde_json::Value) -> (r: Vec<u8>)
    ensures
        r@ == json_pretty(json_view(*v)),
        round_trips(json_view(*v)) ==> reads_as(r@.push(0x0a), json_view(*v)),
{
    serde_json::to_vec_pretty(v).unwrap_or_default()
}

} // verus!
