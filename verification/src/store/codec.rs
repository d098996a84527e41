//! Versioned JSON documents: each carries `"version"` at its top. A document of
//! another version counts as damaged.
use crate::json::{
    is_object, json_parsed, json_view, member, number_of_value, parse_value, pretty_bytes,
    round_trips, with_member, JsonView,
};
use crate::strings::{decimal, push_decimal, push_text};
use vstd::prelude::*;

verus! {

/// The current version of the format.
pub const FORMAT_VERSION: u64 = 1;

#[derive(Debug, PartialEq, Eq)]
pub enum StoreError {
    NoDataDir,
    Unwritable { path: String, source: String },
    Io(String),
    Json(String),
    MissingVersion,
    UnsupportedVersion(u64),
}

pub enum StoreErrorView {
    NoDataDir,
    Unwritable { path: Seq<char>, source: Seq<char> },
    Io(Seq<char>),
    Json(Seq<char>),
    MissingVersion,
    UnsupportedVersion(u64),
}

impl View for StoreError {
    type V = StoreErrorView;

    open spec fn view(&self) -> StoreErrorView {
        match *self {
            StoreError::NoDataDir => StoreErrorView::NoDataDir,
            StoreError::Unwritable { path, source } => StoreErrorView::Unwritable {
                path: path@,
                source: source@,
            },
            StoreError::Io(e) => StoreErrorView::Io(e@),
            StoreError::Json(e) => StoreErrorView::Json(e@),
            StoreError::MissingVersion => StoreErrorView::MissingVersion,
            StoreError::UnsupportedVersion(v) => StoreErrorView::UnsupportedVersion(v),
        }
    }
}

/// The message of an error.
pub open spec fn store_error_text(e: StoreErrorView) -> Seq<char> {
    match e {
        StoreErrorView::NoDataDir => "无法确定数据目录（找不到用户主目录）"@,
        StoreErrorView::Unwritable { path, source } => "数据目录不可写："@ + path + "（"@ + source
            + "）"@,
        StoreErrorView::Io(detail) => "IO 错误："@ + detail,
        StoreErrorView::Json(detail) => "JSON 错误："@ + detail,
        StoreErrorView::MissingVersion => "缺少 version 字段"@,
        StoreErrorView::UnsupportedVersion(v) => "不支持的文件版本 "@ + decimal(v as nat)
            + "（当前 "@ + decimal(FORMAT_VERSION as nat) + "）"@,
    }
}

impl StoreError {
    /// The message for the user.
    pub fn message(&self) -> (r: String)
        ensures
            r@ == store_error_text(self@),
    {
        match self {
            StoreError::NoDataDir => "无法确定数据目录（找不到用户主目录）".to_owned(),
            StoreError::Unwritable { path, source } => {
                let mut out = "数据目录不可写：".to_owned();
                push_text(&mut out, path.as_str());
                push_text(&mut out, "（");
                push_text(&mut out, source.as_str());
                push_text(&mut out, "）");
                out
            },
            StoreError::Io(detail) => {
                let mut out = "IO 错误：".to_owned();
                push_text(&mut out, detail.as_str());
                out
            },
            StoreError::Json(detail) => {
                let mut out = "JSON 错误：".to_owned();
                push_text(&mut out, detail.as_str());
                out
            },
            StoreError::MissingVersion => "缺少 version 字段".to_owned(),
            StoreError::UnsupportedVersion(v) => {
                let mut out = "不支持的文件版本 ".to_owned();
                push_decimal(&mut out, *v as u128);
                push_text(&mut out, "（当前 ");
                push_decimal(&mut out, FORMAT_VERSION as u128);
                push_text(&mut out, "）");
                out
            },
        }
    }
}

/// The version that a document carries.
pub open spec fn version_of(v: JsonView) -> Option<u64> {
    match v {
        JsonView::Object(m) => if m.contains_key("version"@) {
            crate::json::whole_number(m["version"@])
        } else {
            None
        },
        _ => None,
    }
}

/// What reading a document gives.
pub open spec fn decoded(parsed: Result<JsonView, Seq<char>>) -> Result<JsonView, StoreErrorView> {
    match parsed {
        Err(e) => Err(StoreErrorView::Json(e)),
        Ok(v) => match version_of(v) {
            None => Err(StoreErrorView::MissingVersion),
            Some(n) => if n == FORMAT_VERSION {
                Ok(v)
            } else {
                Err(StoreErrorView::UnsupportedVersion(n))
            },
        },
    }
}

/// A document that carries the current version.
pub open spec fn stamped(m: Map<Seq<char>, JsonView>) -> JsonView {
    JsonView::Object(
        m.insert("version"@, JsonView::Number(decimal(FORMAT_VERSION as nat))),
    )
}

/// The view of a reading.
pub open spec fn document_result(r: Result<serde_json::Value, StoreError>) -> Result<
    JsonView,
    StoreErrorView,
> {
    match r {
        Ok(v) => Ok(json_view(v)),
        Err(e) => Err(e@),
    }
}

/// A stamped document is accepted as it is.
pub proof fn stamped_documents_are_accepted(m: Map<Seq<char>, JsonView>)
    ensures
        decoded(Ok(stamped(m))) == Ok::<JsonView, StoreErrorView>(stamped(m)),
{
    let n = JsonView::Number(decimal(FORMAT_VERSION as nat));
    assert(stamped(m)->Object_0["version"@] == n);
    crate::json::lemma_whole_number(FORMAT_VERSION);
}

/// A document of another version is refused by that version, and one without a
/// version as such.
pub proof fn other_versions_are_refused(m: Map<Seq<char>, JsonView>, version: u64)
    requires
        version != FORMAT_VERSION,
    ensures
        decoded(
            Ok(
                JsonView::Object(
                    m.insert("version"@, JsonView::Number(crate::json::decimal_u64(version))),
                ),
            ),
        ) == Err::<JsonView, StoreErrorView>(StoreErrorView::UnsupportedVersion(version)),
        decoded(Ok(JsonView::Object(m.remove("version"@)))) == Err::<JsonView, StoreErrorView>(
            StoreErrorView::MissingVersion,
        ),
{
    crate::json::lemma_whole_number(version);
}

/// Brings a document up to the current version.
pub fn migrate(version: u64, value: serde_json::Value) -> (r: Result<
    serde_json::Value,
    StoreError,
>)
    ensures
        document_result(r) == if version == FORMAT_VERSION {
            Ok::<JsonView, StoreErrorView>(json_view(value))
        } else {
            Err::<JsonView, StoreErrorView>(StoreErrorView::UnsupportedVersion(version))
        },
{
    if version == FORMAT_VERSION {
        Ok(value)
    } else {
        Err(StoreError::UnsupportedVersion(version))
    }
}

/// Accepts a parsed document of the current version.
pub fn accept(parsed: Result<serde_json::Value, String>) -> (r: Result<
    serde_json::Value,
    StoreError,
>)
    ensures
        document_result(r) == decoded(
            match parsed {
                Ok(v) => Ok(json_view(v)),
                Err(e) => Err(e@),
            },
        ),
{
    let value = match parsed {
        Ok(v) => v,
        Err(e) => return Err(StoreError::Json(e)),
    };
    let version = match member(&value, "version") {
        Some(m) => number_of_value(m),
        None => None,
    };
    match version {
        Some(n) => migrate(n, value),
        None => Err(StoreError::MissingVersion),
    }
}

/// Reads a document of the current version.
pub fn decode(bytes: &[u8]) -> (r: Result<serde_json::Value, StoreError>)
    ensures
        document_result(r) == decoded(json_parsed(bytes@)),
{
    accept(parse_value(bytes))
}

/// Writes a document with the current version stamped on it, indented, with its
/// members in the order of their names and a line feed at the end. The document
/// must be an object.
pub fn encode(doc: serde_json::Value) -> (r: Result<Vec<u8>, StoreError>)
    ensures
        match json_view(doc) {
            JsonView::Object(m) => r is Ok && r->Ok_0@ == crate::json::json_pretty(
                stamped(m),
            ).push(0x0a) && (round_trips(stamped(m)) ==> decoded(json_parsed(r->Ok_0@)) == Ok::<
                JsonView,
                StoreErrorView,
            >(stamped(m))),
            _ => r is Err && r->Err_0@ == StoreErrorView::Json("document must be a JSON object"@),
        },
{
    if !is_object(&doc) {
        return Err(StoreError::Json("document must be a JSON object".to_owned()));
    }
    let ghost m = json_view(doc)->Object_0;
    let doc = with_member(doc, "version", FORMAT_VERSION);
    let mut bytes = pretty_bytes(&doc);
    bytes.push(0x0a);
    proof {
        stamped_documents_are_accepted(m);
    }
    Ok(bytes)
}

} // verus!
