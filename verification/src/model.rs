//! Domain model: one concrete request, and what is known of one response.
use crate::strings::{opt_text, same_text, texts_equal_ignoring_case, trim, trimmed, views};
use vstd::prelude::*;

verus! {

/// Identifier of a saved request or a tab: 128 bits, ordered by creation time.
#[derive(Debug, Clone, Copy, PartialEq, Eq, PartialOrd, Ord, Hash, Structural)]
pub struct Ulid(pub u128);

/// Stable identifier of a tab.
pub type TabId = Ulid;

/// `ulid::Ulid::generate`: a new identifier out of the clock and chance. Nothing
/// is promised of it.
#[verifier::external_body]
fn random_ulid() -> u128 {
    ulid::Ulid::generate().0
}

/// `std::time::SystemTime::now` against the Unix epoch: whole seconds and the
/// nanoseconds of the started second, or `None` for a clock before 1970.
#[verifier::external_body]
pub(crate) fn since_epoch() -> (r: Option<(u64, u32)>)
    ensures
        r matches Some((secs, nanos)) ==> nanos < 1_000_000_000,
{
    std::time::SystemTime::now().duration_since(std::time::UNIX_EPOCH).ok().map(
        |d| (d.as_secs(), d.subsec_nanos()),
    )
}

/// The digit `n` of Crockford's Base32: the decimal digits, then the letters
/// without I, L, O and U.
pub open spec fn crockford(n: int) -> char {
    if n < 10 {
        ('0' as int + n) as char
    } else if n < 18 {
        ('A' as int + n - 10) as char
    } else if n < 20 {
        ('J' as int + n - 18) as char
    } else if n < 22 {
        ('M' as int + n - 20) as char
    } else if n < 27 {
        ('P' as int + n - 22) as char
    } else {
        ('V' as int + n - 27) as char
    }
}

/// The last `width` digits of a number in Crockford's Base32.
pub open spec fn base32(n: nat, width: nat) -> Seq<char>
    decreases width,
{
    if width == 0 {
        Seq::empty()
    } else {
        base32(n / 32, (width - 1) as nat).push(crockford((n % 32) as int))
    }
}

/// The text form of an identifier.
pub open spec fn ulid_text(bits: u128) -> Seq<char> {
    base32(bits as nat, 26)
}

/// `ulid::Ulid` written out: 26 characters of Crockford's Base32.
#[verifier::external_body]
fn write_ulid(bits: u128) -> (r: String)
    ensures
        r@ == ulid_text(bits),
{
    ulid::Ulid(bits).to_string()
}

proof fn lemma_base32_len(n: nat, width: nat)
    ensures
        base32(n, width).len() == width,
    decreases width,
{
    if width > 0 {
        lemma_base32_len(n / 32, (width - 1) as nat);
    }
}

proof fn lemma_base32_distinct(a: nat, b: nat, width: nat)
    requires
        base32(a, width) == base32(b, width),
        a < vstd::arithmetic::power::pow(32, width),
        b < vstd::arithmetic::power::pow(32, width),
    ensures
        a == b,
    decreases width,
{
    reveal(vstd::arithmetic::power::pow);
    if width > 0 {
        let k = (width - 1) as nat;
        lemma_base32_len(a / 32, k);
        lemma_base32_len(b / 32, k);
        let x = base32(a / 32, k);
        let y = base32(b / 32, k);
        assert(x =~= base32(a, width).drop_last());
        assert(y =~= base32(b, width).drop_last());
        assert(base32(a, width).last() == crockford((a % 32) as int));
        assert(base32(b, width).last() == crockford((b % 32) as int));
        assert(a % 32 == b % 32);
        let p = vstd::arithmetic::power::pow(32, k);
        assert(vstd::arithmetic::power::pow(32, width) == 32 * p);
        lemma_base32_distinct(a / 32, b / 32, k);
    }
}

/// No two identifiers have the same text form.
pub proof fn identifiers_have_texts_of_their_own(a: u128, b: u128)
    requires
        ulid_text(a) == ulid_text(b),
    ensures
        a == b,
{
    assert(vstd::arithmetic::power::pow(32, 26) > u128::MAX) by {
        reveal(vstd::arithmetic::power::pow);
        reveal_with_fuel(vstd::arithmetic::power::pow, 27);
    }
    lemma_base32_distinct(a as nat, b as nat, 26);
}

impl Ulid {
    /// A new identifier.
    pub fn generate() -> Ulid {
        Ulid(random_ulid())
    }

    /// The text form, 26 characters long.
    pub fn text(self) -> (r: String)
        ensures
            r@ == ulid_text(self.0),
            r@.len() == 26,
    {
        proof {
            lemma_base32_len(self.0 as nat, 26);
        }
        write_ulid(self.0)
    }
}

/// Whole seconds of a clock reading; a clock before 1970 reads as 0.
pub fn secs_of(reading: Option<(u64, u32)>) -> (r: u64)
    ensures
        r == match reading {
            Some((secs, _)) => secs,
            None => 0u64,
        },
{
    match reading {
        Some((secs, _)) => secs,
        None => 0,
    }
}

/// Milliseconds of a clock reading; a clock before 1970 reads as 0.
pub fn millis_of(reading: Option<(u64, u32)>) -> (r: i64)
    ensures
        r == match reading {
            Some((secs, nanos)) => (secs as int * 1000 + nanos as int / 1_000_000) as i64,
            None => 0i64,
        },
{
    match reading {
        Some((secs, nanos)) => {
            let ms: u128 = secs as u128 * 1000 + (nanos / 1_000_000) as u128;
            ms as i64
        },
        None => 0,
    }
}

/// The current Unix time in milliseconds; 0 for a clock before 1970.
pub fn now_ms() -> (r: i64)
    ensures
        exists|reading: Option<(u64, u32)>| r == #[trigger] epoch_millis(reading),
{
    let reading = since_epoch();
    let r = millis_of(reading);
    proof {
        assert(r == epoch_millis(reading));
    }
    r
}

/// What [`millis_of`] gives.
pub open spec fn epoch_millis(reading: Option<(u64, u32)>) -> i64 {
    match reading {
        Some((secs, nanos)) => (secs as int * 1000 + nanos as int / 1_000_000) as i64,
        None => 0i64,
    }
}

/// A span of time: whole seconds and the nanoseconds of the started second.
#[derive(Debug, Clone, Copy, PartialEq, Eq, Structural)]
pub struct Duration {
    pub secs: u64,
    pub nanos: u32,
}

impl Duration {
    pub open spec fn total_nanos(self) -> int {
        self.secs as int * 1_000_000_000 + self.nanos as int
    }

    pub open spec fn wf(self) -> bool {
        self.nanos < 1_000_000_000
    }

    pub fn from_secs(secs: u64) -> (r: Duration)
        ensures
            r.wf(),
            r.total_nanos() == secs as int * 1_000_000_000,
    {
        Duration { secs, nanos: 0 }
    }

    pub fn from_millis(millis: u64) -> (r: Duration)
        ensures
            r.wf(),
            r.total_nanos() == millis as int * 1_000_000,
    {
        Duration { secs: millis / 1000, nanos: ((millis % 1000) as u32) * 1_000_000 }
    }

    pub fn from_micros(micros: u64) -> (r: Duration)
        ensures
            r.wf(),
            r.total_nanos() == micros as int * 1000,
    {
        Duration { secs: micros / 1_000_000, nanos: ((micros % 1_000_000) as u32) * 1000 }
    }

    pub fn from_nanos(nanos: u64) -> (r: Duration)
        ensures
            r.wf(),
            r.total_nanos() == nanos as int,
    {
        Duration { secs: nanos / 1_000_000_000, nanos: (nanos % 1_000_000_000) as u32 }
    }

    /// The span from `earlier` to this one; none where that is no earlier.
    pub fn since(self, earlier: Duration) -> (r: Duration)
        requires
            self.wf(),
            earlier.wf(),
        ensures
            r.wf(),
            r.total_nanos() == (if self.total_nanos() > earlier.total_nanos() {
                self.total_nanos() - earlier.total_nanos()
            } else {
                0
            }),
    {
        if self.secs < earlier.secs || (self.secs == earlier.secs && self.nanos <= earlier.nanos) {
            Duration { secs: 0, nanos: 0 }
        } else if self.nanos >= earlier.nanos {
            Duration { secs: self.secs - earlier.secs, nanos: self.nanos - earlier.nanos }
        } else {
            Duration {
                secs: self.secs - earlier.secs - 1,
                nanos: self.nanos + 1_000_000_000 - earlier.nanos,
            }
        }
    }
}

#[derive(Debug, Clone, Copy, PartialEq, Eq, Hash, Structural)]
pub enum Method {
    Get,
    Post,
    Put,
    Patch,
    Delete,
    Head,
    Options,
}

impl Default for Method {
    fn default() -> (r: Method)
        ensures
            r == Method::Get,
    {
        Method::Get
    }
}

/// The name of a method on the wire.
pub open spec fn method_name(m: Method) -> Seq<char> {
    match m {
        Method::Get => "GET"@,
        Method::Post => "POST"@,
        Method::Put => "PUT"@,
        Method::Patch => "PATCH"@,
        Method::Delete => "DELETE"@,
        Method::Head => "HEAD"@,
        Method::Options => "OPTIONS"@,
    }
}

/// Whether `s` names `m`, in any case and with white space around it.
pub open spec fn names_method(s: Seq<char>, m: Method) -> bool {
    crate::strings::ascii_lower(method_name(m)) == crate::strings::ascii_lower(trimmed(s))
}

impl Method {
    pub const ALL: [Method; 7] = [
        Method::Get,
        Method::Post,
        Method::Put,
        Method::Patch,
        Method::Delete,
        Method::Head,
        Method::Options,
    ];

    pub fn as_str(self) -> (r: &'static str)
        ensures
            r@ == method_name(self),
    {
        match self {
            Method::Get => "GET",
            Method::Post => "POST",
            Method::Put => "PUT",
            Method::Patch => "PATCH",
            Method::Delete => "DELETE",
            Method::Head => "HEAD",
            Method::Options => "OPTIONS",
        }
    }

    /// The method that `s` names, in any case and with white space around it.
    pub fn parse(s: &str) -> (r: Option<Method>)
        ensures
            match r {
                Some(m) => names_method(s@, m),
                None => forall|m: Method| !names_method(s@, m),
            },
    {
        let name = trim(s);
        let mut i: usize = 0;
        while i < 7
            invariant
                i <= 7,
                name@ == trimmed(s@),
                forall|k: int| 0 <= k < i ==> !names_method(s@, #[trigger] all_methods()[k]),
            decreases 7 - i,
        {
            let m = nth_method(i);
            if texts_equal_ignoring_case(m.as_str(), name.as_str()) {
                return Some(m);
            }
            i = i + 1;
        }
        proof {
            assert forall|m: Method| !names_method(s@, m) by {
                let k: int = match m {
                    Method::Get => 0,
                    Method::Post => 1,
                    Method::Put => 2,
                    Method::Patch => 3,
                    Method::Delete => 4,
                    Method::Head => 5,
                    Method::Options => 6,
                };
                assert(all_methods()[k] == m);
            }
        }
        None
    }
}

/// Every method, in the order in which menus list them.
pub open spec fn all_methods() -> Seq<Method> {
    seq![
        Method::Get,
        Method::Post,
        Method::Put,
        Method::Patch,
        Method::Delete,
        Method::Head,
        Method::Options,
    ]
}

fn nth_method(i: usize) -> (r: Method)
    requires
        i < 7,
    ensures
        r == all_methods()[i as int],
{
    if i == 0 {
        Method::Get
    } else if i == 1 {
        Method::Post
    } else if i == 2 {
        Method::Put
    } else if i == 3 {
        Method::Patch
    } else if i == 4 {
        Method::Delete
    } else if i == 5 {
        Method::Head
    } else {
        Method::Options
    }
}

/// The name of a method names that method and no other.
pub proof fn method_names_are_unambiguous(m: Method, other: Method)
    ensures
        names_method(method_name(m), other) <==> m == other,
{
    reveal_strlit("GET");
    reveal_strlit("POST");
    reveal_strlit("PUT");
    reveal_strlit("PATCH");
    reveal_strlit("DELETE");
    reveal_strlit("HEAD");
    reveal_strlit("OPTIONS");
    let a = method_name(m);
    let b = method_name(other);
    assert(crate::strings::trim_front(a) == a);
    assert(crate::strings::trim_back(a) == a);
    if a.len() == b.len() && m != other {
        let la = crate::strings::ascii_lower(a);
        let lb = crate::strings::ascii_lower(b);
        assert(la[0] != lb[0] || la[1] != lb[1]) by {
            assert(crate::strings::lower_char('G') == 'g');
            assert(crate::strings::lower_char('P') == 'p');
            assert(crate::strings::lower_char('U') == 'u');
            assert(crate::strings::lower_char('O') == 'o');
            assert(crate::strings::lower_char('H') == 'h');
            assert(crate::strings::lower_char('E') == 'e');
        }
    }
    if a.len() != b.len() {
        assert(crate::strings::ascii_lower(a).len() != crate::strings::ascii_lower(b).len());
    }
}

/// A key and a value with a switch: a parameter, a header, a form field.
#[derive(Debug, PartialEq, Eq)]
pub struct KeyValue {
    pub key: String,
    pub value: String,
    pub enabled: bool,
}

pub struct KeyValueView {
    pub key: Seq<char>,
    pub value: Seq<char>,
    pub enabled: bool,
}

impl View for KeyValue {
    type V = KeyValueView;

    open spec fn view(&self) -> KeyValueView {
        KeyValueView { key: self.key@, value: self.value@, enabled: self.enabled }
    }
}

impl Clone for KeyValue {
    fn clone(&self) -> (r: KeyValue)
        ensures
            r == *self,
    {
        KeyValue { key: self.key.clone(), value: self.value.clone(), enabled: self.enabled }
    }
}

impl Default for KeyValue {
    fn default() -> (r: KeyValue)
        ensures
            r@ == (KeyValueView {
                key: Seq::<char>::empty(),
                value: Seq::<char>::empty(),
                enabled: false,
            }),
    {
        KeyValue { key: String::new(), value: String::new(), enabled: false }
    }
}

impl KeyValue {
    /// An enabled row.
    pub fn new(key: &str, value: &str) -> (r: KeyValue)
        ensures
            r@ == (KeyValueView { key: key@, value: value@, enabled: true }),
    {
        KeyValue { key: key.to_owned(), value: value.to_owned(), enabled: true }
    }
}

/// Copies rows.
pub(crate) fn clone_rows(rows: &Vec<KeyValue>) -> (r: Vec<KeyValue>)
    ensures
        r@ == rows@,
{
    let r = rows.clone();
    proof {
        assert(r@ =~= rows@);
    }
    r
}

#[derive(Debug, Clone, Copy, PartialEq, Eq, Hash, Structural)]
pub enum RawFormat {
    Json,
    Text,
    Xml,
}

impl RawFormat {
    pub const ALL: [RawFormat; 3] = [RawFormat::Json, RawFormat::Text, RawFormat::Xml];

    pub open spec fn spec_content_type(self) -> Seq<char> {
        match self {
            RawFormat::Json => "application/json"@,
            RawFormat::Text => "text/plain"@,
            RawFormat::Xml => "application/xml"@,
        }
    }

    pub fn content_type(self) -> (r: &'static str)
        ensures
            r@ == self.spec_content_type(),
    {
        match self {
            RawFormat::Json => "application/json",
            RawFormat::Text => "text/plain",
            RawFormat::Xml => "application/xml",
        }
    }

    pub fn label(self) -> (r: &'static str)
        ensures
            r@ == match self {
                RawFormat::Json => "JSON"@,
                RawFormat::Text => "Text"@,
                RawFormat::Xml => "XML"@,
            },
    {
        match self {
            RawFormat::Json => "JSON",
            RawFormat::Text => "Text",
            RawFormat::Xml => "XML",
        }
    }

    /// The language by which an editor highlights the format; XML is shown as
    /// HTML.
    pub fn editor_language(self) -> (r: &'static str)
        ensures
            r@ == match self {
                RawFormat::Json => "json"@,
                RawFormat::Text => "text"@,
                RawFormat::Xml => "html"@,
            },
    {
        match self {
            RawFormat::Json => "json",
            RawFormat::Text => "text",
            RawFormat::Xml => "html",
        }
    }
}

/// The value of a multipart field.
#[derive(Debug, PartialEq, Eq)]
pub enum FormValue {
    Text { value: String },
    File { path: String, content_type: Option<String> },
}

pub enum FormValueView {
    Text { value: Seq<char> },
    File { path: Seq<char>, content_type: Option<Seq<char>> },
}

impl View for FormValue {
    type V = FormValueView;

    open spec fn view(&self) -> FormValueView {
        match *self {
            FormValue::Text { value } => FormValueView::Text { value: value@ },
            FormValue::File { path, content_type } => FormValueView::File {
                path: path@,
                content_type: opt_text(content_type),
            },
        }
    }
}

/// Copies an optional text.
pub(crate) fn clone_text(o: &Option<String>) -> (r: Option<String>)
    ensures
        opt_text(r) == opt_text(*o),
{
    match o {
        Some(s) => Some(s.clone()),
        None => None,
    }
}

impl Clone for FormValue {
    fn clone(&self) -> (r: FormValue)
        ensures
            r@ == self@,
    {
        match self {
            FormValue::Text { value } => FormValue::Text { value: value.clone() },
            FormValue::File { path, content_type } => FormValue::File {
                path: path.clone(),
                content_type: clone_text(content_type),
            },
        }
    }
}

/// A multipart field with a switch.
#[derive(Debug, PartialEq, Eq)]
pub struct FormField {
    pub key: String,
    pub value: FormValue,
    pub enabled: bool,
}

pub struct FormFieldView {
    pub key: Seq<char>,
    pub value: FormValueView,
    pub enabled: bool,
}

impl View for FormField {
    type V = FormFieldView;

    open spec fn view(&self) -> FormFieldView {
        FormFieldView { key: self.key@, value: self.value@, enabled: self.enabled }
    }
}

impl Clone for FormField {
    fn clone(&self) -> (r: FormField)
        ensures
            r@ == self@,
    {
        FormField { key: self.key.clone(), value: self.value.clone(), enabled: self.enabled }
    }
}

impl FormField {
    /// An enabled text field.
    pub fn text(key: &str, value: &str) -> (r: FormField)
        ensures
            r@ == (FormFieldView {
                key: key@,
                value: FormValueView::Text { value: value@ },
                enabled: true,
            }),
    {
        FormField {
            key: key.to_owned(),
            value: FormValue::Text { value: value.to_owned() },
            enabled: true,
        }
    }

    /// An enabled file field without a content type of its own.
    pub fn file(key: &str, path: &str) -> (r: FormField)
        ensures
            r@ == (FormFieldView {
                key: key@,
                value: FormValueView::File { path: path@, content_type: None },
                enabled: true,
            }),
    {
        FormField {
            key: key.to_owned(),
            value: FormValue::File { path: path.to_owned(), content_type: None },
            enabled: true,
        }
    }
}

/// Copies fields.
pub(crate) fn clone_fields(fields: &Vec<FormField>) -> (r: Vec<FormField>)
    ensures
        views(r@) == views(fields@),
{
    let r = fields.clone();
    proof {
        assert(views(r@) =~= views(fields@));
    }
    r
}

/// The body of a request.
#[derive(Debug, PartialEq, Eq)]
pub enum BodyKind {
    Empty,
    Raw { format: RawFormat, text: String },
    FormData { fields: Vec<FormField> },
    FormUrlEncoded { fields: Vec<KeyValue> },
    File { path: String, content_type: Option<String> },
}

pub enum BodyKindView {
    Empty,
    Raw { format: RawFormat, text: Seq<char> },
    FormData { fields: Seq<FormFieldView> },
    FormUrlEncoded { fields: Seq<KeyValueView> },
    File { path: Seq<char>, content_type: Option<Seq<char>> },
}

impl View for BodyKind {
    type V = BodyKindView;

    open spec fn view(&self) -> BodyKindView {
        match *self {
            BodyKind::Empty => BodyKindView::Empty,
            BodyKind::Raw { format, text } => BodyKindView::Raw { format, text: text@ },
            BodyKind::FormData { fields } => BodyKindView::FormData { fields: views(fields@) },
            BodyKind::FormUrlEncoded { fields } => BodyKindView::FormUrlEncoded {
                fields: views(fields@),
            },
            BodyKind::File { path, content_type } => BodyKindView::File {
                path: path@,
                content_type: opt_text(content_type),
            },
        }
    }
}

impl Clone for BodyKind {
    fn clone(&self) -> (r: BodyKind)
        ensures
            r@ == self@,
    {
        match self {
            BodyKind::Empty => BodyKind::Empty,
            BodyKind::Raw { format, text } => BodyKind::Raw { format: *format, text: text.clone() },
            BodyKind::FormData { fields } => BodyKind::FormData { fields: clone_fields(fields) },
            BodyKind::FormUrlEncoded { fields } => BodyKind::FormUrlEncoded {
                fields: clone_rows(fields),
            },
            BodyKind::File { path, content_type } => BodyKind::File {
                path: path.clone(),
                content_type: clone_text(content_type),
            },
        }
    }
}

impl Default for BodyKind {
    fn default() -> (r: BodyKind)
        ensures
            r@ == BodyKindView::Empty,
    {
        BodyKind::Empty
    }
}

/// Which table of variables an operation writes to.
#[derive(Debug, Clone, Copy, PartialEq, Eq, Structural)]
pub enum VarScope {
    Global,
    Group,
    Environment,
}

/// Where an extraction or an assertion reads.
#[derive(Debug, PartialEq, Eq)]
pub enum ResponseSource {
    Status,
    Header { name: String },
    JsonPath { path: String },
}

pub enum ResponseSourceView {
    Status,
    Header { name: Seq<char> },
    JsonPath { path: Seq<char> },
}

impl View for ResponseSource {
    type V = ResponseSourceView;

    open spec fn view(&self) -> ResponseSourceView {
        match *self {
            ResponseSource::Status => ResponseSourceView::Status,
            ResponseSource::Header { name } => ResponseSourceView::Header { name: name@ },
            ResponseSource::JsonPath { path } => ResponseSourceView::JsonPath { path: path@ },
        }
    }
}

impl Clone for ResponseSource {
    fn clone(&self) -> (r: ResponseSource)
        ensures
            r@ == self@,
    {
        match self {
            ResponseSource::Status => ResponseSource::Status,
            ResponseSource::Header { name } => ResponseSource::Header { name: name.clone() },
            ResponseSource::JsonPath { path } => ResponseSource::JsonPath { path: path.clone() },
        }
    }
}

#[derive(Debug, Clone, Copy, PartialEq, Eq, Structural)]
pub enum AssertOp {
    Equals,
    NotEquals,
    Contains,
    Exists,
}

/// What an operation before sending does.
#[derive(Debug, PartialEq, Eq)]
pub enum PreOpKind {
    SetVariable { scope: VarScope, key: String, value: String },
}

/// An operation before sending, with a switch.
#[derive(Debug, PartialEq, Eq)]
pub struct PreOp {
    pub enabled: bool,
    pub kind: PreOpKind,
}

pub struct PreOpView {
    pub enabled: bool,
    pub scope: VarScope,
    pub key: Seq<char>,
    pub value: Seq<char>,
}

impl View for PreOp {
    type V = PreOpView;

    open spec fn view(&self) -> PreOpView {
        match self.kind {
            PreOpKind::SetVariable { scope, key, value } => PreOpView {
                enabled: self.enabled,
                scope,
                key: key@,
                value: value@,
            },
        }
    }
}

impl Clone for PreOpKind {
    fn clone(&self) -> (r: PreOpKind)
        ensures
            r == *self,
    {
        match self {
            PreOpKind::SetVariable { scope, key, value } => PreOpKind::SetVariable {
                scope: *scope,
                key: key.clone(),
                value: value.clone(),
            },
        }
    }
}

impl Clone for PreOp {
    fn clone(&self) -> (r: PreOp)
        ensures
            r == *self,
    {
        PreOp { enabled: self.enabled, kind: self.kind.clone() }
    }
}

/// What an operation on the response does.
#[derive(Debug, PartialEq, Eq)]
pub enum PostOpKind {
    Extract { scope: VarScope, key: String, source: ResponseSource },
    Assert { subject: ResponseSource, op: AssertOp, expected: String },
}

pub enum PostOpKindView {
    Extract { scope: VarScope, key: Seq<char>, source: ResponseSourceView },
    Assert { subject: ResponseSourceView, op: AssertOp, expected: Seq<char> },
}

impl View for PostOpKind {
    type V = PostOpKindView;

    open spec fn view(&self) -> PostOpKindView {
        match *self {
            PostOpKind::Extract { scope, key, source } => PostOpKindView::Extract {
                scope,
                key: key@,
                source: source@,
            },
            PostOpKind::Assert { subject, op, expected } => PostOpKindView::Assert {
                subject: subject@,
                op,
                expected: expected@,
            },
        }
    }
}

impl Clone for PostOpKind {
    fn clone(&self) -> (r: PostOpKind)
        ensures
            r@ == self@,
    {
        match self {
            PostOpKind::Extract { scope, key, source } => PostOpKind::Extract {
                scope: *scope,
                key: key.clone(),
                source: source.clone(),
            },
            PostOpKind::Assert { subject, op, expected } => PostOpKind::Assert {
                subject: subject.clone(),
                op: *op,
                expected: expected.clone(),
            },
        }
    }
}

/// An operation on the response, with a switch.
#[derive(Debug, PartialEq, Eq)]
pub struct PostOp {
    pub enabled: bool,
    pub kind: PostOpKind,
}

pub struct PostOpView {
    pub enabled: bool,
    pub kind: PostOpKindView,
}

impl View for PostOp {
    type V = PostOpView;

    open spec fn view(&self) -> PostOpView {
        PostOpView { enabled: self.enabled, kind: self.kind@ }
    }
}

impl Clone for PostOp {
    fn clone(&self) -> (r: PostOp)
        ensures
            r@ == self@,
    {
        PostOp { enabled: self.enabled, kind: self.kind.clone() }
    }
}

/// One request as the user edits it.
#[derive(Debug, PartialEq, Eq)]
pub struct RequestDraft {
    pub method: Method,
    /// May hold `{name}` placeholders, filled from `path_params`.
    pub url: String,
    pub path_params: Vec<KeyValue>,
    pub params: Vec<KeyValue>,
    pub headers: Vec<KeyValue>,
    pub body: BodyKind,
    pub pre_ops: Vec<PreOp>,
    pub post_ops: Vec<PostOp>,
}

#[verifier::ext_equal]
pub struct DraftView {
    pub method: Method,
    pub url: Seq<char>,
    pub path_params: Seq<KeyValueView>,
    pub params: Seq<KeyValueView>,
    pub headers: Seq<KeyValueView>,
    pub body: BodyKindView,
    pub pre_ops: Seq<PreOpView>,
    pub post_ops: Seq<PostOpView>,
}

impl View for RequestDraft {
    type V = DraftView;

    open spec fn view(&self) -> DraftView {
        DraftView {
            method: self.method,
            url: self.url@,
            path_params: views(self.path_params@),
            params: views(self.params@),
            headers: views(self.headers@),
            body: self.body@,
            pre_ops: views(self.pre_ops@),
            post_ops: views(self.post_ops@),
        }
    }
}

impl Clone for RequestDraft {
    fn clone(&self) -> (r: RequestDraft)
        ensures
            r@ == self@,
    {
        let pre_ops = self.pre_ops.clone();
        let post_ops = self.post_ops.clone();
        proof {
            assert(views(pre_ops@) =~= views(self.pre_ops@));
            assert(views(post_ops@) =~= views(self.post_ops@));
        }
        RequestDraft {
            method: self.method,
            url: self.url.clone(),
            path_params: clone_rows(&self.path_params),
            params: clone_rows(&self.params),
            headers: clone_rows(&self.headers),
            body: self.body.clone(),
            pre_ops,
            post_ops,
        }
    }
}

/// The empty request.
pub open spec fn empty_draft() -> DraftView {
    DraftView {
        method: Method::Get,
        url: Seq::empty(),
        path_params: Seq::empty(),
        params: Seq::empty(),
        headers: Seq::empty(),
        body: BodyKindView::Empty,
        pre_ops: Seq::empty(),
        post_ops: Seq::empty(),
    }
}

impl Default for RequestDraft {
    fn default() -> (r: RequestDraft)
        ensures
            r@ == empty_draft(),
    {
        let r = RequestDraft {
            method: Method::Get,
            url: String::new(),
            path_params: Vec::new(),
            params: Vec::new(),
            headers: Vec::new(),
            body: BodyKind::Empty,
            pre_ops: Vec::new(),
            post_ops: Vec::new(),
        };
        proof {
            assert(r@ =~= empty_draft());
        }
        r
    }
}

#[derive(Debug, Clone, Copy, PartialEq, Eq, Structural)]
pub enum SourceKind {
    OpenApi,
    Postman,
    Curl,
}

/// Where an imported request comes from.
#[derive(Debug, PartialEq, Eq)]
pub struct Source {
    pub kind: SourceKind,
    pub spec: String,
    pub operation_id: Option<String>,
}

pub struct SourceView {
    pub kind: SourceKind,
    pub spec: Seq<char>,
    pub operation_id: Option<Seq<char>>,
}

impl View for Source {
    type V = SourceView;

    open spec fn view(&self) -> SourceView {
        SourceView {
            kind: self.kind,
            spec: self.spec@,
            operation_id: opt_text(self.operation_id),
        }
    }
}

impl Clone for Source {
    fn clone(&self) -> (r: Source)
        ensures
            r@ == self@,
    {
        Source {
            kind: self.kind,
            spec: self.spec.clone(),
            operation_id: clone_text(&self.operation_id),
        }
    }
}

pub open spec fn source_view(source: Option<Source>) -> Option<SourceView> {
    match source {
        Some(s) => Some(s@),
        None => None,
    }
}

/// A saved request.
#[derive(Debug, PartialEq, Eq)]
pub struct SavedRequest {
    pub id: Ulid,
    pub name: String,
    pub draft: RequestDraft,
    pub group: Option<String>,
    pub source: Option<Source>,
    /// Unix time in milliseconds.
    pub created_at: i64,
    pub updated_at: i64,
}

pub struct SavedView {
    pub id: Ulid,
    pub name: Seq<char>,
    pub draft: DraftView,
    pub group: Option<Seq<char>>,
    pub source: Option<SourceView>,
    pub created_at: i64,
    pub updated_at: i64,
}

impl View for SavedRequest {
    type V = SavedView;

    open spec fn view(&self) -> SavedView {
        SavedView {
            id: self.id,
            name: self.name@,
            draft: self.draft@,
            group: opt_text(self.group),
            source: source_view(self.source),
            created_at: self.created_at,
            updated_at: self.updated_at,
        }
    }
}

impl Clone for SavedRequest {
    fn clone(&self) -> (r: SavedRequest)
        ensures
            r@ == self@,
    {
        SavedRequest {
            id: self.id,
            name: self.name.clone(),
            draft: self.draft.clone(),
            group: clone_text(&self.group),
            source: match &self.source {
                Some(source) => Some(source.clone()),
                None => None,
            },
            created_at: self.created_at,
            updated_at: self.updated_at,
        }
    }
}

impl SavedRequest {
    /// A saved request made at `now` under the identifier `id`.
    pub fn at(id: Ulid, now: i64, name: &str, draft: RequestDraft) -> (r: SavedRequest)
        ensures
            r@ == (SavedView {
                id,
                name: name@,
                draft: draft@,
                group: None,
                source: None,
                created_at: now,
                updated_at: now,
            }),
    {
        SavedRequest {
            id,
            name: name.to_owned(),
            draft,
            group: None,
            source: None,
            created_at: now,
            updated_at: now,
        }
    }

    /// A saved request made now under a new identifier.
    pub fn new(name: &str, draft: RequestDraft) -> (r: SavedRequest)
        ensures
            r@ == (SavedView {
                id: r.id,
                name: name@,
                draft: draft@,
                group: None,
                source: None,
                created_at: r.created_at,
                updated_at: r.created_at,
            }),
    {
        Self::at(Ulid::generate(), now_ms(), name, draft)
    }
}

/// What is kept of a tab between two runs.
#[derive(Debug, PartialEq, Eq)]
pub struct TabDraft {
    pub id: TabId,
    pub draft: RequestDraft,
    pub saved_id: Option<Ulid>,
    pub dirty: bool,
}

pub struct TabDraftView {
    pub id: TabId,
    pub draft: DraftView,
    pub saved_id: Option<Ulid>,
    pub dirty: bool,
}

impl View for TabDraft {
    type V = TabDraftView;

    open spec fn view(&self) -> TabDraftView {
        TabDraftView {
            id: self.id,
            draft: self.draft@,
            saved_id: self.saved_id,
            dirty: self.dirty,
        }
    }
}

#[derive(Debug, Clone, Copy, PartialEq, Eq, Structural)]
pub enum ThemePref {
    System,
    Light,
    Dark,
}

impl Default for ThemePref {
    fn default() -> (r: ThemePref)
        ensures
            r == ThemePref::System,
    {
        ThemePref::System
    }
}

impl ThemePref {
    pub const ALL: [ThemePref; 3] = [ThemePref::System, ThemePref::Light, ThemePref::Dark];

    pub fn label(self) -> (r: &'static str)
        ensures
            r@ == match self {
                ThemePref::System => "跟随系统"@,
                ThemePref::Light => "浅色"@,
                ThemePref::Dark => "深色"@,
            },
    {
        match self {
            ThemePref::System => "跟随系统",
            ThemePref::Light => "浅色",
            ThemePref::Dark => "深色",
        }
    }

    pub open spec fn spec_next(self) -> ThemePref {
        match self {
            ThemePref::System => ThemePref::Light,
            ThemePref::Light => ThemePref::Dark,
            ThemePref::Dark => ThemePref::System,
        }
    }

    /// The next preference of the cycle system, light, dark.
    pub fn next(self) -> (r: ThemePref)
        ensures
            r == self.spec_next(),
    {
        match self {
            ThemePref::System => ThemePref::Light,
            ThemePref::Light => ThemePref::Dark,
            ThemePref::Dark => ThemePref::System,
        }
    }
}

impl ThemePref {
    pub open spec fn key_of(self) -> Seq<char> {
        match self {
            ThemePref::System => "system"@,
            ThemePref::Light => "light"@,
            ThemePref::Dark => "dark"@,
        }
    }
}

/// The name under which a preference is kept.
pub fn theme_key(pref: ThemePref) -> (r: &'static str)
    ensures
        r@ == pref.key_of(),
{
    match pref {
        ThemePref::System => "system",
        ThemePref::Light => "light",
        ThemePref::Dark => "dark",
    }
}

/// The preference of the given name; the system's for any other name.
pub fn theme_of_key(key: &str) -> (r: ThemePref)
    ensures
        r == (if key@ == "light"@ {
            ThemePref::Light
        } else if key@ == "dark"@ {
            ThemePref::Dark
        } else {
            ThemePref::System
        }),
{
    if crate::strings::same_text(key, "light") {
        ThemePref::Light
    } else if crate::strings::same_text(key, "dark") {
        ThemePref::Dark
    } else {
        ThemePref::System
    }
}

/// Each preference is kept under a name of its own.
pub proof fn theme_keys_are_distinct(a: ThemePref, b: ThemePref)
    requires
        a.key_of() == b.key_of(),
    ensures
        a == b,
{
    reveal_strlit("system");
    reveal_strlit("light");
    reveal_strlit("dark");
    assert("system"@.len() == 6);
    assert("light"@.len() == 5);
    assert("dark"@.len() == 4);
}

/// Three steps of the theme cycle lead back to the start, fewer do not.
pub proof fn theme_cycle_has_three_steps(t: ThemePref)
    ensures
        t.spec_next() != t,
        t.spec_next().spec_next() != t,
        t.spec_next().spec_next().spec_next() == t,
{
}

/// Where the response pane stands.
#[derive(Debug, Clone, Copy, PartialEq, Eq, Structural)]
pub enum SplitDirection {
    Horizontal,
    Vertical,
}

/// Layout and order of the workspace, without any request.
#[derive(Debug, PartialEq, Eq)]
pub struct WorkspaceState {
    pub tab_order: Vec<TabId>,
    pub active: Option<TabId>,
    /// The bit pattern of the sidebar's width in logical pixels.
    pub sidebar_width: Option<u32>,
    pub sidebar_collapsed: bool,
    pub theme: ThemePref,
    pub split: SplitDirection,
}

#[verifier::ext_equal]
pub struct StateView {
    pub tab_order: Seq<TabId>,
    pub active: Option<TabId>,
    pub sidebar_width: Option<u32>,
    pub sidebar_collapsed: bool,
    pub theme: ThemePref,
    pub split: SplitDirection,
}

impl View for WorkspaceState {
    type V = StateView;

    open spec fn view(&self) -> StateView {
        StateView {
            tab_order: self.tab_order@,
            active: self.active,
            sidebar_width: self.sidebar_width,
            sidebar_collapsed: self.sidebar_collapsed,
            theme: self.theme,
            split: self.split,
        }
    }
}

/// The layout before anything was kept.
pub open spec fn first_state() -> StateView {
    StateView {
        tab_order: Seq::empty(),
        active: None,
        sidebar_width: None,
        sidebar_collapsed: true,
        theme: ThemePref::System,
        split: SplitDirection::Horizontal,
    }
}

impl Default for WorkspaceState {
    fn default() -> (r: WorkspaceState)
        ensures
            r@ == first_state(),
    {
        let r = WorkspaceState {
            tab_order: Vec::new(),
            active: None,
            sidebar_width: None,
            sidebar_collapsed: true,
            theme: ThemePref::System,
            split: SplitDirection::Horizontal,
        };
        proof {
            assert(r@ =~= first_state());
        }
        r
    }
}

/// What is known of a response besides its body.
#[derive(Debug, PartialEq, Eq)]
pub struct ResponseMeta {
    pub status: u16,
    pub status_text: String,
    pub headers: Vec<(String, String)>,
    pub duration: Duration,
    pub body_len: u64,
    pub content_type: Option<String>,
}

/// A variable of one table.
#[derive(Debug, PartialEq, Eq)]
pub struct Variable {
    pub key: String,
    pub value: String,
    pub enabled: bool,
    pub secret: bool,
    pub description: String,
}

pub struct VariableView {
    pub key: Seq<char>,
    pub value: Seq<char>,
    pub enabled: bool,
    pub secret: bool,
    pub description: Seq<char>,
}

impl View for Variable {
    type V = VariableView;

    open spec fn view(&self) -> VariableView {
        VariableView {
            key: self.key@,
            value: self.value@,
            enabled: self.enabled,
            secret: self.secret,
            description: self.description@,
        }
    }
}

impl Clone for Variable {
    fn clone(&self) -> (r: Variable)
        ensures
            r == *self,
    {
        Variable {
            key: self.key.clone(),
            value: self.value.clone(),
            enabled: self.enabled,
            secret: self.secret,
            description: self.description.clone(),
        }
    }
}

/// An enabled, plain variable.
pub open spec fn plain_variable(key: Seq<char>, value: Seq<char>) -> VariableView {
    VariableView { key, value, enabled: true, secret: false, description: Seq::empty() }
}

impl Variable {
    pub fn new(key: &str, value: &str) -> (r: Variable)
        ensures
            r@ == plain_variable(key@, value@),
    {
        Variable {
            key: key.to_owned(),
            value: value.to_owned(),
            enabled: true,
            secret: false,
            description: String::new(),
        }
    }
}

} // verus!
