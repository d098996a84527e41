//! Environments and globals in the JSON format of Postman.
//!
//! `{ "name", "values": [{ "key", "value", "enabled", "type" }],
//! "_postman_variable_scope" }`, where the type `secret` marks a secret variable.
use crate::json::{
    array_len, bool_of_value, compact_text, doc_json, doc_text, element, is_null, is_object,
    json_parsed, json_text, json_view, member, members, nests_within, parse_value, push_doc,
    string_of_value, Doc, DocView, JsonView, PARSER_DEPTH,
};
use crate::model::{Ulid, Variable, VariableView};
use crate::strings::{same_text, views};
use crate::vars::{iso_text, iso_utc};
use vstd::prelude::*;

verus! {

/// The application and its version, as exports name them.
pub const EXPORTER: &'static str = "GetCat/0.1.0";

#[derive(Debug, Clone, Copy, PartialEq, Eq, Structural)]
pub enum PostmanScope {
    Environment,
    Globals,
}

#[derive(Debug, PartialEq, Eq)]
pub struct PostmanEnv {
    pub name: String,
    pub scope: PostmanScope,
    pub variables: Vec<Variable>,
}

#[verifier::ext_equal]
pub struct PostmanEnvView {
    pub name: Seq<char>,
    pub scope: PostmanScope,
    pub variables: Seq<VariableView>,
}

impl View for PostmanEnv {
    type V = PostmanEnvView;

    open spec fn view(&self) -> PostmanEnvView {
        PostmanEnvView {
            name: self.name@,
            scope: self.scope,
            variables: views(self.variables@),
        }
    }
}

#[derive(Debug, PartialEq, Eq)]
pub enum PostmanEnvError {
    Json(String),
    NotEnvironment,
}

pub enum PostmanErrorView {
    Json(Seq<char>),
    NotEnvironment,
}

impl View for PostmanEnvError {
    type V = PostmanErrorView;

    open spec fn view(&self) -> PostmanErrorView {
        match *self {
            PostmanEnvError::Json(e) => PostmanErrorView::Json(e@),
            PostmanEnvError::NotEnvironment => PostmanErrorView::NotEnvironment,
        }
    }
}

impl PostmanEnvError {
    /// The message for the user.
    pub fn message(&self) -> (r: String)
        ensures
            r@ == match self@ {
                PostmanErrorView::Json(e) => "not valid JSON: "@ + e,
                PostmanErrorView::NotEnvironment =>
                    "not a Postman environment: expected an object with a \"values\" array"@,
            },
    {
        match self {
            PostmanEnvError::Json(e) => {
                let mut out = "not valid JSON: ".to_owned();
                crate::strings::push_text(&mut out, e.as_str());
                out
            },
            PostmanEnvError::NotEnvironment =>
                "not a Postman environment: expected an object with a \"values\" array".to_owned(),
        }
    }
}

/// The member `key` of an object.
pub open spec fn field(v: JsonView, key: Seq<char>) -> Option<JsonView> {
    match v {
        JsonView::Object(m) => if m.contains_key(key) {
            Some(m[key])
        } else {
            None
        },
        _ => None,
    }
}

/// A text that may be left out, then it is empty; `None` where it is no text.
pub open spec fn text_or_empty(v: Option<JsonView>) -> Option<Seq<char>> {
    match v {
        None => Some(Seq::empty()),
        Some(JsonView::Str(s)) => Some(s),
        Some(_) => None,
    }
}

/// Whether a value is a text, `null` or left out.
pub open spec fn optional_text(v: Option<JsonView>) -> bool {
    match v {
        None => true,
        Some(JsonView::Str(_)) => true,
        Some(JsonView::Null) => true,
        Some(_) => false,
    }
}

/// The value of a variable: a text as it is, nothing for `null`, anything else as
/// JSON.
pub open spec fn variable_text(v: Option<JsonView>) -> Seq<char> {
    match v {
        None => Seq::empty(),
        Some(JsonView::Null) => Seq::empty(),
        Some(JsonView::Str(s)) => s,
        Some(other) => json_text(other),
    }
}

/// The variable of one entry; `None` for an entry of another shape.
pub open spec fn entry_variable(v: JsonView) -> Option<VariableView> {
    let enabled = match field(v, "enabled"@) {
        None => Some(true),
        Some(JsonView::Bool(b)) => Some(b),
        Some(_) => None,
    };
    match (field(v, "key"@), enabled, text_or_empty(field(v, "type"@))) {
        (Some(JsonView::Str(key)), Some(on), Some(kind)) => Some(
            VariableView {
                key,
                value: variable_text(field(v, "value"@)),
                enabled: on,
                secret: kind == "secret"@,
                description: Seq::empty(),
            },
        ),
        _ => None,
    }
}

/// The variables of all entries; `None` where one has another shape.
pub open spec fn entry_variables(items: Seq<JsonView>) -> Option<Seq<VariableView>>
    decreases items.len(),
{
    if items.len() == 0 {
        Some(Seq::empty())
    } else {
        match (entry_variables(items.drop_last()), entry_variable(items.last())) {
            (Some(head), Some(v)) => Some(head.push(v)),
            _ => None,
        }
    }
}

/// The scope of a file: globals only where it says so.
pub open spec fn scope_of(v: Option<JsonView>) -> PostmanScope {
    if v == Some(JsonView::Str("globals"@)) {
        PostmanScope::Globals
    } else {
        PostmanScope::Environment
    }
}

/// The environment that a JSON value describes; `None` for another shape.
pub open spec fn environment_of(v: JsonView) -> Option<PostmanEnvView> {
    match field(v, "values"@) {
        Some(JsonView::Array(items)) => match (
            entry_variables(items),
            text_or_empty(field(v, "name"@)),
        ) {
            (Some(variables), Some(name)) => if text_or_empty(field(v, "id"@)) is Some
                && optional_text(field(v, "_postman_exported_at"@)) && optional_text(
                field(v, "_postman_exported_using"@),
            ) {
                Some(
                    PostmanEnvView {
                        name,
                        scope: scope_of(field(v, "_postman_variable_scope"@)),
                        variables,
                    },
                )
            } else {
                None
            },
            _ => None,
        },
        _ => None,
    }
}

fn get_field<'a>(v: &'a serde_json::Value, key: &str) -> (r: Option<&'a serde_json::Value>)
    ensures
        match r {
            Some(m) => field(json_view(*v), key@) == Some(json_view(*m)),
            None => field(json_view(*v), key@) is None,
        },
{
    member(v, key)
}

fn read_text(v: Option<&serde_json::Value>) -> (r: Option<String>)
    ensures
        crate::strings::opt_text(r) == text_or_empty(opt_json(v)),
{
    match v {
        None => Some(String::new()),
        Some(x) => match string_of_value(x) {
            Some(s) => Some(s.to_owned()),
            None => None,
        },
    }
}

/// The view of an optional value.
pub open spec fn opt_json(v: Option<&serde_json::Value>) -> Option<JsonView> {
    match v {
        Some(x) => Some(json_view(*x)),
        None => None,
    }
}

fn reads_as_text(v: Option<&serde_json::Value>) -> (r: bool)
    ensures
        r == optional_text(opt_json(v)),
{
    match v {
        None => true,
        Some(x) => is_null(x) || string_of_value(x).is_some(),
    }
}

fn default_true(v: Option<&serde_json::Value>) -> (r: Option<bool>)
    ensures
        r == match opt_json(v) {
            None => Some(true),
            Some(JsonView::Bool(b)) => Some(b),
            Some(_) => None,
        },
{
    match v {
        None => Some(true),
        Some(x) => bool_of_value(x),
    }
}

fn value_to_string(v: Option<&serde_json::Value>) -> (r: String)
    ensures
        r@ == variable_text(opt_json(v)),
{
    match v {
        None => String::new(),
        Some(x) => if is_null(x) {
            String::new()
        } else {
            match string_of_value(x) {
                Some(s) => s.to_owned(),
                None => compact_text(x),
            }
        },
    }
}

fn scope_from_value(v: Option<&serde_json::Value>) -> (r: PostmanScope)
    ensures
        r == scope_of(opt_json(v)),
{
    if let Some(x) = v {
        if let Some(s) = string_of_value(x) {
            if same_text(s, "globals") {
                return PostmanScope::Globals;
            }
        }
    }
    PostmanScope::Environment
}

fn read_entry(v: &serde_json::Value) -> (r: Option<Variable>)
    ensures
        match r {
            Some(x) => entry_variable(json_view(*v)) == Some(x@),
            None => entry_variable(json_view(*v)) is None,
        },
{
    let key = match get_field(v, "key") {
        Some(k) => match string_of_value(k) {
            Some(s) => s.to_owned(),
            None => return None,
        },
        None => return None,
    };
    let enabled = match default_true(get_field(v, "enabled")) {
        Some(b) => b,
        None => return None,
    };
    let kind = match read_text(get_field(v, "type")) {
        Some(s) => s,
        None => return None,
    };
    let value = value_to_string(get_field(v, "value"));
    Some(
        Variable {
            key,
            value,
            enabled,
            secret: same_text(kind.as_str(), "secret"),
            description: String::new(),
        },
    )
}

fn read_entries(v: &serde_json::Value, n: usize) -> (r: Option<Vec<Variable>>)
    requires
        json_view(*v) is Array,
        n == json_view(*v)->Array_0.len(),
    ensures
        match r {
            Some(x) => entry_variables(json_view(*v)->Array_0) == Some(views(x@)),
            None => entry_variables(json_view(*v)->Array_0) is None,
        },
{
    let ghost items = json_view(*v)->Array_0;
    let mut out: Vec<Variable> = Vec::new();
    let mut i: usize = 0;
    proof {
        assert(items.take(0) =~= Seq::<JsonView>::empty());
        assert(views(out@) =~= Seq::<VariableView>::empty());
    }
    while i < n
        invariant
            json_view(*v) is Array,
            items == json_view(*v)->Array_0,
            n == items.len(),
            i <= n,
            entry_variables(items.take(i as int)) == Some(views(out@)),
        decreases n - i,
    {
        proof {
            assert(items.take(i + 1).drop_last() =~= items.take(i as int));
        }
        let entry = match element(v, i) {
            Some(e) => read_entry(e),
            None => None,
        };
        match entry {
            Some(x) => {
                let ghost done = out@;
                let ghost xv = x@;
                out.push(x);
                proof {
                    assert(views(out@) =~= views(done).push(xv));
                }
            },
            None => {
                proof {
                    lemma_bad_entry(items, i as int);
                }
                return None;
            },
        }
        i = i + 1;
    }
    proof {
        assert(items.take(i as int) =~= items);
    }
    Some(out)
}

proof fn lemma_bad_entry(items: Seq<JsonView>, k: int)
    requires
        0 <= k < items.len(),
        entry_variable(items[k]) is None,
    ensures
        entry_variables(items) is None,
    decreases items.len(),
{
    if k < items.len() - 1 {
        lemma_bad_entry(items.drop_last(), k);
    }
}

/// The view of a reading.
pub open spec fn env_result(r: Result<PostmanEnv, PostmanEnvError>) -> Result<
    PostmanEnvView,
    PostmanErrorView,
> {
    match r {
        Ok(env) => Ok(env@),
        Err(e) => Err(e@),
    }
}

/// What a parsed file gives.
pub open spec fn outcome_of(parsed: Result<JsonView, Seq<char>>) -> Result<
    PostmanEnvView,
    PostmanErrorView,
> {
    match parsed {
        Err(e) => Err(PostmanErrorView::Json(e)),
        Ok(v) => match environment_of(v) {
            Some(env) => Ok(env),
            None => Err(PostmanErrorView::NotEnvironment),
        },
    }
}

/// Reads an environment from a JSON value.
pub fn read_environment(v: &serde_json::Value) -> (r: Result<PostmanEnv, PostmanEnvError>)
    ensures
        env_result(r) == outcome_of(Ok(json_view(*v))),
{
    if !is_object(v) {
        return Err(PostmanEnvError::NotEnvironment);
    }
    let values = match get_field(v, "values") {
        Some(x) => x,
        None => return Err(PostmanEnvError::NotEnvironment),
    };
    let n = match array_len(values) {
        Some(n) => n,
        None => return Err(PostmanEnvError::NotEnvironment),
    };
    let variables = match read_entries(values, n) {
        Some(x) => x,
        None => return Err(PostmanEnvError::NotEnvironment),
    };
    let name = match read_text(get_field(v, "name")) {
        Some(x) => x,
        None => return Err(PostmanEnvError::NotEnvironment),
    };
    if read_text(get_field(v, "id")).is_none() || !reads_as_text(
        get_field(v, "_postman_exported_at"),
    ) || !reads_as_text(get_field(v, "_postman_exported_using")) {
        return Err(PostmanEnvError::NotEnvironment);
    }
    let scope = scope_from_value(get_field(v, "_postman_variable_scope"));
    Ok(PostmanEnv { name, scope, variables })
}

/// Reads an environment or globals file. A file that was exported is read back
/// with its name, its scope and its variables.
pub fn parse(text: &str) -> (r: Result<PostmanEnv, PostmanEnvError>)
    ensures
        env_result(r) == outcome_of(json_parsed(vstd::utf8::encode_utf8(text@))),
        forall|id: Seq<char>, secs: nat, env: PostmanEnvView|
            text@ == #[trigger] exported(id, secs, env) ==> env_result(r) == Ok::<
                PostmanEnvView,
                PostmanErrorView,
            >(without_descriptions(env)),
{
    match parse_value(text.as_bytes()) {
        Err(e) => {
            proof {
                assert forall|id: Seq<char>, secs: nat, env: PostmanEnvView|
                    text@ == #[trigger] exported(id, secs, env) implies false by {
                    lemma_document_nests(id, secs, env);
                }
            }
            Err(PostmanEnvError::Json(e))
        },
        Ok(v) => {
            proof {
                assert forall|id: Seq<char>, secs: nat, env: PostmanEnvView|
                    text@ == #[trigger] exported(id, secs, env) implies outcome_of(
                    Ok(json_view(v)),
                ) == Ok::<PostmanEnvView, PostmanErrorView>(without_descriptions(env)) by {
                    lemma_document_nests(id, secs, env);
                    exported_document_reads_back(id, secs, env);
                }
            }
            read_environment(&v)
        },
    }
}

/// An environment without the descriptions of its variables, which the format
/// has no place for.
pub open spec fn without_descriptions(env: PostmanEnvView) -> PostmanEnvView {
    PostmanEnvView {
        name: env.name,
        scope: env.scope,
        variables: env.variables.map_values(
            |v: VariableView| VariableView { description: Seq::empty(), ..v },
        ),
    }
}

pub open spec fn scope_name(scope: PostmanScope) -> Seq<char> {
    match scope {
        PostmanScope::Environment => "environment"@,
        PostmanScope::Globals => "globals"@,
    }
}

/// One variable as an entry of the file.
pub open spec fn entry_doc(v: VariableView) -> DocView {
    DocView::Object(
        seq![
            ("key"@, DocView::Str(v.key)),
            ("value"@, DocView::Str(v.value)),
            ("enabled"@, DocView::Bool(v.enabled)),
            (
                "type"@,
                DocView::Str(
                    if v.secret {
                        "secret"@
                    } else {
                        "default"@
                    },
                ),
            ),
        ],
    )
}

/// The file of an environment.
pub open spec fn document(id: Seq<char>, secs: nat, env: PostmanEnvView) -> DocView {
    DocView::Object(
        seq![
            ("id"@, DocView::Str(id)),
            ("name"@, DocView::Str(env.name)),
            (
                "values"@,
                DocView::Array(env.variables.map_values(|v: VariableView| entry_doc(v))),
            ),
            ("_postman_variable_scope"@, DocView::Str(scope_name(env.scope))),
            ("_postman_exported_at"@, DocView::Str(iso_text(secs))),
            ("_postman_exported_using"@, DocView::Str(EXPORTER@)),
        ],
    )
}

/// The text of the file of an environment.
pub open spec fn exported(id: Seq<char>, secs: nat, env: PostmanEnvView) -> Seq<char> {
    doc_text(document(id, secs, env), 0)
}

proof fn lemma_document_nests(id: Seq<char>, secs: nat, env: PostmanEnvView)
    ensures
        nests_within(document(id, secs, env), 3),
        nests_within(document(id, secs, env), PARSER_DEPTH as nat),
{
    let d = document(id, secs, env);
    let fields = d->Object_0;
    assert forall|levels: nat| levels >= 3 implies #[trigger] nests_within(d, levels) by {
        let items = fields[2].1->Array_0;
        assert forall|i: int| 0 <= i < items.len() implies nests_within(
            #[trigger] items[i],
            (levels - 2) as nat,
        ) by {
            let inner = items[i]->Object_0;
            assert(items[i] == entry_doc(env.variables[i]));
            assert forall|j: int| 0 <= j < inner.len() implies nests_within(
                (#[trigger] inner[j]).1,
                (levels - 3) as nat,
            ) by {
                assert(inner[j].1 is Str || inner[j].1 is Bool);
            }
        }
        assert(nests_within(fields[2].1, (levels - 1) as nat));
        assert forall|i: int| 0 <= i < fields.len() implies nests_within(
            (#[trigger] fields[i]).1,
            (levels - 1) as nat,
        ) by {
            assert(i == 2 || fields[i].1 is Str);
        }
    }
}

/// A member whose name does not come again holds its value.
proof fn lemma_member(fields: Seq<(Seq<char>, DocView)>, n: nat, k: int)
    requires
        0 <= k < n <= fields.len(),
        forall|j: int| k < j < n ==> (#[trigger] fields[j]).0 != fields[k].0,
    ensures
        members(fields, n).contains_key(fields[k].0),
        members(fields, n)[fields[k].0] == doc_json(fields[k].1),
    decreases n,
{
    if k < n - 1 {
        assert(fields[n - 1].0 != fields[k].0);
        lemma_member(fields, (n - 1) as nat, k);
    }
}

proof fn lemma_entry_reads_back(v: VariableView)
    ensures
        entry_variable(doc_json(entry_doc(v))) == Some(
            VariableView { description: Seq::empty(), ..v },
        ),
{
    reveal_strlit("key");
    reveal_strlit("value");
    reveal_strlit("enabled");
    reveal_strlit("type");
    reveal_strlit("secret");
    reveal_strlit("default");
    let fields = entry_doc(v)->Object_0;
    let m = members(fields, 4);
    assert(doc_json(entry_doc(v)) == JsonView::Object(m));
    assert("key"@.len() == 3 && "value"@.len() == 5 && "enabled"@.len() == 7 && "type"@.len() == 4);
    lemma_member(fields, 4, 0);
    lemma_member(fields, 4, 1);
    lemma_member(fields, 4, 2);
    lemma_member(fields, 4, 3);
    assert(m.contains_key("key"@) && m["key"@] == JsonView::Str(v.key));
    assert(m.contains_key("value"@) && m["value"@] == JsonView::Str(v.value));
    assert(m.contains_key("enabled"@) && m["enabled"@] == JsonView::Bool(v.enabled));
    assert(m.contains_key("type"@) && m["type"@] == JsonView::Str(
        if v.secret {
            "secret"@
        } else {
            "default"@
        },
    ));
    assert("secret"@.len() != "default"@.len());
}

proof fn lemma_entries_read_back(vars: Seq<VariableView>, n: int)
    requires
        0 <= n <= vars.len(),
    ensures
        ({
            let docs = vars.map_values(|v: VariableView| entry_doc(v));
            let items = Seq::new(docs.len(), |i: int| doc_json(docs[i]));
            entry_variables(items.take(n)) == Some(
                vars.map_values(
                    |v: VariableView| VariableView { description: Seq::empty(), ..v },
                ).take(n),
            )
        }),
    decreases n,
{
    let docs = vars.map_values(|v: VariableView| entry_doc(v));
    let items = Seq::new(docs.len(), |i: int| doc_json(docs[i]));
    let plain = vars.map_values(
        |v: VariableView| VariableView { description: Seq::empty(), ..v },
    );
    if n == 0 {
        assert(items.take(0) =~= Seq::<JsonView>::empty());
        assert(plain.take(0) =~= Seq::<VariableView>::empty());
    } else {
        lemma_entries_read_back(vars, n - 1);
        lemma_entry_reads_back(vars[n - 1]);
        assert(items.take(n).drop_last() =~= items.take(n - 1));
        assert(plain.take(n) =~= plain.take(n - 1).push(plain[n - 1]));
    }
}

/// The file of an environment describes its name, its scope and its variables.
pub proof fn exported_document_reads_back(id: Seq<char>, secs: nat, env: PostmanEnvView)
    ensures
        environment_of(doc_json(document(id, secs, env))) == Some(without_descriptions(env)),
{
    reveal_strlit("id");
    reveal_strlit("name");
    reveal_strlit("values");
    reveal_strlit("_postman_variable_scope");
    reveal_strlit("_postman_exported_at");
    reveal_strlit("_postman_exported_using");
    reveal_strlit("environment");
    reveal_strlit("globals");
    let fields = document(id, secs, env)->Object_0;
    let m = members(fields, 6);
    assert(doc_json(document(id, secs, env)) == JsonView::Object(m));
    assert("_postman_variable_scope"@[9] == 'v');
    assert("_postman_exported_using"@[9] == 'e');
    assert("id"@.len() == 2 && "name"@.len() == 4 && "values"@.len() == 6);
    assert("_postman_variable_scope"@.len() == 23 && "_postman_exported_at"@.len() == 20
        && "_postman_exported_using"@.len() == 23);
    lemma_member(fields, 6, 0);
    lemma_member(fields, 6, 1);
    lemma_member(fields, 6, 2);
    lemma_member(fields, 6, 3);
    lemma_member(fields, 6, 4);
    lemma_member(fields, 6, 5);
    let docs = env.variables.map_values(|v: VariableView| entry_doc(v));
    let items = Seq::new(docs.len(), |i: int| doc_json(docs[i]));
    assert(m.contains_key("id"@) && m["id"@] == JsonView::Str(id));
    assert(m.contains_key("name"@) && m["name"@] == JsonView::Str(env.name));
    assert(m.contains_key("values"@) && m["values"@] == doc_json(DocView::Array(docs)));
    assert(doc_json(DocView::Array(docs))->Array_0 =~= items);
    assert(m.contains_key("_postman_variable_scope"@) && m["_postman_variable_scope"@]
        == JsonView::Str(scope_name(env.scope)));
    assert(m.contains_key("_postman_exported_at"@) && m["_postman_exported_at"@] is Str);
    assert(m.contains_key("_postman_exported_using"@) && m["_postman_exported_using"@] is Str);
    lemma_entries_read_back(env.variables, env.variables.len() as int);
    assert(items.take(env.variables.len() as int) =~= items);
    let plain = env.variables.map_values(
        |v: VariableView| VariableView { description: Seq::empty(), ..v },
    );
    assert(plain.take(env.variables.len() as int) =~= plain);
    assert("environment"@.len() != "globals"@.len());
}

fn text_doc(s: &str) -> (r: Doc)
    ensures
        r.spec_view() == DocView::Str(s@),
{
    Doc::Str(s.to_owned())
}

fn entry(v: &Variable) -> (r: Doc)
    ensures
        r.spec_view() == entry_doc(v@),
{
    let mut fields: Vec<(String, Doc)> = Vec::new();
    fields.push(("key".to_owned(), text_doc(v.key.as_str())));
    fields.push(("value".to_owned(), text_doc(v.value.as_str())));
    fields.push(("enabled".to_owned(), Doc::Bool(v.enabled)));
    fields.push(
        (
            "type".to_owned(),
            text_doc(
                if v.secret {
                    "secret"
                } else {
                    "default"
                },
            ),
        ),
    );
    let ghost list = fields@;
    let r = Doc::Object(fields);
    proof {
        let view = r.spec_view()->Object_0;
        assert(list[2].1.spec_view() == DocView::Bool(v.enabled));
        assert(view[0] == (list[0].0@, list[0].1.spec_view()));
        assert(view[1] == (list[1].0@, list[1].1.spec_view()));
        assert(view[2] == (list[2].0@, list[2].1.spec_view()));
        assert(view[3] == (list[3].0@, list[3].1.spec_view()));
        assert(view =~= entry_doc(v@)->Object_0);
    }
    r
}

fn entries(variables: &[Variable]) -> (r: Vec<Doc>)
    ensures
        r@.len() == variables@.len(),
        forall|i: int| 0 <= i < r@.len() ==> (#[trigger] r@[i]).spec_view() == entry_doc(
            variables@[i]@,
        ),
{
    let mut out: Vec<Doc> = Vec::new();
    let mut i: usize = 0;
    while i < variables.len()
        invariant
            i <= variables@.len(),
            out@.len() == i,
            forall|k: int| 0 <= k < i ==> (#[trigger] out@[k]).spec_view() == entry_doc(
                variables@[k]@,
            ),
        decreases variables@.len() - i,
    {
        out.push(entry(&variables[i]));
        i = i + 1;
    }
    out
}

/// Writes a file under the identifier `id`, dated `secs` after the epoch.
pub fn render_at(
    id: &str,
    secs: u64,
    name: &str,
    scope: PostmanScope,
    variables: &[Variable],
) -> (r: String)
    ensures
        r@ == exported(
            id@,
            secs as nat,
            PostmanEnvView { name: name@, scope, variables: views(variables@) },
        ),
{
    let ghost env = PostmanEnvView { name: name@, scope, variables: views(variables@) };
    let values = entries(variables);
    let mut fields: Vec<(String, Doc)> = Vec::new();
    fields.push(("id".to_owned(), text_doc(id)));
    fields.push(("name".to_owned(), text_doc(name)));
    let list = Doc::Array(values);
    proof {
        assert(list.spec_view()->Array_0 =~= env.variables.map_values(
            |v: VariableView| entry_doc(v),
        ));
    }
    fields.push(("values".to_owned(), list));
    let scope_text = match scope {
        PostmanScope::Environment => "environment",
        PostmanScope::Globals => "globals",
    };
    fields.push(("_postman_variable_scope".to_owned(), text_doc(scope_text)));
    let stamp = iso_utc(secs);
    fields.push(("_postman_exported_at".to_owned(), text_doc(stamp.as_str())));
    fields.push(("_postman_exported_using".to_owned(), text_doc(EXPORTER)));
    let doc = Doc::Object(fields);
    proof {
        assert(doc.spec_view()->Object_0 =~= document(id@, secs as nat, env)->Object_0);
        lemma_document_nests(id@, secs as nat, env);
        lemma_nests_more(doc.spec_view(), 3, usize::MAX as nat);
    }
    let mut out = String::new();
    push_doc(&mut out, &doc, 0);
    proof {
        assert(out@ =~= exported(id@, secs as nat, env));
    }
    out
}

proof fn lemma_nests_more(d: DocView, a: nat, b: nat)
    requires
        a <= b,
        nests_within(d, a),
    ensures
        nests_within(d, b),
    decreases a,
{
    match d {
        DocView::Array(items) => {
            assert forall|i: int| 0 <= i < items.len() implies nests_within(
                #[trigger] items[i],
                (b - 1) as nat,
            ) by {
                lemma_nests_more(items[i], (a - 1) as nat, (b - 1) as nat);
            }
        },
        DocView::Object(fields) => {
            assert forall|i: int| 0 <= i < fields.len() implies nests_within(
                (#[trigger] fields[i]).1,
                (b - 1) as nat,
            ) by {
                lemma_nests_more(fields[i].1, (a - 1) as nat, (b - 1) as nat);
            }
        },
        _ => {},
    }
}

/// Writes a file with a new identifier, dated now.
pub fn render(name: &str, scope: PostmanScope, variables: &[Variable]) -> (r: String)
    ensures
        exists|id: Seq<char>, secs: nat|
            r@ == #[trigger] exported(
                id,
                secs,
                (PostmanEnvView { name: name@, scope, variables: views(variables@) }),
            ),
{
    let id = Ulid::generate().text();
    let secs: u64 = match crate::model::since_epoch() {
        Some((s, _)) => s,
        None => 0,
    };
    render_at(id.as_str(), secs, name, scope, variables)
}

} // verus!
