//! Laws of documents: what a stored file must carry, and how environments are
//! exchanged.
use crate::json::{doc_text, fields_text, indent, items_text, json_text, DocView, JsonView};
use crate::postman_env::{
    document, entry_variable, entry_variables, environment_of, outcome_of, PostmanEnvView,
    PostmanErrorView, PostmanScope,
};
use crate::store::codec::{decoded, stamped, StoreErrorView};
use crate::store::queue::{changed_all, ChangeView};
use vstd::prelude::*;

verus! {

/// A document that is written carries the version 1, and all its other members as
/// they are.
pub proof fn a_stamp_adds_the_version(m: Map<Seq<char>, JsonView>, key: Seq<char>)
    requires
        key != "version"@,
    ensures
        ({
            let members = stamped(m)->Object_0;
            &&& stamped(m) is Object
            &&& members.contains_key("version"@)
            &&& members["version"@] == JsonView::Number(seq!['1'])
            &&& members.contains_key(key) == m.contains_key(key)
            &&& m.contains_key(key) ==> members[key] == m[key]
        }),
{
    assert(crate::strings::decimal(1) =~= seq!['1']);
}

/// What is no JSON is told so; what is read is handed on unchanged; and a value
/// that is no object has no version.
pub proof fn only_versioned_objects_are_read(parsed: Result<JsonView, Seq<char>>)
    ensures
        match parsed {
            Err(e) => decoded(parsed) == Err::<JsonView, StoreErrorView>(StoreErrorView::Json(e)),
            Ok(v) => {
                &&& decoded(parsed) is Ok ==> decoded(parsed)->Ok_0 == v && v is Object
                &&& !(v is Object) ==> decoded(parsed) == Err::<JsonView, StoreErrorView>(
                    StoreErrorView::MissingVersion,
                )
            },
        },
{
}

proof fn lemma_last_change(
    files: Map<Seq<char>, Seq<u8>>,
    changes: Seq<ChangeView>,
    file: Seq<char>,
    k: int,
)
    requires
        0 <= k < changes.len(),
        changes[k].file == file,
        forall|i: int| k < i < changes.len() ==> (#[trigger] changes[i]).file != file,
    ensures
        changes[k].content is None ==> !changed_all(files, changes).contains_key(file),
        changes[k].content is Some ==> changed_all(files, changes).contains_key(file)
            && changed_all(files, changes)[file] == changes[k].content->0,
    decreases changes.len(),
{
    if k < changes.len() - 1 {
        assert(changes[changes.len() - 1].file != file);
        lemma_last_change(files, changes.drop_last(), file, k);
    }
}

/// After many changes a document holds what the last change to it wrote, and is
/// gone where the last change deleted it.
pub proof fn the_last_change_counts(
    files: Map<Seq<char>, Seq<u8>>,
    changes: Seq<ChangeView>,
    file: Seq<char>,
    k: int,
)
    requires
        0 <= k < changes.len(),
        changes[k].file == file,
        forall|i: int| k < i < changes.len() ==> (#[trigger] changes[i]).file != file,
    ensures
        ({
            let queued = crate::store::queue::coalesced_all(changes);
            &&& changes[k].content is None ==> !changed_all(files, queued).contains_key(file)
            &&& changes[k].content is Some ==> changed_all(files, queued).contains_key(file)
                && changed_all(files, queued)[file] == changes[k].content->0
        }),
{
    lemma_last_change(files, changes, file, k);
    crate::store::queue::no_change_is_lost(files, changes);
}

/// A member of an object under one of its keys.
pub open spec fn has(m: Map<Seq<char>, JsonView>, key: Seq<char>, v: JsonView) -> bool {
    m.contains_key(key) && m[key] == v
}

/// An entry is read by its key and its value as they are written. It is enabled
/// unless it says that it is not, and secret only where its type says so. A value
/// that is no text is taken as its JSON, and `null` or none as nothing.
pub proof fn entries_are_read(
    m: Map<Seq<char>, JsonView>,
    key: Seq<char>,
    kind: Seq<char>,
    on: bool,
)
    requires
        has(m, "key"@, JsonView::Str(key)),
        has(m, "enabled"@, JsonView::Bool(on)) || (!m.contains_key("enabled"@) && on),
        has(m, "type"@, JsonView::Str(kind)) || (!m.contains_key("type"@) && kind
            == Seq::<char>::empty()),
    ensures
        ({
            let r = entry_variable(JsonView::Object(m));
            &&& r is Some
            &&& r->0.key == key
            &&& r->0.enabled == on
            &&& r->0.secret == (kind == "secret"@)
            &&& r->0.description.len() == 0
            &&& !m.contains_key("value"@) || m["value"@] is Null ==> r->0.value.len() == 0
            &&& m.contains_key("value"@) && m["value"@] is Str ==> r->0.value == m["value"@]->Str_0
            &&& m.contains_key("value"@) && !(m["value"@] is Str) && !(m["value"@] is Null)
                ==> r->0.value == json_text(m["value"@])
        }),
{
}

/// An entry without a key, or with a member of another type, is none.
pub proof fn other_entries_are_refused(v: JsonView)
    ensures
        !(v is Object) ==> entry_variable(v) is None,
        v matches JsonView::Object(m) ==> {
            &&& !m.contains_key("key"@) || !(m["key"@] is Str) ==> entry_variable(v) is None
            &&& m.contains_key("enabled"@) && !(m["enabled"@] is Bool) ==> entry_variable(v) is None
            &&& m.contains_key("type"@) && !(m["type"@] is Str) ==> entry_variable(v) is None
        },
{
}

/// Entries are read in their order, one variable for each, and one that cannot be
/// read refuses them all.
pub proof fn entries_keep_their_order(items: Seq<JsonView>, k: int)
    ensures
        (forall|i: int| 0 <= i < items.len() ==> entry_variable(#[trigger] items[i]) is Some) ==> (
        entry_variables(items) matches Some(vars) && vars.len() == items.len() && forall|i: int|
            0 <= i < items.len() ==> entry_variable(#[trigger] items[i]) == Some(vars[i])),
        0 <= k < items.len() && entry_variable(items[k]) is None ==> entry_variables(items) is None,
    decreases items.len(),
{
    if items.len() > 0 {
        let head = items.drop_last();
        entries_keep_their_order(head, k);
        if forall|i: int| 0 <= i < items.len() ==> entry_variable(#[trigger] items[i]) is Some {
            assert forall|i: int| 0 <= i < head.len() implies entry_variable(#[trigger] head[i])
                is Some by {
                assert(items[i] == head[i]);
            }
            let before = entry_variables(head)->0;
            assert(entry_variable(items[items.len() - 1]) is Some);
            let vars = entry_variables(items)->0;
            assert forall|i: int| 0 <= i < items.len() implies entry_variable(#[trigger] items[i])
                == Some(vars[i]) by {
                if i < head.len() {
                    assert(entry_variable(head[i]) == Some(before[i]));
                }
            }
        }
    }
}

/// A file with a list of values is an environment of its name, and the globals
/// where its scope says so.
pub proof fn environments_are_read(
    m: Map<Seq<char>, JsonView>,
    items: Seq<JsonView>,
    name: Seq<char>,
)
    requires
        has(m, "values"@, JsonView::Array(items)),
        has(m, "name"@, JsonView::Str(name)) || (!m.contains_key("name"@) && name
            == Seq::<char>::empty()),
        !m.contains_key("id"@) || m["id"@] is Str,
        !m.contains_key("_postman_exported_at"@) || m["_postman_exported_at"@] is Str
            || m["_postman_exported_at"@] is Null,
        !m.contains_key("_postman_exported_using"@) || m["_postman_exported_using"@] is Str
            || m["_postman_exported_using"@] is Null,
    ensures
        ({
            let v = JsonView::Object(m);
            match entry_variables(items) {
                Some(vars) => outcome_of(Ok(v)) is Ok && outcome_of(Ok(v))->Ok_0.name == name
                    && outcome_of(Ok(v))->Ok_0.variables == vars && (outcome_of(Ok(v))->Ok_0.scope
                    == PostmanScope::Globals <==> has(
                    m,
                    "_postman_variable_scope"@,
                    JsonView::Str("globals"@),
                )),
                None => outcome_of(Ok(v)) == Err::<PostmanEnvView, PostmanErrorView>(
                    PostmanErrorView::NotEnvironment,
                ),
            }
        }),
{
}

/// What has no list of values is no environment, and what is no JSON is told so.
pub proof fn other_files_are_refused(v: JsonView, e: Seq<char>)
    ensures
        !(v is Object) ==> environment_of(v) is None,
        v matches JsonView::Object(m) ==> (!m.contains_key("values"@) || !(m["values"@] is Array)
            ==> environment_of(v) is None),
        environment_of(v) is None ==> outcome_of(Ok(v)) == Err::<PostmanEnvView, PostmanErrorView>(
            PostmanErrorView::NotEnvironment,
        ),
        outcome_of(Err(e)) == Err::<PostmanEnvView, PostmanErrorView>(PostmanErrorView::Json(e)),
{
}

/// An export names the environment and lists each of its variables in order, with
/// its key, its value, whether it is enabled, and whether it is secret.
pub proof fn exports_list_the_variables(id: Seq<char>, secs: nat, env: PostmanEnvView, i: int)
    requires
        0 <= i < env.variables.len(),
    ensures
        ({
            let fields = document(id, secs, env)->Object_0;
            let v = env.variables[i];
            &&& document(id, secs, env) is Object
            &&& fields.len() == 6
            &&& fields[0] == ("id"@, DocView::Str(id))
            &&& fields[1] == ("name"@, DocView::Str(env.name))
            &&& fields[2].0 == "values"@
            &&& fields[2].1 is Array
            &&& fields[2].1->Array_0.len() == env.variables.len()
            &&& fields[2].1->Array_0[i] is Object
            &&& ({
                let entry = fields[2].1->Array_0[i]->Object_0;
                &&& entry.len() == 4
                &&& entry[0] == ("key"@, DocView::Str(v.key))
                &&& entry[1] == ("value"@, DocView::Str(v.value))
                &&& entry[2] == ("enabled"@, DocView::Bool(v.enabled))
                &&& entry[3] == (
                    "type"@,
                    DocView::Str(
                        if v.secret {
                            "secret"@
                        } else {
                            "default"@
                        },
                    ),
                )
            })
            &&& fields[3] == (
                "_postman_variable_scope"@,
                DocView::Str(
                    if env.scope == PostmanScope::Globals {
                        "globals"@
                    } else {
                        "environment"@
                    },
                ),
            )
            &&& fields[4] == ("_postman_exported_at"@, DocView::Str(crate::vars::iso_text(secs)))
        }),
{
}

/// Texts on lines of their own, with commas between, indented by two spaces per level.
pub open spec fn on_lines(texts: Seq<Seq<char>>, depth: nat) -> Seq<char>
    decreases texts.len(),
{
    if texts.len() == 0 {
        Seq::empty()
    } else {
        on_lines(texts.drop_last(), depth) + (if texts.len() > 1 {
            seq![',']
        } else {
            Seq::empty()
        }) + seq!['\n'] + Seq::new(2 * depth, |i: int| ' ') + texts.last()
    }
}

proof fn lemma_items_on_lines(items: Seq<DocView>, n: nat, depth: nat)
    requires
        n <= items.len(),
    ensures
        items_text(items, n, depth) == on_lines(
            items.map_values(|d: DocView| doc_text(d, depth)).take(n as int),
            depth,
        ),
    decreases n,
{
    let texts = items.map_values(|d: DocView| doc_text(d, depth));
    if n > 0 {
        lemma_items_on_lines(items, (n - 1) as nat, depth);
        assert(texts.take(n as int).drop_last() =~= texts.take(n - 1));
        assert(texts.take(n as int).last() == doc_text(items[n - 1], depth));
        assert(indent(depth) =~= Seq::new(2 * depth, |i: int| ' '));
        assert(items_text(items, n, depth) =~= on_lines(texts.take(n as int), depth));
    }
}

proof fn lemma_fields_on_lines(fields: Seq<(Seq<char>, DocView)>, n: nat, depth: nat)
    requires
        n <= fields.len(),
    ensures
        fields_text(fields, n, depth) == on_lines(
            fields.map_values(
                |f: (Seq<char>, DocView)|
                    json_text(JsonView::Str(f.0)) + seq![':', ' '] + doc_text(f.1, depth),
            ).take(n as int),
            depth,
        ),
    decreases n,
{
    let texts = fields.map_values(
        |f: (Seq<char>, DocView)|
            json_text(JsonView::Str(f.0)) + seq![':', ' '] + doc_text(f.1, depth),
    );
    if n > 0 {
        lemma_fields_on_lines(fields, (n - 1) as nat, depth);
        assert(texts.take(n as int).drop_last() =~= texts.take(n - 1));
        assert(indent(depth) =~= Seq::new(2 * depth, |i: int| ' '));
        assert(fields_text(fields, n, depth) =~= on_lines(texts.take(n as int), depth));
    }
}

/// A document is written with every item and every member on a line of its own, two
/// spaces further in than what holds it, a colon and a space behind each key, and
/// empty containers closed up.
pub proof fn documents_are_written_on_lines(d: DocView, depth: nat)
    ensures
        match d {
            DocView::Bool(b) => doc_text(d, depth) == if b {
                seq!['t', 'r', 'u', 'e']
            } else {
                seq!['f', 'a', 'l', 's', 'e']
            },
            DocView::Str(s) => doc_text(d, depth) == json_text(JsonView::Str(s)),
            DocView::Array(items) => doc_text(d, depth) == if items.len() == 0 {
                seq!['[', ']']
            } else {
                seq!['['] + on_lines(
                    items.map_values(|x: DocView| doc_text(x, depth + 1)),
                    depth + 1,
                ) + seq!['\n'] + Seq::new(2 * depth, |i: int| ' ') + seq![']']
            },
            DocView::Object(fields) => doc_text(d, depth) == if fields.len() == 0 {
                seq!['{', '}']
            } else {
                seq!['{'] + on_lines(
                    fields.map_values(
                        |f: (Seq<char>, DocView)|
                            json_text(JsonView::Str(f.0)) + seq![':', ' '] + doc_text(
                                f.1,
                                depth + 1,
                            ),
                    ),
                    depth + 1,
                ) + seq!['\n'] + Seq::new(2 * depth, |i: int| ' ') + seq!['}']
            },
        },
{
    reveal_strlit("true");
    reveal_strlit("false");
    assert("true"@ =~= seq!['t', 'r', 'u', 'e']);
    assert("false"@ =~= seq!['f', 'a', 'l', 's', 'e']);
    assert(indent(depth) =~= Seq::new(2 * depth, |i: int| ' '));
    match d {
        DocView::Array(items) => {
            let texts = items.map_values(|x: DocView| doc_text(x, depth + 1));
            lemma_items_on_lines(items, items.len(), depth + 1);
            assert(texts.take(items.len() as int) =~= texts);
        },
        DocView::Object(fields) => {
            let texts = fields.map_values(
                |f: (Seq<char>, DocView)|
                    json_text(JsonView::Str(f.0)) + seq![':', ' '] + doc_text(f.1, depth + 1),
            );
            lemma_fields_on_lines(fields, fields.len(), depth + 1);
            assert(texts.take(fields.len() as int) =~= texts);
        },
        _ => {},
    }
}

} // verus!
