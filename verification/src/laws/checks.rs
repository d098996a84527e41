//! Laws of the operations around a request: what assertions accept, what sources
//! read, and which variables are written.
use crate::json::{json_parsed, JsonView};
use crate::laws::substitution::{counts, lacks};
use crate::laws::text::{a_search_finds_the_first_place, a_word_in_the_middle_is_found};
use crate::model::{
    AssertOp, PostOpKindView, PostOpView, PreOpView, ResponseSourceView, VarScope, VariableView,
};
use crate::ops::json_path::value_at;
use crate::ops::{
    applied, body_json, comparison, extract_passes, extraction, header_value, pass_count,
    post_outcome, post_report, pre_run, pre_step, source_text, ExtractedView, FailureView,
    MetaView, OpSkip, OutcomeView,
};
use crate::strings::{ascii_lower, decimal, first_index, trimmed};
use crate::variables::{
    entry_from, env_from, group_from, layers_of, sets_after, with_value, SetsView,
};
use crate::vars::{expanded, DynamicView, Scope};
use vstd::prelude::*;

verus! {

/// A text that holds another passes the check for it, wherever it stands.
pub proof fn a_held_text_is_contained(a: Seq<char>, e: Seq<char>, b: Seq<char>)
    ensures
        comparison(AssertOp::Contains, a + e + b, e) == OutcomeView::Passed,
{
    if e.len() > 0 {
        a_word_in_the_middle_is_found(a, e, b);
    }
}

/// A text that passes the check for another holds it between two texts.
pub proof fn a_contained_text_is_held(actual: Seq<char>, e: Seq<char>) -> (ends: (
    Seq<char>,
    Seq<char>,
))
    requires
        comparison(AssertOp::Contains, actual, e) == OutcomeView::Passed,
    ensures
        actual == ends.0 + e + ends.1,
{
    if e.len() == 0 {
        assert(actual =~= Seq::<char>::empty() + e + actual);
        (Seq::empty(), actual)
    } else {
        a_search_finds_the_first_place(actual, e, 0);
        let at = first_index(actual, e, 0)->0;
        let a = actual.subrange(0, at);
        let b = actual.skip((at + e.len()) as int);
        assert(actual =~= a + actual.subrange(at, at + e.len()) + b);
        (a, b)
    }
}

/// Equality passes on the same text alone, inequality on any other, existence on
/// every text; a check that fails tells the text that it saw, and what it expected
/// unless it expected anything else.
pub proof fn checks_accept_what_they_say(actual: Seq<char>, expected: Seq<char>)
    ensures
        comparison(AssertOp::Equals, actual, expected) == if actual == expected {
            OutcomeView::Passed
        } else {
            OutcomeView::Failed(FailureView::Mismatch { actual, expected })
        },
        comparison(AssertOp::NotEquals, actual, expected) == if actual != expected {
            OutcomeView::Passed
        } else {
            OutcomeView::Failed(FailureView::Unexpected { actual })
        },
        comparison(AssertOp::Exists, actual, expected) == OutcomeView::Passed,
        comparison(AssertOp::Contains, actual, expected) == OutcomeView::Passed || comparison(
            AssertOp::Contains,
            actual,
            expected,
        ) == OutcomeView::Failed(FailureView::Mismatch { actual, expected }),
{
}

proof fn lemma_header(headers: Seq<(Seq<char>, Seq<char>)>, name: Seq<char>, k: int)
    requires
        0 <= k <= headers.len(),
        forall|i: int|
            0 <= i < k ==> ascii_lower((#[trigger] headers[i]).0) != ascii_lower(name),
    ensures
        k < headers.len() && ascii_lower(headers[k].0) == ascii_lower(name) ==> header_value(
            headers,
            name,
        ) == Some(headers[k].1),
        k == headers.len() ==> header_value(headers, name) is None,
    decreases k,
{
    if k > 0 {
        assert(ascii_lower(headers[0].0) != ascii_lower(name));
        let rest = headers.skip(1);
        assert forall|i: int| 0 <= i < k - 1 implies ascii_lower((#[trigger] rest[i]).0)
            != ascii_lower(name) by {
            assert(rest[i] == headers[i + 1]);
        }
        lemma_header(rest, name, k - 1);
    }
}

/// A header source reads the first header of its name, in any case and without
/// the white space around the name; without such a header it fails.
pub proof fn a_header_source_reads_the_first_header(
    name: Seq<char>,
    meta: MetaView,
    json: Result<JsonView, FailureView>,
    k: int,
)
    requires
        0 <= k <= meta.headers.len(),
        forall|i: int|
            0 <= i < k ==> ascii_lower((#[trigger] meta.headers[i]).0) != ascii_lower(
                trimmed(name),
            ),
    ensures
        k < meta.headers.len() && ascii_lower(meta.headers[k].0) == ascii_lower(trimmed(name))
            ==> source_text(ResponseSourceView::Header { name }, meta, json) == Ok::<
            Seq<char>,
            FailureView,
        >(meta.headers[k].1),
        k == meta.headers.len() ==> source_text(ResponseSourceView::Header { name }, meta, json)
            == Err::<Seq<char>, FailureView>(FailureView::HeaderNotFound(name)),
{
    lemma_header(meta.headers, trimmed(name), k);
}

/// The status is read as its decimal text; a path reads the value that it leads
/// to, a string as its own characters; where there is no JSON, the reason is told,
/// and an empty path is told before that.
pub proof fn sources_read_the_response(
    path: Seq<char>,
    meta: MetaView,
    json: Result<JsonView, FailureView>,
)
    ensures
        source_text(ResponseSourceView::Status, meta, json) == Ok::<Seq<char>, FailureView>(
            decimal(meta.status),
        ),
        trimmed(path).len() == 0 ==> source_text(ResponseSourceView::JsonPath { path }, meta, json)
            == Err::<Seq<char>, FailureView>(FailureView::EmptyPath),
        trimmed(path).len() > 0 ==> match json {
            Err(f) => source_text(ResponseSourceView::JsonPath { path }, meta, json) == Err::<
                Seq<char>,
                FailureView,
            >(f),
            Ok(root) => match value_at(root, path) {
                None => source_text(ResponseSourceView::JsonPath { path }, meta, json) == Err::<
                    Seq<char>,
                    FailureView,
                >(FailureView::PathNotFound(path)),
                Some(JsonView::Str(s)) => source_text(
                    ResponseSourceView::JsonPath { path },
                    meta,
                    json,
                ) == Ok::<Seq<char>, FailureView>(s),
                Some(v) => source_text(ResponseSourceView::JsonPath { path }, meta, json) == Ok::<
                    Seq<char>,
                    FailureView,
                >(crate::json::json_text(v)),
            },
        },
{
}

/// A body of up to eight megabytes that is in memory is read as JSON; a larger
/// one, and one on disk, is not.
pub proof fn bodies_are_read_up_to_a_size(bytes: Seq<u8>)
    ensures
        body_json(None) == Err::<JsonView, FailureView>(FailureView::BodyUnavailable),
        bytes.len() > 8 * 1024 * 1024 ==> body_json(Some(bytes)) == Err::<JsonView, FailureView>(
            FailureView::BodyTooLarge,
        ),
        bytes.len() <= 8 * 1024 * 1024 ==> match json_parsed(bytes) {
            Ok(v) => body_json(Some(bytes)) == Ok::<JsonView, FailureView>(v),
            Err(_) => body_json(Some(bytes)) == Err::<JsonView, FailureView>(FailureView::NotJson),
        },
{
}

/// An assertion compares what its subject reads with what it expects; a subject
/// that cannot be read fails it, and a check for existence says that it is
/// missing.
pub proof fn assertions_compare_their_subject(
    subject: ResponseSourceView,
    op: AssertOp,
    expected: Seq<char>,
    meta: MetaView,
    json: Result<JsonView, FailureView>,
)
    ensures
        ({
            let kind = PostOpKindView::Assert { subject, op, expected };
            &&& extraction(kind, meta, json) is None
            &&& match source_text(subject, meta, json) {
                Ok(actual) => post_outcome(kind, meta, json) == comparison(op, actual, expected),
                Err(FailureView::PathNotFound(_)) if op == AssertOp::Exists => post_outcome(
                    kind,
                    meta,
                    json,
                ) == OutcomeView::Failed(FailureView::Missing),
                Err(FailureView::HeaderNotFound(_)) if op == AssertOp::Exists => post_outcome(
                    kind,
                    meta,
                    json,
                ) == OutcomeView::Failed(FailureView::Missing),
                Err(f) => post_outcome(kind, meta, json) == OutcomeView::Failed(f),
            }
        }),
{
}

/// An extraction hands on what its source reads, for the variable that its key
/// names without the white space around it; without a key it fails.
pub proof fn extractions_hand_on_their_source(
    scope: VarScope,
    key: Seq<char>,
    source: ResponseSourceView,
    meta: MetaView,
    json: Result<JsonView, FailureView>,
)
    ensures
        ({
            let kind = PostOpKindView::Extract { scope, key, source };
            if trimmed(key).len() == 0 {
                extraction(kind, meta, json) is None && post_outcome(kind, meta, json)
                    == OutcomeView::Failed(FailureView::EmptyKey)
            } else {
                match source_text(source, meta, json) {
                    Ok(text) => post_outcome(kind, meta, json) == OutcomeView::Passed && extraction(
                        kind,
                        meta,
                        json,
                    ) == Some(ExtractedView { scope, key: trimmed(key), value: text }),
                    Err(f) => post_outcome(kind, meta, json) == OutcomeView::Failed(f)
                        && extraction(kind, meta, json) is None,
                }
            }
        }),
{
}

/// A report follows the operations: an enabled one adds its result, and its value
/// where it extracted one; a disabled one adds nothing.
pub proof fn reports_follow_the_operations(
    ops: Seq<PostOpView>,
    op: PostOpView,
    meta: MetaView,
    json: Result<JsonView, FailureView>,
)
    ensures
        post_report(Seq::empty(), meta, json).results.len() == 0,
        post_report(Seq::empty(), meta, json).extracted.len() == 0,
        !op.enabled ==> post_report(ops.push(op), meta, json) == post_report(ops, meta, json),
        op.enabled ==> post_report(ops.push(op), meta, json).results == post_report(
            ops,
            meta,
            json,
        ).results.push((op, post_outcome(op.kind, meta, json))),
        op.enabled ==> post_report(ops.push(op), meta, json).extracted == match extraction(
            op.kind,
            meta,
            json,
        ) {
            Some(e) => post_report(ops, meta, json).extracted.push(e),
            None => post_report(ops, meta, json).extracted,
        },
{
    assert(ops.push(op).drop_last() =~= ops);
}

/// Where every operation is enabled, each result is that of the operation at the
/// same place.
pub proof fn enabled_operations_report_in_place(
    ops: Seq<PostOpView>,
    meta: MetaView,
    json: Result<JsonView, FailureView>,
)
    requires
        forall|i: int| 0 <= i < ops.len() ==> (#[trigger] ops[i]).enabled,
    ensures
        post_report(ops, meta, json).results.len() == ops.len(),
        forall|i: int|
            0 <= i < ops.len() ==> #[trigger] post_report(ops, meta, json).results[i] == (
                ops[i],
                post_outcome(ops[i].kind, meta, json),
            ),
    decreases ops.len(),
{
    if ops.len() > 0 {
        let head = ops.drop_last();
        assert forall|i: int| 0 <= i < head.len() implies (#[trigger] head[i]).enabled by {
            assert(ops[i] == head[i]);
        }
        enabled_operations_report_in_place(head, meta, json);
        assert(ops[ops.len() - 1].enabled);
        assert forall|i: int| 0 <= i < ops.len() implies #[trigger] post_report(
            ops,
            meta,
            json,
        ).results[i] == (ops[i], post_outcome(ops[i].kind, meta, json)) by {
            if i < head.len() {
                assert(post_report(head, meta, json).results[i] == (
                    head[i],
                    post_outcome(head[i].kind, meta, json),
                ));
            }
        }
    }
}

/// Operations before sending run one after the other: each sees the tables as the
/// one before left them, and a disabled one is passed over.
pub proof fn pre_operations_run_in_order(
    ops: Seq<PreOpView>,
    op: PreOpView,
    sets: SetsView,
    group: Option<Seq<char>>,
    dynamics: Seq<DynamicView>,
)
    ensures
        pre_run(Seq::empty(), sets, group, dynamics).0 == sets,
        pre_run(Seq::empty(), sets, group, dynamics).1.len() == 0,
        !op.enabled ==> pre_run(ops.push(op), sets, group, dynamics) == pre_run(
            ops,
            sets,
            group,
            dynamics,
        ),
        op.enabled ==> ({
            let (before, results) = pre_run(ops, sets, group, dynamics);
            let (after, outcome) = pre_step(op, before, group, dynamics[ops.len() as int]);
            pre_run(ops.push(op), sets, group, dynamics) == (after, results.push((op, outcome)))
        }),
{
    assert(ops.push(op).drop_last() =~= ops);
}

/// An operation before sending writes its filled-in value to the variable that its
/// key names; without a key it fails, without a table it is skipped.
pub proof fn a_pre_operation_writes_its_value(
    op: PreOpView,
    sets: SetsView,
    group: Option<Seq<char>>,
    dynamic: DynamicView,
)
    ensures
        ({
            let value = expanded(Scope { layers: layers_of(sets, group), dynamic }, op.value);
            let r = pre_step(op, sets, group, dynamic);
            if trimmed(op.key).len() == 0 {
                r == (sets, OutcomeView::Failed(FailureView::EmptyKey))
            } else {
                match sets_after(sets, op.scope, group, trimmed(op.key), value) {
                    Some(after) => r == (after, OutcomeView::Passed),
                    None => r.0 == sets && r.1 == OutcomeView::Skipped(
                        if op.scope == VarScope::Environment {
                            OpSkip::NoActiveEnvironment
                        } else {
                            OpSkip::NoGroup
                        },
                    ),
                }
            }
        }),
{
}

proof fn lemma_entry(vars: Seq<VariableView>, key: Seq<char>, at: int, k: int)
    requires
        0 <= at <= k <= vars.len(),
        forall|i: int| at <= i < k ==> !(#[trigger] vars[i].enabled && vars[i].key == key),
    ensures
        k < vars.len() && vars[k].enabled && vars[k].key == key ==> entry_from(vars, key, at)
            == Some(k),
        k == vars.len() ==> entry_from(vars, key, at) is None,
    decreases k - at,
{
    if at < k {
        assert(!(vars[at].enabled && vars[at].key == key));
        lemma_entry(vars, key, at + 1, k);
    }
}

/// Setting a variable changes the value of the entry that counts for its name and
/// nothing else of the table; where no entry counts, an enabled one, neither secret
/// nor described, is added at the end.
pub proof fn setting_a_variable_changes_one_entry(
    vars: Seq<VariableView>,
    key: Seq<char>,
    value: Seq<char>,
    k: int,
)
    ensures
        counts(vars, key, k) ==> with_value(vars, key, value) == vars.update(
            k,
            VariableView {
                key: vars[k].key,
                value,
                enabled: vars[k].enabled,
                secret: vars[k].secret,
                description: vars[k].description,
            },
        ),
        lacks(vars, key) ==> with_value(vars, key, value) == vars.push(
            VariableView {
                key,
                value,
                enabled: true,
                secret: false,
                description: Seq::empty(),
            },
        ),
{
    if counts(vars, key, k) {
        lemma_entry(vars, key, 0, k);
    }
    if lacks(vars, key) {
        lemma_entry(vars, key, 0, vars.len() as int);
    }
}

proof fn lemma_env(s: SetsView, at: int, k: int)
    requires
        0 <= at <= k <= s.environments.len(),
        forall|i: int| at <= i < k ==> Some((#[trigger] s.environments[i]).id) != s.active,
    ensures
        k < s.environments.len() && Some(s.environments[k].id) == s.active ==> env_from(
            s.environments,
            s.active,
            at,
        ) == Some(k),
        k == s.environments.len() ==> env_from(s.environments, s.active, at) is None,
    decreases k - at,
{
    if at < k {
        assert(Some(s.environments[at].id) != s.active);
        lemma_env(s, at + 1, k);
    }
}

proof fn lemma_group(s: SetsView, name: Seq<char>, at: int, k: int)
    requires
        0 <= at <= k <= s.groups.len(),
        forall|i: int| at <= i < k ==> (#[trigger] s.groups[i]).name != name,
    ensures
        k < s.groups.len() && s.groups[k].name == name ==> group_from(s.groups, name, at) == Some(
            k,
        ),
        k == s.groups.len() ==> group_from(s.groups, name, at) is None,
    decreases k - at,
{
    if at < k {
        assert(s.groups[at].name != name);
        lemma_group(s, name, at + 1, k);
    }
}

/// A request sees the globals, the variables of its own group and those of the
/// active environment, and of no other.
pub proof fn a_request_sees_its_tables(s: SetsView, name: Seq<char>, g: int, e: int)
    requires
        0 <= g <= s.groups.len(),
        forall|i: int| 0 <= i < g ==> (#[trigger] s.groups[i]).name != name,
        g < s.groups.len() ==> s.groups[g].name == name,
        0 <= e <= s.environments.len(),
        forall|i: int| 0 <= i < e ==> Some((#[trigger] s.environments[i]).id) != s.active,
        e < s.environments.len() ==> Some(s.environments[e].id) == s.active,
    ensures
        layers_of(s, Some(name)).globals == s.globals,
        layers_of(s, Some(name)).group == if g < s.groups.len() {
            s.groups[g].variables
        } else {
            Seq::empty()
        },
        layers_of(s, Some(name)).env == if e < s.environments.len() {
            s.environments[e].variables
        } else {
            Seq::empty()
        },
        layers_of(s, None).group.len() == 0,
        layers_of(s, None).globals == s.globals,
        layers_of(s, None).env == layers_of(s, Some(name)).env,
{
    lemma_group(s, name, 0, g);
    lemma_env(s, 0, e);
}

/// A write reaches one table: the globals, that of the request's group, which is
/// made where it is missing, or that of the active environment.
pub proof fn a_write_reaches_one_table(
    s: SetsView,
    name: Seq<char>,
    key: Seq<char>,
    value: Seq<char>,
    g: int,
    e: int,
)
    requires
        0 <= g <= s.groups.len(),
        forall|i: int| 0 <= i < g ==> (#[trigger] s.groups[i]).name != name,
        g < s.groups.len() ==> s.groups[g].name == name,
        0 <= e <= s.environments.len(),
        forall|i: int| 0 <= i < e ==> Some((#[trigger] s.environments[i]).id) != s.active,
        e < s.environments.len() ==> Some(s.environments[e].id) == s.active,
    ensures
        sets_after(s, VarScope::Global, Some(name), key, value) matches Some(after) && {
            &&& after.globals == with_value(s.globals, key, value)
            &&& after.environments == s.environments
            &&& after.active == s.active
            &&& after.groups == s.groups
        },
        sets_after(s, VarScope::Group, Some(name), key, value) matches Some(after) && {
            &&& after.globals == s.globals
            &&& after.environments == s.environments
            &&& after.active == s.active
            &&& after.groups.len() == if g < s.groups.len() {
                s.groups.len()
            } else {
                s.groups.len() + 1
            }
            &&& after.groups[g].name == name
            &&& after.groups[g].variables == with_value(
                if g < s.groups.len() {
                    s.groups[g].variables
                } else {
                    Seq::empty()
                },
                key,
                value,
            )
            &&& forall|i: int|
                0 <= i < s.groups.len() && i != g ==> #[trigger] after.groups[i] == s.groups[i]
        },
        e == s.environments.len() ==> sets_after(
            s,
            VarScope::Environment,
            Some(name),
            key,
            value,
        ) is None,
        e < s.environments.len() ==> (sets_after(
            s,
            VarScope::Environment,
            Some(name),
            key,
            value,
        ) matches Some(after) && {
            &&& after.globals == s.globals
            &&& after.groups == s.groups
            &&& after.active == s.active
            &&& after.environments.len() == s.environments.len()
            &&& after.environments[e].id == s.environments[e].id
            &&& after.environments[e].name == s.environments[e].name
            &&& after.environments[e].variables == with_value(
                s.environments[e].variables,
                key,
                value,
            )
            &&& forall|i: int|
                0 <= i < s.environments.len() && i != e ==> #[trigger] after.environments[i]
                    == s.environments[i]
        }),
{
    lemma_group(s, name, 0, g);
    lemma_env(s, 0, e);
}

/// What was extracted is written in the order of the rows: an extraction that
/// passed takes the next value, and its row is marked where there is no table for
/// it; all other rows leave the tables alone.
pub proof fn values_are_written_in_order(
    results: Seq<(PostOpView, OutcomeView)>,
    row: (PostOpView, OutcomeView),
    extracted: Seq<ExtractedView>,
    sets: SetsView,
    group: Option<Seq<char>>,
)
    ensures
        ({
            let (rows, before) = applied(results, extracted, sets, group);
            let k = extract_passes(results) as int;
            let r = applied(results.push(row), extracted, sets, group);
            if !(row.0.kind is Extract) || !(row.1 is Passed) || k >= extracted.len() {
                r == (rows.push(row), before)
            } else {
                match sets_after(
                    before,
                    extracted[k].scope,
                    group,
                    extracted[k].key,
                    extracted[k].value,
                ) {
                    Some(after) => r == (rows.push(row), after),
                    None => r.1 == before && r.0.len() == rows.len() + 1 && r.0.drop_last() == rows
                        && r.0.last().0 == row.0 && r.0.last().1 is Skipped,
                }
            }
        }),
{
    assert(results.push(row).drop_last() =~= results);
    let (rows, before) = applied(results, extracted, sets, group);
    let r = applied(results.push(row), extracted, sets, group);
    assert(r.0.drop_last() =~= rows);
}

/// The number of passes counts the results that passed.
pub proof fn passes_are_counted(
    results: Seq<(PostOpView, OutcomeView)>,
    op: PostOpView,
    outcome: OutcomeView,
)
    ensures
        pass_count(Seq::empty()) == 0,
        pass_count(results.push((op, outcome))) == pass_count(results) + if outcome is Passed {
            1nat
        } else {
            0nat
        },
        extract_passes(Seq::empty()) == 0,
        extract_passes(results.push((op, outcome))) == extract_passes(results) + if outcome
            is Passed && op.kind is Extract {
            1nat
        } else {
            0nat
        },
{
    assert(results.push((op, outcome)).drop_last() =~= results);
}

} // verus!
