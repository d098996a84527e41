//! Operations before sending, which set variables, and operations on the
//! response, which extract variables and check assertions.
use crate::json::{json_parsed, json_view, parse_value, plain_text, JsonView};
use crate::model::{
    AssertOp, PostOp, PostOpKind, PostOpKindView, PostOpView, PreOp, PreOpKind, PreOpView,
    ResponseMeta, ResponseSource, ResponseSourceView, VarScope,
};
use crate::strings::{
    ascii_lower, chars_of, decimal, decimal_text, find_chars, first_index, same_text,
    texts_equal_ignoring_case, trim, trimmed, views,
};
use crate::variables::{layers_of, sets_after, SetsView, VariableSets};
use crate::vars::{drawn, expanded, DynamicValues, DynamicView, Resolver, Scope};
use vstd::prelude::*;

pub mod json_path;

verus! {

/// Largest response body that is parsed for JSON sources.
pub const OPS_JSON_MAX_BYTES: usize = 8388608;

/// Why an operation was not carried out.
#[derive(Debug, Clone, Copy, PartialEq, Eq, Structural)]
pub enum OpSkip {
    NoActiveEnvironment,
    NoGroup,
}

/// Why an operation failed.
#[derive(Debug, PartialEq, Eq)]
pub enum OpFailure {
    EmptyKey,
    EmptyPath,
    /// The body is on disk and not in memory.
    BodyUnavailable,
    /// The body is larger than [`OPS_JSON_MAX_BYTES`].
    BodyTooLarge,
    NotJson,
    PathNotFound(String),
    HeaderNotFound(String),
    /// Not equal, or not contained.
    Mismatch { actual: String, expected: String },
    /// Equal although it should not be.
    Unexpected { actual: String },
    /// Does not exist.
    Missing,
}

pub enum FailureView {
    EmptyKey,
    EmptyPath,
    BodyUnavailable,
    BodyTooLarge,
    NotJson,
    PathNotFound(Seq<char>),
    HeaderNotFound(Seq<char>),
    Mismatch { actual: Seq<char>, expected: Seq<char> },
    Unexpected { actual: Seq<char> },
    Missing,
}

impl View for OpFailure {
    type V = FailureView;

    open spec fn view(&self) -> FailureView {
        match *self {
            OpFailure::EmptyKey => FailureView::EmptyKey,
            OpFailure::EmptyPath => FailureView::EmptyPath,
            OpFailure::BodyUnavailable => FailureView::BodyUnavailable,
            OpFailure::BodyTooLarge => FailureView::BodyTooLarge,
            OpFailure::NotJson => FailureView::NotJson,
            OpFailure::PathNotFound(p) => FailureView::PathNotFound(p@),
            OpFailure::HeaderNotFound(h) => FailureView::HeaderNotFound(h@),
            OpFailure::Mismatch { actual, expected } => FailureView::Mismatch {
                actual: actual@,
                expected: expected@,
            },
            OpFailure::Unexpected { actual } => FailureView::Unexpected { actual: actual@ },
            OpFailure::Missing => FailureView::Missing,
        }
    }
}

impl Clone for OpFailure {
    fn clone(&self) -> (r: OpFailure)
        ensures
            r@ == self@,
    {
        match self {
            OpFailure::EmptyKey => OpFailure::EmptyKey,
            OpFailure::EmptyPath => OpFailure::EmptyPath,
            OpFailure::BodyUnavailable => OpFailure::BodyUnavailable,
            OpFailure::BodyTooLarge => OpFailure::BodyTooLarge,
            OpFailure::NotJson => OpFailure::NotJson,
            OpFailure::PathNotFound(p) => OpFailure::PathNotFound(p.clone()),
            OpFailure::HeaderNotFound(h) => OpFailure::HeaderNotFound(h.clone()),
            OpFailure::Mismatch { actual, expected } => OpFailure::Mismatch {
                actual: actual.clone(),
                expected: expected.clone(),
            },
            OpFailure::Unexpected { actual } => OpFailure::Unexpected { actual: actual.clone() },
            OpFailure::Missing => OpFailure::Missing,
        }
    }
}

#[derive(Debug, PartialEq, Eq)]
pub enum OpOutcome {
    Passed,
    Failed(OpFailure),
    Skipped(OpSkip),
}

pub enum OutcomeView {
    Passed,
    Failed(FailureView),
    Skipped(OpSkip),
}

impl View for OpOutcome {
    type V = OutcomeView;

    open spec fn view(&self) -> OutcomeView {
        match *self {
            OpOutcome::Passed => OutcomeView::Passed,
            OpOutcome::Failed(f) => OutcomeView::Failed(f@),
            OpOutcome::Skipped(s) => OutcomeView::Skipped(s),
        }
    }
}

/// The view of an optional group name.
pub open spec fn group_name(group: Option<&str>) -> Option<Seq<char>> {
    match group {
        Some(name) => Some(name@),
        None => None,
    }
}

/// Why a variable of `scope` could not be written.
pub open spec fn skip_reason(scope: VarScope) -> OpSkip {
    match scope {
        VarScope::Environment => OpSkip::NoActiveEnvironment,
        _ => OpSkip::NoGroup,
    }
}

/// One operation before sending: the tables after it, and its outcome. The value
/// is resolved against the tables as they are at that moment.
pub open spec fn pre_step(
    op: PreOpView,
    sets: SetsView,
    group: Option<Seq<char>>,
    dynamic: DynamicView,
) -> (SetsView, OutcomeView) {
    let key = trimmed(op.key);
    if key.len() == 0 {
        (sets, OutcomeView::Failed(FailureView::EmptyKey))
    } else {
        let scope = Scope { layers: layers_of(sets, group), dynamic };
        match sets_after(sets, op.scope, group, key, expanded(scope, op.value)) {
            Some(after) => (after, OutcomeView::Passed),
            None => (sets, OutcomeView::Skipped(skip_reason(op.scope))),
        }
    }
}

/// The tables and the results after all of `ops`; the operation at offset `i`
/// sees the dynamic values `dynamics[i]`. Disabled operations do not count.
pub open spec fn pre_run(
    ops: Seq<PreOpView>,
    sets: SetsView,
    group: Option<Seq<char>>,
    dynamics: Seq<DynamicView>,
) -> (SetsView, Seq<(PreOpView, OutcomeView)>)
    decreases ops.len(),
{
    if ops.len() == 0 {
        (sets, Seq::empty())
    } else {
        let (before, results) = pre_run(ops.drop_last(), sets, group, dynamics);
        let op = ops.last();
        if !op.enabled {
            (before, results)
        } else {
            let (after, outcome) = pre_step(op, before, group, dynamics[ops.len() - 1]);
            (after, results.push((op, outcome)))
        }
    }
}

/// The view of the results of operations before sending.
pub open spec fn pre_results(r: Seq<(PreOp, OpOutcome)>) -> Seq<(PreOpView, OutcomeView)> {
    r.map_values(|p: (PreOp, OpOutcome)| (p.0@, p.1@))
}

/// How many of `ops` are enabled.
pub open spec fn enabled_count(ops: Seq<PreOpView>) -> nat
    decreases ops.len(),
{
    if ops.len() == 0 {
        0
    } else {
        enabled_count(ops.drop_last()) + if ops.last().enabled {
            1nat
        } else {
            0nat
        }
    }
}

/// Every enabled operation has one result, a disabled one has none.
pub proof fn each_enabled_pre_op_is_reported(
    ops: Seq<PreOpView>,
    sets: SetsView,
    group: Option<Seq<char>>,
    dynamics: Seq<DynamicView>,
)
    ensures
        pre_run(ops, sets, group, dynamics).1.len() == enabled_count(ops),
        forall|i: int|
            0 <= i < pre_run(ops, sets, group, dynamics).1.len() ==> (#[trigger] pre_run(
                ops,
                sets,
                group,
                dynamics,
            ).1[i]).0.enabled,
    decreases ops.len(),
{
    if ops.len() > 0 {
        each_enabled_pre_op_is_reported(ops.drop_last(), sets, group, dynamics);
    }
}

/// A later operation sees what an earlier one set: where an operation passed, its
/// scope gives back the resolved value right afterwards.
pub proof fn passed_pre_op_is_visible(
    op: PreOpView,
    sets: SetsView,
    group: Option<Seq<char>>,
    dynamic: DynamicView,
)
    requires
        pre_step(op, sets, group, dynamic).1 is Passed,
    ensures
        crate::vars::layer_value(
            crate::variables::scope_layer(
                pre_step(op, sets, group, dynamic).0,
                op.scope,
                group,
            ),
            trimmed(op.key),
        ) == Some(expanded(Scope { layers: layers_of(sets, group), dynamic }, op.value)),
{
    let scope = Scope { layers: layers_of(sets, group), dynamic };
    crate::variables::written_variable_is_read_back(
        sets,
        op.scope,
        group,
        trimmed(op.key),
        expanded(scope, op.value),
    );
}

/// An operation that did not pass changes nothing.
pub proof fn failed_pre_op_changes_nothing(
    op: PreOpView,
    sets: SetsView,
    group: Option<Seq<char>>,
    dynamic: DynamicView,
)
    ensures
        !(pre_step(op, sets, group, dynamic).1 is Passed) ==> pre_step(op, sets, group, dynamic).0
            == sets,
{
}

/// Carries out one operation before sending, on given dynamic values.
pub fn run_pre_op(
    op: &PreOp,
    sets: &mut VariableSets,
    group: Option<&str>,
    dynamic: DynamicValues,
) -> (r: OpOutcome)
    ensures
        (final(sets)@, r@) == pre_step(op@, old(sets)@, group_name(group), dynamic@),
{
    match &op.kind {
        PreOpKind::SetVariable { scope, key, value } => {
            let key = trim(key.as_str());
            if key.as_str().is_empty() {
                return OpOutcome::Failed(OpFailure::EmptyKey);
            }
            let mut text = value.clone();
            {
                let ctx = sets.context(group);
                let mut resolver = Resolver::with_dynamic(&ctx, dynamic);
                resolver.resolve_in(&mut text);
            }
            if sets.set_var(*scope, group, key.as_str(), text.as_str()) {
                OpOutcome::Passed
            } else {
                OpOutcome::Skipped(
                    match scope {
                        VarScope::Environment => OpSkip::NoActiveEnvironment,
                        _ => OpSkip::NoGroup,
                    },
                )
            }
        },
    }
}

/// What holds of all dynamic values that are drawn for a run.
pub open spec fn all_drawn(dynamics: Seq<DynamicView>) -> bool {
    forall|i: int| 0 <= i < dynamics.len() ==> drawn(#[trigger] dynamics[i])
}

/// Carries out the enabled operations in order. Each resolves its value against
/// the tables as they are at that moment, so it sees what earlier ones set.
pub fn run_pre_ops(ops: &[PreOp], sets: &mut VariableSets, group: Option<&str>) -> (r: Vec<
    (PreOp, OpOutcome),
>)
    ensures
        exists|dynamics: Seq<DynamicView>|
            (final(sets)@, pre_results(r@)) == #[trigger] pre_run(
                views(ops@),
                old(sets)@,
                group_name(group),
                dynamics,
            ) && all_drawn(dynamics),
{
    let ghost all = views(ops@);
    let ghost start = sets@;
    let ghost mut dynamics: Seq<DynamicView> = Seq::empty();
    let mut results: Vec<(PreOp, OpOutcome)> = Vec::new();
    let mut i: usize = 0;
    proof {
        assert(all.take(0) =~= Seq::<PreOpView>::empty());
        assert(pre_results(results@) =~= Seq::<(PreOpView, OutcomeView)>::empty());
    }
    while i < ops.len()
        invariant
            all == views(ops@),
            start == old(sets)@,
            i <= ops@.len(),
            dynamics.len() == i,
            all_drawn(dynamics),
            (sets@, pre_results(results@)) == pre_run(
                all.take(i as int),
                start,
                group_name(group),
                dynamics,
            ),
        decreases ops@.len() - i,
    {
        let op = &ops[i];
        proof {
            assert(all[i as int] == op@);
            assert(all.take(i + 1).drop_last() =~= all.take(i as int));
        }
        let dynamic = DynamicValues::draw();
        let ghost d = dynamic@;
        proof {
            lemma_pre_run_extends(all.take(i as int), start, group_name(group), dynamics, d);
        }
        if op.enabled {
            let outcome = run_pre_op(op, sets, group, dynamic);
            let ghost done = results@;
            let ghost view = outcome@;
            results.push((op.clone(), outcome));
            proof {
                assert(pre_results(results@) =~= pre_results(done).push((op@, view)));
            }
        }
        proof {
            dynamics = dynamics.push(d);
        }
        i = i + 1;
    }
    proof {
        assert(all.take(i as int) =~= all);
    }
    results
}

proof fn lemma_pre_run_extends(
    ops: Seq<PreOpView>,
    sets: SetsView,
    group: Option<Seq<char>>,
    dynamics: Seq<DynamicView>,
    d: DynamicView,
)
    requires
        ops.len() <= dynamics.len(),
    ensures
        pre_run(ops, sets, group, dynamics.push(d)) == pre_run(ops, sets, group, dynamics),
    decreases ops.len(),
{
    if ops.len() > 0 {
        lemma_pre_run_extends(ops.drop_last(), sets, group, dynamics, d);
    }
}

/// What a response is checked against besides its body.
pub struct MetaView {
    pub status: nat,
    pub headers: Seq<(Seq<char>, Seq<char>)>,
}

pub open spec fn meta_view(meta: ResponseMeta) -> MetaView {
    MetaView {
        status: meta.status as nat,
        headers: meta.headers@.map_values(|h: (String, String)| (h.0@, h.1@)),
    }
}

/// The JSON of a response body, or why there is none.
pub open spec fn body_json(body: Option<Seq<u8>>) -> Result<JsonView, FailureView> {
    match body {
        None => Err(FailureView::BodyUnavailable),
        Some(bytes) => if bytes.len() > OPS_JSON_MAX_BYTES {
            Err(FailureView::BodyTooLarge)
        } else {
            match json_parsed(bytes) {
                Ok(v) => Ok(v),
                Err(_) => Err(FailureView::NotJson),
            }
        },
    }
}

/// The view of parsed JSON.
pub open spec fn json_result(r: Result<serde_json::Value, OpFailure>) -> Result<
    JsonView,
    FailureView,
> {
    match r {
        Ok(v) => Ok(json_view(v)),
        Err(f) => Err(f@),
    }
}

/// Reads the JSON of a response body; `None` stands for a body on disk.
pub fn parse_body(body: Option<&[u8]>) -> (r: Result<serde_json::Value, OpFailure>)
    ensures
        json_result(r) == body_json(
            match body {
                Some(b) => Some(b@),
                None => None,
            },
        ),
{
    match body {
        None => Err(OpFailure::BodyUnavailable),
        Some(bytes) => if bytes.len() > OPS_JSON_MAX_BYTES {
            Err(OpFailure::BodyTooLarge)
        } else {
            match parse_value(bytes) {
                Ok(v) => Ok(v),
                Err(_) => Err(OpFailure::NotJson),
            }
        },
    }
}

/// The value of the first header of that name, in any case.
pub open spec fn header_value(
    headers: Seq<(Seq<char>, Seq<char>)>,
    name: Seq<char>,
) -> Option<Seq<char>>
    decreases headers.len(),
{
    if headers.len() == 0 {
        None
    } else if ascii_lower(headers[0].0) == ascii_lower(name) {
        Some(headers[0].1)
    } else {
        header_value(headers.skip(1), name)
    }
}

/// What a source reads from a response.
pub open spec fn source_text(
    source: ResponseSourceView,
    meta: MetaView,
    json: Result<JsonView, FailureView>,
) -> Result<Seq<char>, FailureView> {
    match source {
        ResponseSourceView::Status => Ok(decimal(meta.status)),
        ResponseSourceView::Header { name } => match header_value(meta.headers, trimmed(name)) {
            Some(v) => Ok(v),
            None => Err(FailureView::HeaderNotFound(name)),
        },
        ResponseSourceView::JsonPath { path } => if trimmed(path).len() == 0 {
            Err(FailureView::EmptyPath)
        } else {
            match json {
                Err(f) => Err(f),
                Ok(root) => match json_path::value_at(root, path) {
                    Some(v) => Ok(plain_text(v)),
                    None => Err(FailureView::PathNotFound(path)),
                },
            }
        },
    }
}

/// Whether `actual` satisfies an assertion.
pub open spec fn satisfies(op: AssertOp, actual: Seq<char>, expected: Seq<char>) -> bool {
    match op {
        AssertOp::Equals => actual == expected,
        AssertOp::NotEquals => actual != expected,
        AssertOp::Contains => expected.len() == 0 || first_index(actual, expected, 0) is Some,
        AssertOp::Exists => true,
    }
}

/// The outcome of comparing `actual` with `expected`.
pub open spec fn comparison(op: AssertOp, actual: Seq<char>, expected: Seq<char>) -> OutcomeView {
    if satisfies(op, actual, expected) {
        OutcomeView::Passed
    } else if op == AssertOp::NotEquals {
        OutcomeView::Failed(FailureView::Unexpected { actual })
    } else {
        OutcomeView::Failed(FailureView::Mismatch { actual, expected })
    }
}

/// The outcome of one operation on the response.
pub open spec fn post_outcome(
    kind: PostOpKindView,
    meta: MetaView,
    json: Result<JsonView, FailureView>,
) -> OutcomeView {
    match kind {
        PostOpKindView::Extract { scope, key, source } => if trimmed(key).len() == 0 {
            OutcomeView::Failed(FailureView::EmptyKey)
        } else {
            match source_text(source, meta, json) {
                Ok(_) => OutcomeView::Passed,
                Err(f) => OutcomeView::Failed(f),
            }
        },
        PostOpKindView::Assert { subject, op, expected } => match source_text(
            subject,
            meta,
            json,
        ) {
            Ok(actual) => comparison(op, actual, expected),
            Err(f) => if op == AssertOp::Exists && (f is PathNotFound || f is HeaderNotFound) {
                OutcomeView::Failed(FailureView::Missing)
            } else {
                OutcomeView::Failed(f)
            },
        },
    }
}

/// A value that an extraction has read, to be written to a variable.
#[derive(Debug, PartialEq, Eq)]
pub struct Extracted {
    pub scope: VarScope,
    pub key: String,
    pub value: String,
}

pub struct ExtractedView {
    pub scope: VarScope,
    pub key: Seq<char>,
    pub value: Seq<char>,
}

impl View for Extracted {
    type V = ExtractedView;

    open spec fn view(&self) -> ExtractedView {
        ExtractedView { scope: self.scope, key: self.key@, value: self.value@ }
    }
}

/// What an operation on the response has extracted.
pub open spec fn extraction(
    kind: PostOpKindView,
    meta: MetaView,
    json: Result<JsonView, FailureView>,
) -> Option<ExtractedView> {
    match kind {
        PostOpKindView::Extract { scope, key, source } => match source_text(source, meta, json) {
            Ok(value) if trimmed(key).len() > 0 => Some(
                ExtractedView { scope, key: trimmed(key), value },
            ),
            _ => None,
        },
        PostOpKindView::Assert { .. } => None,
    }
}

/// The results of the operations on a response, and what they extracted.
#[derive(Debug, PartialEq, Eq)]
pub struct PostReport {
    pub results: Vec<(PostOp, OpOutcome)>,
    pub extracted: Vec<Extracted>,
}

#[verifier::ext_equal]
pub struct ReportView {
    pub results: Seq<(PostOpView, OutcomeView)>,
    pub extracted: Seq<ExtractedView>,
}

/// The view of the results of operations on a response.
pub open spec fn post_results(r: Seq<(PostOp, OpOutcome)>) -> Seq<(PostOpView, OutcomeView)> {
    r.map_values(|p: (PostOp, OpOutcome)| (p.0@, p.1@))
}

impl View for PostReport {
    type V = ReportView;

    open spec fn view(&self) -> ReportView {
        ReportView { results: post_results(self.results@), extracted: views(self.extracted@) }
    }
}

impl Default for PostReport {
    fn default() -> (r: PostReport)
        ensures
            r@ == (ReportView { results: Seq::empty(), extracted: Seq::empty() }),
    {
        let r = PostReport { results: Vec::new(), extracted: Vec::new() };
        proof {
            assert(r@ =~= (ReportView { results: Seq::empty(), extracted: Seq::empty() }));
        }
        r
    }
}

/// How many results are a pass.
pub open spec fn pass_count(results: Seq<(PostOpView, OutcomeView)>) -> nat
    decreases results.len(),
{
    if results.len() == 0 {
        0
    } else {
        pass_count(results.drop_last()) + if results.last().1 is Passed {
            1nat
        } else {
            0nat
        }
    }
}

impl PostReport {
    /// How many operations passed.
    pub fn passed(&self) -> (r: usize)
        ensures
            r == pass_count(self@.results),
            r <= self@.results.len(),
    {
        let ghost all = self@.results;
        let mut n: usize = 0;
        let mut i: usize = 0;
        proof {
            assert(all.take(0) =~= Seq::<(PostOpView, OutcomeView)>::empty());
        }
        while i < self.results.len()
            invariant
                all == post_results(self.results@),
                i <= self.results@.len(),
                n <= i,
                n == pass_count(all.take(i as int)),
            decreases self.results@.len() - i,
        {
            proof {
                assert(all.take(i + 1).drop_last() =~= all.take(i as int));
                assert(all[i as int] == (self.results@[i as int].0@, self.results@[i as int].1@));
            }
            if let OpOutcome::Passed = &self.results[i].1 {
                n = n + 1;
            }
            i = i + 1;
        }
        proof {
            assert(all.take(i as int) =~= all);
        }
        n
    }
}

/// The report on a response: each enabled operation in order.
pub open spec fn post_report(
    ops: Seq<PostOpView>,
    meta: MetaView,
    json: Result<JsonView, FailureView>,
) -> ReportView
    decreases ops.len(),
{
    if ops.len() == 0 {
        ReportView { results: Seq::empty(), extracted: Seq::empty() }
    } else {
        let head = post_report(ops.drop_last(), meta, json);
        let op = ops.last();
        if !op.enabled {
            head
        } else {
            ReportView {
                results: head.results.push((op, post_outcome(op.kind, meta, json))),
                extracted: match extraction(op.kind, meta, json) {
                    Some(e) => head.extracted.push(e),
                    None => head.extracted,
                },
            }
        }
    }
}

/// The source that an operation reads.
pub open spec fn source_of(kind: PostOpKindView) -> ResponseSourceView {
    match kind {
        PostOpKindView::Extract { source, .. } => source,
        PostOpKindView::Assert { subject, .. } => subject,
    }
}

/// Whether any enabled operation reads JSON.
pub open spec fn reads_json(ops: Seq<PostOpView>) -> bool {
    exists|i: int|
        0 <= i < ops.len() && #[trigger] ops[i].enabled && source_of(ops[i].kind) is JsonPath
}

/// Without an enabled JSON source the body has no effect on the report.
pub proof fn body_only_matters_for_json_sources(
    ops: Seq<PostOpView>,
    meta: MetaView,
    a: Result<JsonView, FailureView>,
    b: Result<JsonView, FailureView>,
)
    requires
        !reads_json(ops),
    ensures
        post_report(ops, meta, a) == post_report(ops, meta, b),
    decreases ops.len(),
{
    if ops.len() > 0 {
        let op = ops.last();
        assert(!(ops[ops.len() - 1].enabled && source_of(ops[ops.len() - 1].kind) is JsonPath));
        assert(!reads_json(ops.drop_last())) by {
            if reads_json(ops.drop_last()) {
                let i = choose|i: int|
                    0 <= i < ops.drop_last().len() && #[trigger] ops.drop_last()[i].enabled
                        && source_of(ops.drop_last()[i].kind) is JsonPath;
                assert(ops[i].enabled && source_of(ops[i].kind) is JsonPath);
            }
        }
        body_only_matters_for_json_sources(ops.drop_last(), meta, a, b);
    }
}

/// How many operations of a report are extractions that passed.
pub open spec fn extract_passes(results: Seq<(PostOpView, OutcomeView)>) -> nat
    decreases results.len(),
{
    if results.len() == 0 {
        0
    } else {
        extract_passes(results.drop_last()) + if results.last().0.kind is Extract
            && results.last().1 is Passed {
            1nat
        } else {
            0nat
        }
    }
}

/// How many of `ops` are enabled.
pub open spec fn enabled_posts(ops: Seq<PostOpView>) -> nat
    decreases ops.len(),
{
    if ops.len() == 0 {
        0
    } else {
        enabled_posts(ops.drop_last()) + if ops.last().enabled {
            1nat
        } else {
            0nat
        }
    }
}

/// Every enabled operation has one result, and exactly the extractions that
/// passed have a value.
pub proof fn each_enabled_post_op_is_reported(
    ops: Seq<PostOpView>,
    meta: MetaView,
    json: Result<JsonView, FailureView>,
)
    ensures
        post_report(ops, meta, json).results.len() == enabled_posts(ops),
        post_report(ops, meta, json).extracted.len() == extract_passes(
            post_report(ops, meta, json).results,
        ),
    decreases ops.len(),
{
    if ops.len() > 0 {
        each_enabled_post_op_is_reported(ops.drop_last(), meta, json);
        let head = post_report(ops.drop_last(), meta, json);
        if ops.last().enabled {
            let all = post_report(ops, meta, json);
            assert(all.results.drop_last() =~= head.results);
        }
    }
}

fn find_header(meta: &ResponseMeta, name: &str) -> (r: Option<String>)
    ensures
        match r {
            Some(v) => header_value(meta_view(*meta).headers, name@) == Some(v@),
            None => header_value(meta_view(*meta).headers, name@) is None,
        },
{
    let ghost all = meta_view(*meta).headers;
    let mut i: usize = 0;
    proof {
        assert(all.skip(0) =~= all);
    }
    while i < meta.headers.len()
        invariant
            all == meta_view(*meta).headers,
            i <= meta.headers@.len(),
            header_value(all, name@) == header_value(all.skip(i as int), name@),
        decreases meta.headers@.len() - i,
    {
        proof {
            assert(all.skip(i as int)[0] == (
                meta.headers@[i as int].0@,
                meta.headers@[i as int].1@,
            ));
            assert(all.skip(i as int).skip(1) =~= all.skip(i + 1));
        }
        let header = &meta.headers[i];
        if texts_equal_ignoring_case(header.0.as_str(), name) {
            return Some(header.1.clone());
        }
        i = i + 1;
    }
    None
}

/// The view of what a source reads.
pub open spec fn text_result(r: Result<String, OpFailure>) -> Result<Seq<char>, FailureView> {
    match r {
        Ok(s) => Ok(s@),
        Err(f) => Err(f@),
    }
}

fn read_source(
    source: &ResponseSource,
    meta: &ResponseMeta,
    json: &Result<serde_json::Value, OpFailure>,
) -> (r: Result<String, OpFailure>)
    ensures
        text_result(r) == source_text(source@, meta_view(*meta), json_result(*json)),
{
    match source {
        ResponseSource::Status => Ok(decimal_text(meta.status as u128)),
        ResponseSource::Header { name } => {
            let wanted = trim(name.as_str());
            match find_header(meta, wanted.as_str()) {
                Some(v) => Ok(v),
                None => Err(OpFailure::HeaderNotFound(name.clone())),
            }
        },
        ResponseSource::JsonPath { path } => {
            if trim(path.as_str()).as_str().is_empty() {
                return Err(OpFailure::EmptyPath);
            }
            match json {
                Err(f) => Err(f.clone()),
                Ok(root) => match json_path::get(root, path.as_str()) {
                    Some(v) => Ok(json_path::value_to_string(v)),
                    None => Err(OpFailure::PathNotFound(path.clone())),
                },
            }
        },
    }
}

fn contains_text(text: &str, part: &str) -> (r: bool)
    ensures
        r == (part@.len() == 0 || first_index(text@, part@, 0) is Some),
{
    if part.is_empty() {
        return true;
    }
    let s = chars_of(text);
    let p = chars_of(part);
    find_chars(s.as_slice(), p.as_slice(), 0).is_some()
}

fn compare(op: AssertOp, actual: String, expected: &str) -> (r: OpOutcome)
    ensures
        r@ == comparison(op, actual@, expected@),
{
    let ok = match op {
        AssertOp::Equals => same_text(actual.as_str(), expected),
        AssertOp::NotEquals => !same_text(actual.as_str(), expected),
        AssertOp::Contains => contains_text(actual.as_str(), expected),
        AssertOp::Exists => true,
    };
    if ok {
        return OpOutcome::Passed;
    }
    match op {
        AssertOp::NotEquals => OpOutcome::Failed(OpFailure::Unexpected { actual }),
        _ => OpOutcome::Failed(OpFailure::Mismatch { actual, expected: expected.to_owned() }),
    }
}

fn run_post_op(
    op: &PostOp,
    meta: &ResponseMeta,
    json: &Result<serde_json::Value, OpFailure>,
) -> (r: (OpOutcome, Option<Extracted>))
    ensures
        r.0@ == post_outcome(op.kind@, meta_view(*meta), json_result(*json)),
        match r.1 {
            Some(e) => extraction(op.kind@, meta_view(*meta), json_result(*json)) == Some(e@),
            None => extraction(op.kind@, meta_view(*meta), json_result(*json)) is None,
        },
{
    match &op.kind {
        PostOpKind::Extract { scope, key, source } => {
            let key = trim(key.as_str());
            if key.as_str().is_empty() {
                return (OpOutcome::Failed(OpFailure::EmptyKey), None);
            }
            match read_source(source, meta, json) {
                Ok(value) => (OpOutcome::Passed, Some(Extracted { scope: *scope, key, value })),
                Err(f) => (OpOutcome::Failed(f), None),
            }
        },
        PostOpKind::Assert { subject, op: check, expected } => match read_source(
            subject,
            meta,
            json,
        ) {
            Ok(actual) => (compare(*check, actual, expected.as_str()), None),
            Err(f) => {
                let missing = match &f {
                    OpFailure::PathNotFound(_) => true,
                    OpFailure::HeaderNotFound(_) => true,
                    _ => false,
                };
                if missing && *check == AssertOp::Exists {
                    (OpOutcome::Failed(OpFailure::Missing), None)
                } else {
                    (OpOutcome::Failed(f), None)
                }
            },
        },
    }
}

/// Carries out the enabled operations on a response whose JSON is given.
pub fn run_post_ops_on(
    ops: &[PostOp],
    meta: &ResponseMeta,
    json: &Result<serde_json::Value, OpFailure>,
) -> (r: PostReport)
    ensures
        r@ == post_report(views(ops@), meta_view(*meta), json_result(*json)),
{
    let ghost all = views(ops@);
    let ghost m = meta_view(*meta);
    let ghost j = json_result(*json);
    let mut results: Vec<(PostOp, OpOutcome)> = Vec::new();
    let mut extracted: Vec<Extracted> = Vec::new();
    let mut i: usize = 0;
    proof {
        assert(all.take(0) =~= Seq::<PostOpView>::empty());
        assert(post_results(results@) =~= Seq::<(PostOpView, OutcomeView)>::empty());
        assert(views(extracted@) =~= Seq::<ExtractedView>::empty());
    }
    while i < ops.len()
        invariant
            all == views(ops@),
            m == meta_view(*meta),
            j == json_result(*json),
            i <= ops@.len(),
            post_results(results@) == post_report(all.take(i as int), m, j).results,
            views(extracted@) == post_report(all.take(i as int), m, j).extracted,
        decreases ops@.len() - i,
    {
        let op = &ops[i];
        proof {
            assert(all[i as int] == op@);
            assert(all.take(i + 1).drop_last() =~= all.take(i as int));
        }
        if op.enabled {
            let (outcome, found) = run_post_op(op, meta, json);
            let ghost done = results@;
            let ghost had = extracted@;
            let ghost view = outcome@;
            let copy = op.clone();
            results.push((copy, outcome));
            proof {
                assert(post_results(results@) =~= post_results(done).push((op@, view)));
            }
            if let Some(e) = found {
                let ghost ev = e@;
                extracted.push(e);
                proof {
                    assert(views(extracted@) =~= views(had).push(ev));
                }
            }
        }
        i = i + 1;
    }
    let r = PostReport { results, extracted };
    proof {
        assert(all.take(i as int) =~= all);
        assert(r@ =~= post_report(all, m, j));
    }
    r
}

fn needs_json(ops: &[PostOp]) -> (r: bool)
    ensures
        r == reads_json(views(ops@)),
{
    let mut i: usize = 0;
    while i < ops.len()
        invariant
            i <= ops@.len(),
            forall|k: int|
                0 <= k < i ==> !(#[trigger] ops@[k]@.enabled && source_of(ops@[k]@.kind)
                    is JsonPath),
        decreases ops@.len() - i,
    {
        if ops[i].enabled {
            let source = match &ops[i].kind {
                PostOpKind::Extract { source, .. } => source,
                PostOpKind::Assert { subject, .. } => subject,
            };
            if let ResponseSource::JsonPath { .. } = source {
                proof {
                    assert(views(ops@)[i as int].enabled && source_of(views(ops@)[i as int].kind)
                        is JsonPath);
                }
                return true;
            }
        }
        i = i + 1;
    }
    proof {
        if reads_json(views(ops@)) {
            let k = choose|k: int|
                0 <= k < views(ops@).len() && #[trigger] views(ops@)[k].enabled && source_of(
                    views(ops@)[k].kind,
                ) is JsonPath;
            assert(ops@[k]@.enabled && source_of(ops@[k]@.kind) is JsonPath);
        }
    }
    false
}

/// Carries out the enabled operations on a response; `None` stands for a body on
/// disk. The body is parsed once, and only where an enabled operation reads JSON.
pub fn run_post_ops(ops: &[PostOp], meta: &ResponseMeta, body: Option<&[u8]>) -> (r: PostReport)
    ensures
        r@ == post_report(
            views(ops@),
            meta_view(*meta),
            body_json(
                match body {
                    Some(b) => Some(b@),
                    None => None,
                },
            ),
        ),
{
    let json = if needs_json(ops) {
        parse_body(body)
    } else {
        proof {
            body_only_matters_for_json_sources(
                views(ops@),
                meta_view(*meta),
                Err(FailureView::BodyUnavailable),
                body_json(
                    match body {
                        Some(b) => Some(b@),
                        None => None,
                    },
                ),
            );
        }
        Err(OpFailure::BodyUnavailable)
    };
    run_post_ops_on(ops, meta, &json)
}

/// The rows of a report and the tables after what was extracted has been written
/// to variables: the extraction that passed as the k-th takes the k-th value, and
/// counts as skipped where there is no table to write to.
pub open spec fn applied(
    results: Seq<(PostOpView, OutcomeView)>,
    extracted: Seq<ExtractedView>,
    sets: SetsView,
    group: Option<Seq<char>>,
) -> (Seq<(PostOpView, OutcomeView)>, SetsView)
    decreases results.len(),
{
    if results.len() == 0 {
        (results, sets)
    } else {
        let (rows, before) = applied(results.drop_last(), extracted, sets, group);
        let row = results.last();
        let k = extract_passes(results.drop_last()) as int;
        if row.0.kind is Extract && row.1 is Passed && k < extracted.len() {
            let e = extracted[k];
            match sets_after(before, e.scope, group, e.key, e.value) {
                Some(after) => (rows.push(row), after),
                None => (
                    rows.push((row.0, OutcomeView::Skipped(skip_reason(e.scope)))),
                    before,
                ),
            }
        } else {
            (rows.push(row), before)
        }
    }
}

/// Writing what was extracted keeps every row; it only turns extractions that
/// passed into skipped ones.
pub proof fn applying_keeps_the_rows(
    results: Seq<(PostOpView, OutcomeView)>,
    extracted: Seq<ExtractedView>,
    sets: SetsView,
    group: Option<Seq<char>>,
)
    ensures
        ({
            let rows = applied(results, extracted, sets, group).0;
            &&& rows.len() == results.len()
            &&& forall|i: int|
                0 <= i < rows.len() ==> (#[trigger] rows[i]).0 == results[i].0 && (rows[i].1
                    == results[i].1 || (rows[i].1 is Skipped && results[i].0.kind is Extract
                    && results[i].1 is Passed))
        }),
    decreases results.len(),
{
    if results.len() > 0 {
        applying_keeps_the_rows(results.drop_last(), extracted, sets, group);
    }
}

/// Writes what was extracted to variables, and marks the extractions that could
/// not be written as skipped.
pub fn apply_extracted(report: &mut PostReport, sets: &mut VariableSets, group: Option<&str>)
    ensures
        (final(report)@.results, final(sets)@) == applied(
            old(report)@.results,
            old(report)@.extracted,
            old(sets)@,
            group_name(group),
        ),
        final(report)@.extracted == old(report)@.extracted,
{
    let ghost rows = report@.results;
    let ghost values = report@.extracted;
    let ghost start = sets@;
    let ghost raw = report.results@;
    let mut pending: Vec<(PostOp, OpOutcome)> = Vec::new();
    std::mem::swap(&mut pending, &mut report.results);
    let mut out: Vec<(PostOp, OpOutcome)> = Vec::new();
    let mut used: usize = 0;
    let n = pending.len();
    let mut i: usize = 0;
    proof {
        assert(rows.take(0) =~= Seq::<(PostOpView, OutcomeView)>::empty());
        assert(post_results(out@) =~= rows.take(0));
    }
    while i < n
        invariant
            n == pending@.len(),
            pending@ == raw,
            rows == post_results(raw),
            values == views(report.extracted@),
            values == old(report)@.extracted,
            start == old(sets)@,
            i <= n,
            used == extract_passes(rows.take(i as int)),
            used <= i,
            (post_results(out@), sets@) == applied(
                rows.take(i as int),
                values,
                start,
                group_name(group),
            ),
        decreases n - i,
    {
        let row = &pending[i];
        proof {
            assert(rows.take(i + 1).drop_last() =~= rows.take(i as int));
            assert(rows[i as int] == (raw[i as int].0@, raw[i as int].1@));
        }
        let op = row.0.clone();
        let is_extract = match &row.0.kind {
            PostOpKind::Extract { .. } => true,
            PostOpKind::Assert { .. } => false,
        };
        let mut outcome = copy_outcome(&row.1);
        let is_passed = match &row.1 {
            OpOutcome::Passed => true,
            _ => false,
        };
        if is_extract && is_passed {
            if used < report.extracted.len() {
                let e = &report.extracted[used];
                proof {
                    assert(values[used as int] == e@);
                }
                if !sets.set_var(e.scope, group, e.key.as_str(), e.value.as_str()) {
                    outcome = OpOutcome::Skipped(
                        match e.scope {
                            VarScope::Environment => OpSkip::NoActiveEnvironment,
                            _ => OpSkip::NoGroup,
                        },
                    );
                }
            }
            used = used + 1;
        }
        let ghost done = out@;
        let ghost view = (op@, outcome@);
        out.push((op, outcome));
        proof {
            assert(post_results(out@) =~= post_results(done).push(view));
        }
        i = i + 1;
    }
    report.results = out;
    proof {
        assert(rows.take(i as int) =~= rows);
    }
}

fn copy_outcome(o: &OpOutcome) -> (r: OpOutcome)
    ensures
        r@ == o@,
{
    match o {
        OpOutcome::Passed => OpOutcome::Passed,
        OpOutcome::Failed(f) => OpOutcome::Failed(f.clone()),
        OpOutcome::Skipped(s) => OpOutcome::Skipped(*s),
    }
}

} // verus!
