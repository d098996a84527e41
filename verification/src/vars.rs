//! `{{name}}` substitution.
//!
//! Variables come in layers: built-in dynamic names (which start with `$`) win
//! over the environment, the environment over the group, the group over the
//! globals; within a layer the first enabled entry counts. A value may refer to
//! further variables, up to [`MAX_DEPTH`] levels deep. What cannot be resolved is
//! kept as it is written, and its name is reported.
use crate::calendar::{civil_from_days, is_date};
use crate::model::{
    BodyKind, BodyKindView, DraftView, FormField, FormFieldView, FormValue, FormValueView, KeyValue,
    KeyValueView, PostOp, PostOpKind, PostOpKindView, PostOpView, RequestDraft, Variable,
    VariableView,
};
use crate::names::NameSet;
use crate::strings::{
    chars_of, decimal, decimal_text, find_chars, first_index, lemma_first_index, padded,
    push_padded, same_text, string_of, trim, trimmed, views,
};
use std::borrow::Cow;
use vstd::prelude::*;

verus! {

/// How deep values may refer to further variables.
pub const MAX_DEPTH: usize = 8;

/// Longest name in bytes.
pub const MAX_NAME_LEN: usize = 128;

/// Whether `name` can name a variable.
pub open spec fn is_valid_name(name: Seq<char>) -> bool {
    &&& name.len() > 0
    &&& vstd::utf8::encode_utf8(name).len() <= MAX_NAME_LEN
    &&& forall|i: int|
        0 <= i < name.len() ==> #[trigger] name[i] != '{' && name[i] != '}' && name[i] != '\n'
            && name[i] != '\r'
}

/// Whether `name` can name a variable: not empty, not too long, without braces
/// and line breaks.
pub fn valid_name(name: &str) -> (r: bool)
    ensures
        r == is_valid_name(name@),
{
    let chars = chars_of(name);
    if chars.len() == 0 || name.as_bytes().len() > MAX_NAME_LEN {
        return false;
    }
    let mut i: usize = 0;
    while i < chars.len()
        invariant
            chars@ == name@,
            i <= chars@.len(),
            forall|k: int|
                0 <= k < i ==> #[trigger] name@[k] != '{' && name@[k] != '}' && name@[k] != '\n'
                    && name@[k] != '\r',
        decreases chars@.len() - i,
    {
        let c = chars[i];
        if c == '{' || c == '}' || c == '\n' || c == '\r' {
            return false;
        }
        i = i + 1;
    }
    true
}

/// Whether `name` is reserved for the built-in dynamic variables.
pub open spec fn is_dynamic_name(name: Seq<char>) -> bool {
    name.len() > 0 && name[0] == '$'
}

/// Whether `name` starts with `$`: such a name is never looked up in a table.
pub fn is_dynamic(name: &str) -> (r: bool)
    ensures
        r == is_dynamic_name(name@),
{
    let chars = chars_of(name);
    chars.len() > 0 && chars[0] == '$'
}

/// The first enabled entry of a layer named `name`.
pub open spec fn layer_value(layer: Seq<VariableView>, name: Seq<char>) -> Option<Seq<char>>
    decreases layer.len(),
{
    if layer.len() == 0 {
        None
    } else if layer[0].enabled && layer[0].key == name {
        Some(layer[0].value)
    } else {
        layer_value(layer.skip(1), name)
    }
}

/// The three tables that a name is looked up in.
pub struct Layers {
    pub globals: Seq<VariableView>,
    pub group: Seq<VariableView>,
    pub env: Seq<VariableView>,
}

/// The value of `name`: the environment before the group before the globals.
pub open spec fn table_value(layers: Layers, name: Seq<char>) -> Option<Seq<char>> {
    match layer_value(layers.env, name) {
        Some(v) => Some(v),
        None => match layer_value(layers.group, name) {
            Some(v) => Some(v),
            None => layer_value(layers.globals, name),
        },
    }
}

/// The three tables of variables, from low to high precedence.
pub struct VarContext<'a> {
    globals: &'a [Variable],
    group: &'a [Variable],
    env: &'a [Variable],
}

impl<'a> View for VarContext<'a> {
    type V = Layers;

    closed spec fn view(&self) -> Layers {
        Layers {
            globals: views(self.globals@),
            group: views(self.group@),
            env: views(self.env@),
        }
    }
}

fn find_in_layer<'a>(layer: &'a [Variable], name: &str) -> (r: Option<&'a str>)
    ensures
        match r {
            Some(v) => layer_value(views(layer@), name@) == Some(v@),
            None => layer_value(views(layer@), name@) is None,
        },
{
    let mut i: usize = 0;
    let ghost all = views(layer@);
    proof {
        assert(all.skip(0) =~= all);
    }
    while i < layer.len()
        invariant
            all == views(layer@),
            i <= layer@.len(),
            layer_value(all, name@) == layer_value(all.skip(i as int), name@),
        decreases layer@.len() - i,
    {
        proof {
            assert(all.skip(i as int)[0] == layer@[i as int]@);
            assert(all.skip(i as int).skip(1) =~= all.skip(i + 1));
        }
        if layer[i].enabled && same_text(layer[i].key.as_str(), name) {
            return Some(layer[i].value.as_str());
        }
        i = i + 1;
    }
    None
}

impl<'a> VarContext<'a> {
    /// No variables at all.
    pub fn empty() -> (r: VarContext<'static>)
        ensures
            r@ == (Layers {
                globals: Seq::<VariableView>::empty(),
                group: Seq::<VariableView>::empty(),
                env: Seq::<VariableView>::empty(),
            }),
    {
        let none: &'static [Variable] = &[];
        proof {
            assert(views(none@) =~= Seq::<VariableView>::empty());
        }
        VarContext { globals: none, group: none, env: none }
    }

    pub fn new(globals: &'a [Variable], group: &'a [Variable], env: &'a [Variable]) -> (r: Self)
        ensures
            r@ == (Layers {
                globals: views(globals@),
                group: views(group@),
                env: views(env@),
            }),
    {
        VarContext { globals, group, env }
    }

    fn lookup(&self, name: &str) -> (r: Option<&'a str>)
        ensures
            match r {
                Some(v) => table_value(self@, name@) == Some(v@),
                None => table_value(self@, name@) is None,
            },
    {
        if let Some(v) = find_in_layer(self.env, name) {
            return Some(v);
        }
        if let Some(v) = find_in_layer(self.group, name) {
            return Some(v);
        }
        find_in_layer(self.globals, name)
    }
}

/// The second of the day as `HH:MM:SS`.
pub open spec fn clock_text(rem: nat) -> Seq<char> {
    padded(rem / 3600, 2) + seq![':'] + padded(rem % 3600 / 60, 2) + seq![':'] + padded(
        rem % 60,
        2,
    )
}

/// A date and a second of the day as `YYYY-MM-DDTHH:MM:SSZ`.
pub open spec fn stamp_text(y: int, m: int, d: int, rem: nat) -> Seq<char> {
    day_text(y, m, d) + seq!['T'] + clock_text(rem) + seq!['Z']
}

/// The date of a day after 1970-01-01.
pub open spec fn date_of(days: int) -> (int, int, int) {
    choose|y: int, m: int, d: int| #[trigger] is_date(days, y, m, d)
}

/// A Unix time as `YYYY-MM-DDTHH:MM:SSZ`.
pub open spec fn iso_text(secs: nat) -> Seq<char> {
    let (y, m, d) = date_of((secs / 86400) as int);
    stamp_text(y, m, d, secs % 86400)
}

proof fn lemma_date_of(days: int, y: int, m: int, d: int)
    requires
        is_date(days, y, m, d),
    ensures
        date_of(days) == (y, m, d),
{
    let (y2, m2, d2) = date_of(days);
    crate::calendar::dates_are_unique(days, y, m, d, y2, m2, d2);
}

/// A date as `YYYY-MM-DD`.
pub open spec fn day_text(y: int, m: int, d: int) -> Seq<char> {
    padded(y as nat, 4) + seq!['-'] + padded(m as nat, 2) + seq!['-'] + padded(d as nat, 2)
}

fn push_day(out: &mut String, y: u64, m: u64, d: u64)
    ensures
        final(out)@ == old(out)@ + day_text(y as int, m as int, d as int),
{
    push_padded(out, y as u128, 4);
    out.push('-');
    push_padded(out, m as u128, 2);
    out.push('-');
    push_padded(out, d as u128, 2);
    proof {
        assert(out@ =~= old(out)@ + day_text(y as int, m as int, d as int));
    }
}

fn push_clock(out: &mut String, rem: u64)
    ensures
        final(out)@ == old(out)@ + clock_text(rem as nat),
{
    push_padded(out, (rem / 3600) as u128, 2);
    out.push(':');
    push_padded(out, (rem % 3600 / 60) as u128, 2);
    out.push(':');
    push_padded(out, (rem % 60) as u128, 2);
    proof {
        assert(out@ =~= old(out)@ + clock_text(rem as nat));
    }
}

/// Formats a Unix time as `YYYY-MM-DDTHH:MM:SSZ`.
pub fn iso_utc(secs: u64) -> (r: String)
    ensures
        r@ == iso_text(secs as nat),
        exists|y: int, m: int, d: int| #[trigger]
            is_date((secs / 86400) as int, y, m, d) && r@ == stamp_text(
                y,
                m,
                d,
                (secs % 86400) as nat,
            ),
{
    let date = civil_from_days(secs / 86400);
    let rem = secs % 86400;
    let mut out = String::new();
    push_day(&mut out, date.year, date.month, date.day);
    out.push('T');
    push_clock(&mut out, rem);
    out.push('Z');
    proof {
        lemma_date_of(
            (secs / 86400) as int,
            date.year as int,
            date.month as int,
            date.day as int,
        );
        assert(out@ =~= stamp_text(
            date.year as int,
            date.month as int,
            date.day as int,
            rem as nat,
        ));
    }
    out
}

/// What the built-in dynamic variables are worth for one session.
pub struct DynamicValues {
    /// Unix time read for `$timestamp`.
    pub timestamp: u64,
    /// Unix time read for `$isoTimestamp`.
    pub iso: u64,
    /// The text of `$randomUUID`.
    pub uuid: String,
    /// The text of `$guid`.
    pub guid: String,
    /// The draw behind `$randomInt`.
    pub random: u128,
}

pub struct DynamicView {
    pub timestamp: nat,
    pub iso: nat,
    pub uuid: Seq<char>,
    pub guid: Seq<char>,
    pub random: nat,
}

impl View for DynamicValues {
    type V = DynamicView;

    open spec fn view(&self) -> DynamicView {
        DynamicView {
            timestamp: self.timestamp as nat,
            iso: self.iso as nat,
            uuid: self.uuid@,
            guid: self.guid@,
            random: self.random as nat,
        }
    }
}

/// The text of a dynamic variable; `$randomInt` is in 0 to 1000.
pub open spec fn dynamic_text(d: DynamicView, name: Seq<char>) -> Option<Seq<char>> {
    if name == "$timestamp"@ {
        Some(decimal(d.timestamp))
    } else if name == "$isoTimestamp"@ {
        Some(iso_text(d.iso))
    } else if name == "$randomUUID"@ {
        Some(d.uuid)
    } else if name == "$guid"@ {
        Some(d.guid)
    } else if name == "$randomInt"@ {
        Some(decimal(d.random % 1001))
    } else {
        None
    }
}

fn dynamic_value(d: &DynamicValues, name: &str) -> (r: Option<String>)
    ensures
        match r {
            Some(v) => dynamic_text(d@, name@) == Some(v@),
            None => dynamic_text(d@, name@) is None,
        },
{
    if same_text(name, "$timestamp") {
        Some(decimal_text(d.timestamp as u128))
    } else if same_text(name, "$isoTimestamp") {
        Some(iso_utc(d.iso))
    } else if same_text(name, "$randomUUID") {
        Some(d.uuid.clone())
    } else if same_text(name, "$guid") {
        Some(d.guid.clone())
    } else if same_text(name, "$randomInt") {
        Some(decimal_text(d.random % 1001))
    } else {
        None
    }
}

/// Whether a character is a lower-case hexadecimal digit.
pub open spec fn is_hex(c: char) -> bool {
    '0' <= c <= '9' || 'a' <= c <= 'f'
}

/// Whether a text is that of a random UUID: hexadecimal digits in five groups
/// between hyphens, with the marks of version 4 and of its variant.
pub open spec fn uuid_form(s: Seq<char>) -> bool {
    &&& s.len() == 36
    &&& forall|i: int|
        0 <= i < 36 ==> if i == 8 || i == 13 || i == 18 || i == 23 {
            #[trigger] s[i] == '-'
        } else {
            is_hex(s[i])
        }
    &&& s[14] == '4'
    &&& s[19] == '8' || s[19] == '9' || s[19] == 'a' || s[19] == 'b'
}

/// `uuid::Uuid::new_v4` in its text form. Which digits it has is left to chance.
#[verifier::external_body]
fn random_uuid() -> (r: String)
    ensures
        uuid_form(r@),
{
    uuid::Uuid::new_v4().to_string()
}

/// `uuid::Uuid::new_v4` as a number, left to chance.
#[verifier::external_body]
fn random_number() -> u128 {
    uuid::Uuid::new_v4().as_u128()
}

/// The current Unix time in seconds: what `secs_of` makes of the clock. The clock
/// may read anything, so nothing is promised of the result.
fn unix_secs() -> u64 {
    crate::model::secs_of(crate::model::since_epoch())
}

/// What holds of all dynamic values that are drawn.
pub open spec fn drawn(d: DynamicView) -> bool {
    uuid_form(d.uuid) && uuid_form(d.guid)
}

impl DynamicValues {
    /// Reads the clock and draws the random values.
    pub fn draw() -> (r: DynamicValues)
        ensures
            drawn(r@),
    {
        DynamicValues {
            timestamp: unix_secs(),
            iso: unix_secs(),
            uuid: random_uuid(),
            guid: random_uuid(),
            random: random_number(),
        }
    }
}

/// Everything a name can be resolved from.
pub struct Scope {
    pub layers: Layers,
    pub dynamic: DynamicView,
}

/// The value of a name: dynamic names are never looked up in a table.
pub open spec fn value_in(scope: Scope, name: Seq<char>) -> Option<Seq<char>> {
    if is_dynamic_name(name) {
        dynamic_text(scope.dynamic, name)
    } else {
        table_value(scope.layers, name)
    }
}

pub open spec fn opening() -> Seq<char> {
    seq!['{', '{']
}

pub open spec fn closing() -> Seq<char> {
    seq!['}', '}']
}

/// The tail of `input` from offset `at` with its variables replaced; `stack`
/// holds the names whose values are being expanded.
pub open spec fn expand_from(
    scope: Scope,
    input: Seq<char>,
    at: int,
    stack: Seq<Seq<char>>,
) -> Seq<char>
    decreases MAX_DEPTH - stack.len(), input.len() - at,
{
    if at < 0 || at > input.len() || stack.len() > MAX_DEPTH {
        Seq::empty()
    } else {
        proof {
            lemma_first_index(input, opening(), at);
        }
        match first_index(input, opening(), at) {
            None => input.skip(at),
            Some(start) => {
                proof {
                    lemma_first_index(input, closing(), start + 2);
                }
                match first_index(input, closing(), start + 2) {
                    None => input.skip(at),
                    Some(end) => {
                        let name = trimmed(input.subrange(start + 2, end));
                        if !is_valid_name(name) {
                            input.subrange(at, start + 2) + expand_from(
                                scope,
                                input,
                                start + 2,
                                stack,
                            )
                        } else {
                            let head = input.subrange(at, start);
                            let tail = expand_from(scope, input, end + 2, stack);
                            let value = value_in(scope, name);
                            if value is Some && stack.len() < MAX_DEPTH && !stack.contains(name) {
                                head + expand_from(scope, value->0, 0, stack.push(name)) + tail
                            } else {
                                head + input.subrange(start, end + 2) + tail
                            }
                        }
                    },
                }
            },
        }
    }
}

/// The names that stay unresolved when the tail of `input` from `at` is
/// expanded.
pub open spec fn unresolved_from(
    scope: Scope,
    input: Seq<char>,
    at: int,
    stack: Seq<Seq<char>>,
) -> Set<Seq<char>>
    decreases MAX_DEPTH - stack.len(), input.len() - at,
{
    if at < 0 || at > input.len() || stack.len() > MAX_DEPTH {
        Set::empty()
    } else {
        proof {
            lemma_first_index(input, opening(), at);
        }
        match first_index(input, opening(), at) {
            None => Set::empty(),
            Some(start) => {
                proof {
                    lemma_first_index(input, closing(), start + 2);
                }
                match first_index(input, closing(), start + 2) {
                    None => Set::empty(),
                    Some(end) => {
                        let name = trimmed(input.subrange(start + 2, end));
                        if !is_valid_name(name) {
                            unresolved_from(scope, input, start + 2, stack)
                        } else {
                            let tail = unresolved_from(scope, input, end + 2, stack);
                            let value = value_in(scope, name);
                            if value is Some && stack.len() < MAX_DEPTH && !stack.contains(name) {
                                unresolved_from(scope, value->0, 0, stack.push(name)).union(tail)
                            } else {
                                set![name].union(tail)
                            }
                        }
                    },
                }
            },
        }
    }
}

/// `input` with its variables replaced.
pub open spec fn expanded(scope: Scope, input: Seq<char>) -> Seq<char> {
    expand_from(scope, input, 0, Seq::empty())
}

/// The names in `input` that stay unresolved.
pub open spec fn unresolved_in(scope: Scope, input: Seq<char>) -> Set<Seq<char>> {
    unresolved_from(scope, input, 0, Seq::empty())
}

/// One session of substitution: dynamic variables keep their value throughout,
/// and unresolved names add up.
pub struct Resolver<'a> {
    ctx: &'a VarContext<'a>,
    dynamic: DynamicValues,
    unresolved: NameSet,
}

impl<'a> Resolver<'a> {
    /// What the session resolves from.
    pub closed spec fn scope(&self) -> Scope {
        Scope { layers: self.ctx@, dynamic: self.dynamic@ }
    }

    /// The unresolved names so far.
    pub closed spec fn pending(&self) -> Set<Seq<char>> {
        self.unresolved@
    }

    /// A session on given dynamic values.
    pub fn with_dynamic(ctx: &'a VarContext<'a>, dynamic: DynamicValues) -> (r: Self)
        ensures
            r.scope() == (Scope { layers: ctx@, dynamic: dynamic@ }),
            r.pending() == Set::<Seq<char>>::empty(),
    {
        Resolver { ctx, dynamic, unresolved: NameSet::new() }
    }

    /// A session on dynamic values of its own.
    pub fn new(ctx: &'a VarContext<'a>) -> (r: Self)
        ensures
            r.scope().layers == ctx@,
            drawn(r.scope().dynamic),
            r.pending() == Set::<Seq<char>>::empty(),
    {
        Self::with_dynamic(ctx, DynamicValues::draw())
    }

    /// Replaces the variables of `input`; a text without `{{` is handed back.
    pub fn resolve<'s>(&mut self, input: &'s str) -> (r: Cow<'s, str>)
        ensures
            r@ == expanded(old(self).scope(), input@),
            final(self).scope() == old(self).scope(),
            final(self).pending() == old(self).pending().union(
                unresolved_in(old(self).scope(), input@),
            ),
            r is Borrowed <==> first_index(input@, opening(), 0) is None,
    {
        let chars = chars_of(input);
        let open = ['{', '{'];
        if find_chars(chars.as_slice(), open.as_slice(), 0).is_none() {
            proof {
                assert(open@ =~= opening());
                assert(input@.skip(0) =~= input@);
                assert(self.pending() =~= old(self).pending().union(
                    unresolved_in(old(self).scope(), input@),
                ));
            }
            return Cow::Borrowed(input);
        }
        let mut stack: Vec<String> = Vec::new();
        let out = self.expand(&chars, &mut stack);
        proof {
            assert(open@ =~= opening());
            assert(views(Seq::<String>::empty()) =~= Seq::<Seq<char>>::empty());
            assert(out@.subrange(0, out@.len() as int) =~= out@);
        }
        Cow::Owned(string_of(out.as_slice(), 0, out.len()))
    }

    /// Replaces the variables of `s` in place.
    pub fn resolve_in(&mut self, s: &mut String)
        ensures
            final(s)@ == expanded(old(self).scope(), old(s)@),
            final(self).scope() == old(self).scope(),
            final(self).pending() == old(self).pending().union(
                unresolved_in(old(self).scope(), old(s)@),
            ),
    {
        let replaced = match self.resolve(s.as_str()) {
            Cow::Owned(text) => Some(text),
            Cow::Borrowed(_) => None,
        };
        if let Some(text) = replaced {
            *s = text;
        }
    }

    /// The names that stayed unresolved in this session.
    pub fn finish(self) -> (r: NameSet)
        ensures
            r@ == self.pending(),
    {
        self.unresolved
    }

    fn value_of(&self, name: &str) -> (r: Option<String>)
        ensures
            match r {
                Some(v) => value_in(self.scope(), name@) == Some(v@),
                None => value_in(self.scope(), name@) is None,
            },
    {
        if is_dynamic(name) {
            dynamic_value(&self.dynamic, name)
        } else {
            match self.ctx.lookup(name) {
                Some(v) => Some(v.to_owned()),
                None => None,
            }
        }
    }

    /// Expands `input`; `stack` holds the names whose values are being expanded.
    fn expand(&mut self, input: &Vec<char>, stack: &mut Vec<String>) -> (out: Vec<char>)
        requires
            old(stack)@.len() <= MAX_DEPTH,
        ensures
            views(final(stack)@) == views(old(stack)@),
            final(self).scope() == old(self).scope(),
            out@ == expand_from(old(self).scope(), input@, 0, views(old(stack)@)),
            final(self).pending() == old(self).pending().union(
                unresolved_from(old(self).scope(), input@, 0, views(old(stack)@)),
            ),
        decreases MAX_DEPTH - old(stack)@.len(),
    {
        let ghost scope = self.scope();
        let ghost names = views(stack@);
        let open = ['{', '{'];
        let close = ['}', '}'];
        proof {
            assert(open@ =~= opening());
            assert(close@ =~= closing());
        }
        let mut out: Vec<char> = Vec::new();
        let mut at: usize = 0;
        let mut done = false;
        let n = input.len();
        while !done
            invariant
                n == input@.len(),
                open@ == opening(),
                close@ == closing(),
                stack@.len() <= MAX_DEPTH,
                stack@.len() == old(stack)@.len(),
                views(stack@) == names,
                names == views(old(stack)@),
                scope == old(self).scope(),
                self.scope() == scope,
                at <= input@.len(),
                !done ==> out@ + expand_from(scope, input@, at as int, names) == expand_from(
                    scope,
                    input@,
                    0,
                    names,
                ),
                !done ==> self.pending().union(unresolved_from(scope, input@, at as int, names))
                    == old(self).pending().union(unresolved_from(scope, input@, 0, names)),
                done ==> out@ == expand_from(scope, input@, 0, names),
                done ==> self.pending() == old(self).pending().union(
                    unresolved_from(scope, input@, 0, names),
                ),
            decreases
                input@.len() - at,
                if done {
                    0int
                } else {
                    1int
                },
        {
            let start = match find_chars(input.as_slice(), open.as_slice(), at) {
                Some(i) => i,
                None => {
                    push_range(&mut out, input, at, input.len());
                    proof {
                        assert(input@.skip(at as int) =~= input@.subrange(
                            at as int,
                            input@.len() as int,
                        ));
                        assert(self.pending() =~= self.pending().union(
                            unresolved_from(scope, input@, at as int, names),
                        ));
                    }
                    done = true;
                    continue;
                },
            };
            let end = match find_chars(input.as_slice(), close.as_slice(), start + 2) {
                Some(i) => i,
                None => {
                    push_range(&mut out, input, at, input.len());
                    proof {
                        assert(input@.skip(at as int) =~= input@.subrange(
                            at as int,
                            input@.len() as int,
                        ));
                        assert(self.pending() =~= self.pending().union(
                            unresolved_from(scope, input@, at as int, names),
                        ));
                    }
                    done = true;
                    continue;
                },
            };
            let raw = string_of(input.as_slice(), start + 2, end);
            let name = trim(raw.as_str());
            let ghost before = out@;
            if !valid_name(name.as_str()) {
                push_range(&mut out, input, at, start + 2);
                proof {
                    let tail = expand_from(scope, input@, start + 2, names);
                    assert(out@ + tail =~= before + (input@.subrange(at as int, start + 2) + tail));
                }
                at = start + 2;
                continue;
            }
            push_range(&mut out, input, at, start);
            let ghost head = out@;
            let ghost known = self.pending();
            let ghost tail = expand_from(scope, input@, end + 2, names);
            let ghost rest = unresolved_from(scope, input@, end + 2, names);
            let value = self.value_of(name.as_str());
            let usable = stack.len() < MAX_DEPTH && !holds(stack, name.as_str());
            match value {
                Some(text) if usable => {
                    let inner = chars_of(text.as_str());
                    let ghost inner_name = name@;
                    stack.push(name);
                    proof {
                        assert(views(stack@) =~= names.push(inner_name));
                    }
                    let mut part = self.expand(&inner, stack);
                    let ghost part_view = part@;
                    let ghost deep = stack@;
                    let _ = stack.pop();
                    proof {
                        assert(views(deep) == names.push(inner_name));
                        assert(deep.len() == views(deep).len());
                        assert(stack@ =~= deep.drop_last());
                        assert(views(stack@) =~= views(deep).drop_last());
                        assert(names.push(inner_name).drop_last() =~= names);
                    }
                    out.append(&mut part);
                    proof {
                        assert(out@ + tail =~= before + (input@.subrange(at as int, start as int)
                            + part_view + tail));
                        let mid = unresolved_from(scope, inner@, 0, names.push(inner_name));
                        assert(self.pending().union(rest) =~= known.union(mid.union(rest)));
                    }
                },
                _ => {
                    push_range(&mut out, input, start, end + 2);
                    self.unresolved.insert(name.as_str());
                    proof {
                        assert(out@ + tail =~= before + (input@.subrange(at as int, start as int)
                            + input@.subrange(start as int, end + 2) + tail));
                        assert(self.pending().union(rest) =~= known.union(
                            set![name@].union(rest),
                        ));
                    }
                },
            }
            at = end + 2;
        }
        out
    }
}

/// Appends `input[from..to]`.
fn push_range(out: &mut Vec<char>, input: &Vec<char>, from: usize, to: usize)
    requires
        from <= to <= input@.len(),
    ensures
        final(out)@ == old(out)@ + input@.subrange(from as int, to as int),
{
    let mut i: usize = from;
    while i < to
        invariant
            from <= i <= to <= input@.len(),
            out@ == old(out)@ + input@.subrange(from as int, i as int),
        decreases to - i,
    {
        out.push(input[i]);
        i = i + 1;
        proof {
            assert(out@ =~= old(out)@ + input@.subrange(from as int, i as int));
        }
    }
    proof {
        assert(out@ =~= old(out)@ + input@.subrange(from as int, to as int));
    }
}

/// Whether `name` is in `names`.
fn holds(names: &Vec<String>, name: &str) -> (r: bool)
    ensures
        r == views(names@).contains(name@),
{
    let mut i: usize = 0;
    while i < names.len()
        invariant
            i <= names@.len(),
            forall|k: int| 0 <= k < i ==> names@[k]@ != name@,
        decreases names@.len() - i,
    {
        if same_text(names[i].as_str(), name) {
            proof {
                assert(views(names@)[i as int] == name@);
            }
            return true;
        }
        i = i + 1;
    }
    proof {
        if views(names@).contains(name@) {
            let k = choose|k: int| 0 <= k < views(names@).len() && views(names@)[k] == name@;
            assert(names@[k]@ == name@);
        }
    }
    false
}

/// A row with its variables replaced; a disabled row stays as it is, and the key
/// only counts where `keys` says so.
pub open spec fn resolved_row(scope: Scope, row: KeyValueView, keys: bool) -> KeyValueView {
    if !row.enabled {
        row
    } else {
        KeyValueView {
            key: if keys {
                expanded(scope, row.key)
            } else {
                row.key
            },
            value: expanded(scope, row.value),
            enabled: true,
        }
    }
}

pub open spec fn row_unresolved(scope: Scope, row: KeyValueView, keys: bool) -> Set<Seq<char>> {
    if !row.enabled {
        Set::empty()
    } else if keys {
        unresolved_in(scope, row.key).union(unresolved_in(scope, row.value))
    } else {
        unresolved_in(scope, row.value)
    }
}

pub open spec fn resolved_rows(
    scope: Scope,
    rows: Seq<KeyValueView>,
    keys: bool,
) -> Seq<KeyValueView> {
    rows.map_values(|row: KeyValueView| resolved_row(scope, row, keys))
}

pub open spec fn rows_unresolved(
    scope: Scope,
    rows: Seq<KeyValueView>,
    keys: bool,
) -> Set<Seq<char>>
    decreases rows.len(),
{
    if rows.len() == 0 {
        Set::empty()
    } else {
        rows_unresolved(scope, rows.drop_last(), keys).union(
            row_unresolved(scope, rows.last(), keys),
        )
    }
}

/// A multipart field with its variables replaced; a disabled one stays as it is.
pub open spec fn resolved_field(scope: Scope, f: FormFieldView) -> FormFieldView {
    if !f.enabled {
        f
    } else {
        FormFieldView {
            key: expanded(scope, f.key),
            value: match f.value {
                FormValueView::Text { value } => FormValueView::Text {
                    value: expanded(scope, value),
                },
                FormValueView::File { path, content_type } => FormValueView::File {
                    path: expanded(scope, path),
                    content_type,
                },
            },
            enabled: true,
        }
    }
}

pub open spec fn field_unresolved(scope: Scope, f: FormFieldView) -> Set<Seq<char>> {
    if !f.enabled {
        Set::empty()
    } else {
        unresolved_in(scope, f.key).union(
            match f.value {
                FormValueView::Text { value } => unresolved_in(scope, value),
                FormValueView::File { path, .. } => unresolved_in(scope, path),
            },
        )
    }
}

pub open spec fn fields_unresolved(scope: Scope, fields: Seq<FormFieldView>) -> Set<Seq<char>>
    decreases fields.len(),
{
    if fields.len() == 0 {
        Set::empty()
    } else {
        fields_unresolved(scope, fields.drop_last()).union(field_unresolved(scope, fields.last()))
    }
}

pub open spec fn resolved_body(scope: Scope, body: BodyKindView) -> BodyKindView {
    match body {
        BodyKindView::Empty => BodyKindView::Empty,
        BodyKindView::Raw { format, text } => BodyKindView::Raw {
            format,
            text: expanded(scope, text),
        },
        BodyKindView::FormData { fields } => BodyKindView::FormData {
            fields: fields.map_values(|f: FormFieldView| resolved_field(scope, f)),
        },
        BodyKindView::FormUrlEncoded { fields } => BodyKindView::FormUrlEncoded {
            fields: resolved_rows(scope, fields, true),
        },
        BodyKindView::File { path, content_type } => BodyKindView::File {
            path: expanded(scope, path),
            content_type,
        },
    }
}

pub open spec fn body_unresolved(scope: Scope, body: BodyKindView) -> Set<Seq<char>> {
    match body {
        BodyKindView::Empty => Set::empty(),
        BodyKindView::Raw { text, .. } => unresolved_in(scope, text),
        BodyKindView::FormData { fields } => fields_unresolved(scope, fields),
        BodyKindView::FormUrlEncoded { fields } => rows_unresolved(scope, fields, true),
        BodyKindView::File { path, .. } => unresolved_in(scope, path),
    }
}

/// An assertion's expected text is replaced; everything else of an operation
/// stays as it is.
pub open spec fn resolved_post_op(scope: Scope, op: PostOpView) -> PostOpView {
    if !op.enabled {
        op
    } else {
        match op.kind {
            PostOpKindView::Extract { .. } => op,
            PostOpKindView::Assert { subject, op: check, expected } => PostOpView {
                enabled: true,
                kind: PostOpKindView::Assert {
                    subject,
                    op: check,
                    expected: expanded(scope, expected),
                },
            },
        }
    }
}

pub open spec fn post_op_unresolved(scope: Scope, op: PostOpView) -> Set<Seq<char>> {
    if !op.enabled {
        Set::empty()
    } else {
        match op.kind {
            PostOpKindView::Extract { .. } => Set::empty(),
            PostOpKindView::Assert { expected, .. } => unresolved_in(scope, expected),
        }
    }
}

pub open spec fn post_ops_unresolved(scope: Scope, ops: Seq<PostOpView>) -> Set<Seq<char>>
    decreases ops.len(),
{
    if ops.len() == 0 {
        Set::empty()
    } else {
        post_ops_unresolved(scope, ops.drop_last()).union(post_op_unresolved(scope, ops.last()))
    }
}

/// A request with its variables replaced. Keys of path parameters and the
/// operations before sending stay as they are.
pub open spec fn resolved_draft(scope: Scope, d: DraftView) -> DraftView {
    DraftView {
        method: d.method,
        url: expanded(scope, d.url),
        path_params: resolved_rows(scope, d.path_params, false),
        params: resolved_rows(scope, d.params, true),
        headers: resolved_rows(scope, d.headers, true),
        body: resolved_body(scope, d.body),
        pre_ops: d.pre_ops,
        post_ops: d.post_ops.map_values(|op: PostOpView| resolved_post_op(scope, op)),
    }
}

/// The names that stay unresolved anywhere in a request.
pub open spec fn draft_unresolved(scope: Scope, d: DraftView) -> Set<Seq<char>> {
    unresolved_in(scope, d.url).union(rows_unresolved(scope, d.path_params, false)).union(
        rows_unresolved(scope, d.params, true),
    ).union(rows_unresolved(scope, d.headers, true)).union(body_unresolved(scope, d.body)).union(
        post_ops_unresolved(scope, d.post_ops),
    )
}

/// A request with its variables replaced, and the names that stayed unresolved.
#[derive(Debug, PartialEq, Eq)]
pub struct Resolved {
    pub draft: RequestDraft,
    pub unresolved: NameSet,
}

fn resolve_text(r: &mut Resolver, s: &str) -> (out: String)
    ensures
        out@ == expanded(old(r).scope(), s@),
        final(r).scope() == old(r).scope(),
        final(r).pending() == old(r).pending().union(unresolved_in(old(r).scope(), s@)),
{
    let mut out = s.to_owned();
    r.resolve_in(&mut out);
    out
}

fn resolve_row(r: &mut Resolver, row: &KeyValue, keys: bool) -> (out: KeyValue)
    ensures
        out@ == resolved_row(old(r).scope(), row@, keys),
        final(r).scope() == old(r).scope(),
        final(r).pending() == old(r).pending().union(
            row_unresolved(old(r).scope(), row@, keys),
        ),
{
    let ghost scope = r.scope();
    if !row.enabled {
        proof {
            assert(r.pending() =~= old(r).pending().union(Set::empty()));
        }
        return row.clone();
    }
    let key = if keys {
        resolve_text(r, row.key.as_str())
    } else {
        row.key.clone()
    };
    let value = resolve_text(r, row.value.as_str());
    proof {
        assert(r.pending() =~= old(r).pending().union(row_unresolved(scope, row@, keys)));
    }
    KeyValue { key, value, enabled: true }
}

fn resolve_kvs(r: &mut Resolver, rows: &Vec<KeyValue>, keys: bool) -> (out: Vec<KeyValue>)
    ensures
        views(out@) == resolved_rows(old(r).scope(), views(rows@), keys),
        final(r).scope() == old(r).scope(),
        final(r).pending() == old(r).pending().union(
            rows_unresolved(old(r).scope(), views(rows@), keys),
        ),
{
    let ghost scope = r.scope();
    let ghost all = views(rows@);
    let mut out: Vec<KeyValue> = Vec::new();
    let mut i: usize = 0;
    proof {
        assert(all.take(0) =~= Seq::<KeyValueView>::empty());
        assert(r.pending() =~= old(r).pending().union(Set::empty()));
    }
    while i < rows.len()
        invariant
            all == views(rows@),
            i <= rows@.len(),
            scope == old(r).scope(),
            r.scope() == scope,
            views(out@) == resolved_rows(scope, all.take(i as int), keys),
            r.pending() == old(r).pending().union(
                rows_unresolved(scope, all.take(i as int), keys),
            ),
        decreases rows@.len() - i,
    {
        let row = resolve_row(r, &rows[i], keys);
        let ghost done = out@;
        out.push(row);
        proof {
            assert(all[i as int] == rows@[i as int]@);
            assert(all.take(i + 1).drop_last() =~= all.take(i as int));
            assert(views(out@) =~= resolved_rows(scope, all.take(i + 1), keys)) by {
                assert(views(out@) =~= views(done).push(row@));
            }
            assert(r.pending() =~= old(r).pending().union(
                rows_unresolved(scope, all.take(i + 1), keys),
            ));
        }
        i = i + 1;
    }
    proof {
        assert(all.take(i as int) =~= all);
    }
    out
}

fn resolve_path(r: &mut Resolver, path: &str) -> (out: String)
    ensures
        out@ == expanded(old(r).scope(), path@),
        final(r).scope() == old(r).scope(),
        final(r).pending() == old(r).pending().union(unresolved_in(old(r).scope(), path@)),
{
    resolve_text(r, path)
}

fn resolve_field(r: &mut Resolver, f: &FormField) -> (out: FormField)
    ensures
        out@ == resolved_field(old(r).scope(), f@),
        final(r).scope() == old(r).scope(),
        final(r).pending() == old(r).pending().union(field_unresolved(old(r).scope(), f@)),
{
    let ghost scope = r.scope();
    if !f.enabled {
        proof {
            assert(r.pending() =~= old(r).pending().union(Set::empty()));
        }
        return f.clone();
    }
    let key = resolve_text(r, f.key.as_str());
    let value = match &f.value {
        FormValue::Text { value } => FormValue::Text { value: resolve_text(r, value.as_str()) },
        FormValue::File { path, content_type } => FormValue::File {
            path: resolve_path(r, path.as_str()),
            content_type: crate::model::clone_text(content_type),
        },
    };
    proof {
        assert(r.pending() =~= old(r).pending().union(field_unresolved(scope, f@)));
    }
    FormField { key, value, enabled: true }
}

fn resolve_fields(r: &mut Resolver, fields: &Vec<FormField>) -> (out: Vec<FormField>)
    ensures
        views(out@) == views(fields@).map_values(
            |f: FormFieldView| resolved_field(old(r).scope(), f),
        ),
        final(r).scope() == old(r).scope(),
        final(r).pending() == old(r).pending().union(
            fields_unresolved(old(r).scope(), views(fields@)),
        ),
{
    let ghost scope = r.scope();
    let ghost all = views(fields@);
    let mut out: Vec<FormField> = Vec::new();
    let mut i: usize = 0;
    proof {
        assert(all.take(0) =~= Seq::<FormFieldView>::empty());
        assert(r.pending() =~= old(r).pending().union(Set::empty()));
    }
    while i < fields.len()
        invariant
            all == views(fields@),
            i <= fields@.len(),
            scope == old(r).scope(),
            r.scope() == scope,
            views(out@) == all.take(i as int).map_values(
                |f: FormFieldView| resolved_field(scope, f),
            ),
            r.pending() == old(r).pending().union(fields_unresolved(scope, all.take(i as int))),
        decreases fields@.len() - i,
    {
        let f = resolve_field(r, &fields[i]);
        let ghost done = out@;
        out.push(f);
        proof {
            assert(all[i as int] == fields@[i as int]@);
            assert(all.take(i + 1).drop_last() =~= all.take(i as int));
            assert(views(out@) =~= all.take(i + 1).map_values(
                |f: FormFieldView| resolved_field(scope, f),
            )) by {
                assert(views(out@) =~= views(done).push(f@));
            }
            assert(r.pending() =~= old(r).pending().union(
                fields_unresolved(scope, all.take(i + 1)),
            ));
        }
        i = i + 1;
    }
    proof {
        assert(all.take(i as int) =~= all);
    }
    out
}

fn resolve_body(r: &mut Resolver, body: &BodyKind) -> (out: BodyKind)
    ensures
        out@ == resolved_body(old(r).scope(), body@),
        final(r).scope() == old(r).scope(),
        final(r).pending() == old(r).pending().union(body_unresolved(old(r).scope(), body@)),
{
    match body {
        BodyKind::Empty => {
            proof {
                assert(r.pending() =~= old(r).pending().union(Set::empty()));
            }
            BodyKind::Empty
        },
        BodyKind::Raw { format, text } => BodyKind::Raw {
            format: *format,
            text: resolve_text(r, text.as_str()),
        },
        BodyKind::FormData { fields } => BodyKind::FormData { fields: resolve_fields(r, fields) },
        BodyKind::FormUrlEncoded { fields } => BodyKind::FormUrlEncoded {
            fields: resolve_kvs(r, fields, true),
        },
        BodyKind::File { path, content_type } => BodyKind::File {
            path: resolve_path(r, path.as_str()),
            content_type: crate::model::clone_text(content_type),
        },
    }
}

fn resolve_post_op(r: &mut Resolver, op: &PostOp) -> (out: PostOp)
    ensures
        out@ == resolved_post_op(old(r).scope(), op@),
        final(r).scope() == old(r).scope(),
        final(r).pending() == old(r).pending().union(post_op_unresolved(old(r).scope(), op@)),
{
    if op.enabled {
        if let PostOpKind::Assert { subject, op: check, expected } = &op.kind {
            return PostOp {
                enabled: true,
                kind: PostOpKind::Assert {
                    subject: subject.clone(),
                    op: *check,
                    expected: resolve_text(r, expected.as_str()),
                },
            };
        }
    }
    proof {
        assert(r.pending() =~= old(r).pending().union(Set::empty()));
    }
    op.clone()
}

fn resolve_post_ops(r: &mut Resolver, ops: &Vec<PostOp>) -> (out: Vec<PostOp>)
    ensures
        views(out@) == views(ops@).map_values(
            |op: PostOpView| resolved_post_op(old(r).scope(), op),
        ),
        final(r).scope() == old(r).scope(),
        final(r).pending() == old(r).pending().union(
            post_ops_unresolved(old(r).scope(), views(ops@)),
        ),
{
    let ghost scope = r.scope();
    let ghost all = views(ops@);
    let mut out: Vec<PostOp> = Vec::new();
    let mut i: usize = 0;
    proof {
        assert(all.take(0) =~= Seq::<PostOpView>::empty());
        assert(r.pending() =~= old(r).pending().union(Set::empty()));
    }
    while i < ops.len()
        invariant
            all == views(ops@),
            i <= ops@.len(),
            scope == old(r).scope(),
            r.scope() == scope,
            views(out@) == all.take(i as int).map_values(
                |op: PostOpView| resolved_post_op(scope, op),
            ),
            r.pending() == old(r).pending().union(post_ops_unresolved(scope, all.take(i as int))),
        decreases ops@.len() - i,
    {
        let op = resolve_post_op(r, &ops[i]);
        let ghost done = out@;
        out.push(op);
        proof {
            assert(all[i as int] == ops@[i as int]@);
            assert(all.take(i + 1).drop_last() =~= all.take(i as int));
            assert(views(out@) =~= all.take(i + 1).map_values(
                |op: PostOpView| resolved_post_op(scope, op),
            )) by {
                assert(views(out@) =~= views(done).push(op@));
            }
            assert(r.pending() =~= old(r).pending().union(
                post_ops_unresolved(scope, all.take(i + 1)),
            ));
        }
        i = i + 1;
    }
    proof {
        assert(all.take(i as int) =~= all);
    }
    out
}

/// Whether `out` is `draft` with its variables replaced, and reports what stayed
/// unresolved.
pub open spec fn is_resolution(
    out: Resolved,
    draft: DraftView,
    layers: Layers,
    dynamic: DynamicView,
) -> bool {
    let scope = Scope { layers, dynamic };
    &&& out.draft@ == resolved_draft(scope, draft)
    &&& out.unresolved@ == draft_unresolved(scope, draft)
}

/// Replaces the variables of a request, on given dynamic values.
pub fn resolve_draft_with(
    draft: &RequestDraft,
    ctx: &VarContext,
    dynamic: DynamicValues,
) -> (out: Resolved)
    ensures
        is_resolution(out, draft@, ctx@, dynamic@),
{
    let ghost scope = Scope { layers: ctx@, dynamic: dynamic@ };
    let mut r = Resolver::with_dynamic(ctx, dynamic);
    let url = resolve_text(&mut r, draft.url.as_str());
    let path_params = resolve_kvs(&mut r, &draft.path_params, false);
    let params = resolve_kvs(&mut r, &draft.params, true);
    let headers = resolve_kvs(&mut r, &draft.headers, true);
    let body = resolve_body(&mut r, &draft.body);
    let post_ops = resolve_post_ops(&mut r, &draft.post_ops);
    let pre_ops = draft.pre_ops.clone();
    let out = RequestDraft {
        method: draft.method,
        url,
        path_params,
        params,
        headers,
        body,
        pre_ops,
        post_ops,
    };
    proof {
        assert(views(pre_ops@) =~= views(draft.pre_ops@));
        assert(out@ =~= resolved_draft(scope, draft@));
        assert(r.pending() =~= draft_unresolved(scope, draft@));
    }
    Resolved { draft: out, unresolved: r.finish() }
}

/// Replaces the variables of a request. Only enabled rows are touched.
pub fn resolve_draft(draft: &RequestDraft, ctx: &VarContext) -> (out: Resolved)
    ensures
        exists|dynamic: DynamicView| #[trigger]
            is_resolution(out, draft@, ctx@, dynamic) && drawn(dynamic),
{
    let dynamic = DynamicValues::draw();
    let ghost d = dynamic@;
    let out = resolve_draft_with(draft, ctx, dynamic);
    proof {
        assert(is_resolution(out, draft@, ctx@, d));
    }
    out
}

/// A text without `{{` is left as it is, and nothing in it is unresolved.
pub proof fn plain_text_is_untouched(scope: Scope, input: Seq<char>)
    requires
        forall|i: int|
            0 <= i < input.len() - 1 ==> !(#[trigger] input[i] == '{' && input[i + 1] == '{'),
    ensures
        expanded(scope, input) == input,
        unresolved_in(scope, input) == Set::<Seq<char>>::empty(),
{
    lemma_first_index(input, opening(), 0);
    if let Some(k) = first_index(input, opening(), 0) {
        assert(input.subrange(k, k + 2)[0] == input[k]);
        assert(input.subrange(k, k + 2)[1] == input[k + 1]);
    }
    assert(input.skip(0) =~= input);
}

/// A higher layer hides a lower one: what the environment defines is taken from
/// it, what only the group and the globals define from the group.
pub proof fn higher_layer_wins(layers: Layers, name: Seq<char>)
    ensures
        layer_value(layers.env, name) is Some ==> table_value(layers, name) == layer_value(
            layers.env,
            name,
        ),
        layer_value(layers.env, name) is None && layer_value(layers.group, name) is Some
            ==> table_value(layers, name) == layer_value(layers.group, name),
        layer_value(layers.env, name) is None && layer_value(layers.group, name) is None
            ==> table_value(layers, name) == layer_value(layers.globals, name),
{
}

/// A layer is worth its first enabled entry of that name; disabled entries and
/// later ones do not count.
pub proof fn first_enabled_entry_wins(layer: Seq<VariableView>, name: Seq<char>, k: int)
    requires
        0 <= k < layer.len(),
        layer[k].enabled && layer[k].key == name,
        forall|i: int| 0 <= i < k ==> !(#[trigger] layer[i].enabled && layer[i].key == name),
    ensures
        layer_value(layer, name) == Some(layer[k].value),
    decreases k,
{
    if k > 0 {
        assert(!(layer[0].enabled && layer[0].key == name));
        assert(layer.skip(1)[k - 1] == layer[k]);
        assert forall|i: int| 0 <= i < k - 1 implies !(#[trigger] layer.skip(1)[i].enabled
            && layer.skip(1)[i].key == name) by {
            assert(layer.skip(1)[i] == layer[i + 1]);
        }
        first_enabled_entry_wins(layer.skip(1), name, k - 1);
    }
}

/// No table can change what a dynamic name is worth.
pub proof fn dynamic_names_cannot_be_shadowed(a: Layers, b: Layers, d: DynamicView, name: Seq<char>)
    requires
        is_dynamic_name(name),
    ensures
        value_in(Scope { layers: a, dynamic: d }, name) == value_in(
            Scope { layers: b, dynamic: d },
            name,
        ),
{
}

/// A reference to an undefined name is kept as it is written, and the name is
/// reported.
pub proof fn undefined_names_are_kept(scope: Scope, name: Seq<char>)
    requires
        is_valid_name(name),
        trimmed(name) == name,
        value_in(scope, name) is None,
    ensures
        expanded(scope, opening() + name + closing()) == opening() + name + closing(),
        unresolved_in(scope, opening() + name + closing()) == set![name],
{
    let input = opening() + name + closing();
    let n = name.len() as int;
    assert(input.subrange(0, 2) =~= opening());
    crate::strings::lemma_first_index_is(input, opening(), 0, 0);
    assert(input.subrange(n + 2, n + 4) =~= closing());
    assert forall|j: int| 2 <= j < n + 2 implies !crate::strings::occurs_at(input, closing(), j) by {
        assert(input[j] == name[j - 2]);
        assert(input.subrange(j, j + 2)[0] == input[j]);
    }
    crate::strings::lemma_first_index_is(input, closing(), 2, n + 2);
    assert(input.subrange(2, n + 2) =~= name);
    reveal_with_fuel(expand_from, 2);
    reveal_with_fuel(unresolved_from, 2);
    lemma_first_index(input, opening(), n + 4);
    assert(expanded(scope, input) =~= input);
    assert(unresolved_in(scope, input) =~= set![name]);
}

} // verus!
