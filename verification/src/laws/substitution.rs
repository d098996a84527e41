//! Laws of substitution: what becomes of the references in a text and in every
//! part of a request.
use crate::laws::text::{
    blank, decimal_texts_read_back, lemma_shifted_index, read_decimal, tight,
    trimming_takes_the_ends,
};
use crate::model::{
    BodyKindView, DraftView, FormValueView, KeyValueView, PostOpKindView, VariableView,
};
use crate::strings::{first_index, lemma_first_index, lemma_first_index_is, occurs_at, trimmed};
use crate::vars::{
    closing, draft_unresolved, expand_from, expanded, fields_unresolved, first_enabled_entry_wins,
    is_resolution, layer_value, opening, post_ops_unresolved, resolved_draft, rows_unresolved,
    unresolved_from, unresolved_in, value_in, DynamicView, Layers, Resolved, Scope,
};
use vstd::prelude::*;

verus! {

/// A text that can name a variable: one to 128 bytes, no brace and no line break.
pub open spec fn nameable(name: Seq<char>) -> bool {
    &&& 1 <= vstd::utf8::encode_utf8(name).len() <= 128
    &&& name.len() > 0
    &&& forall|i: int|
        0 <= i < name.len() ==> #[trigger] name[i] != '{' && name[i] != '}' && name[i] != '\n'
            && name[i] != '\r'
}

/// A text without `{{`.
pub open spec fn refers_to_nothing(s: Seq<char>) -> bool {
    forall|i: int| 0 <= i < s.len() - 1 ==> !(#[trigger] s[i] == '{' && s[i + 1] == '{')
}

/// A text in which no reference begins, also with more text behind it: no two opening
/// braces in a row, and none at its end.
pub open spec fn opens_nothing(s: Seq<char>) -> bool {
    forall|i: int|
        0 <= i < s.len() && #[trigger] s[i] == '{' ==> i + 1 < s.len() && s[i + 1] != '{'
}

/// A text in which no reference ends, also with more text behind it.
pub open spec fn closes_nothing(s: Seq<char>) -> bool {
    forall|i: int|
        0 <= i < s.len() && #[trigger] s[i] == '}' ==> i + 1 < s.len() && s[i + 1] != '}'
}

/// A stretch of a text: characters that stand for themselves, or a reference,
/// with white space around its name.
pub enum Piece {
    Plain(Seq<char>),
    Reference { left: Seq<char>, name: Seq<char>, right: Seq<char> },
}

/// How a stretch is written.
pub open spec fn spelling(p: Piece) -> Seq<char> {
    match p {
        Piece::Plain(text) => text,
        Piece::Reference { left, name, right } => seq!['{', '{'] + left + name + right + seq![
            '}',
            '}',
        ],
    }
}

/// How stretches are written one after the other.
pub open spec fn spelled_out(pieces: Seq<Piece>) -> Seq<char>
    decreases pieces.len(),
{
    if pieces.len() == 0 {
        Seq::empty()
    } else {
        spelling(pieces[0]) + spelled_out(pieces.skip(1))
    }
}

/// A stretch as its writer means it: no reference begins in plain text, and a
/// reference holds a name.
pub open spec fn legible(p: Piece) -> bool {
    match p {
        Piece::Plain(text) => opens_nothing(text),
        Piece::Reference { left, name, right } => blank(left) && blank(right) && nameable(name)
            && tight(name),
    }
}

pub open spec fn all_legible(pieces: Seq<Piece>) -> bool {
    forall|i: int| 0 <= i < pieces.len() ==> legible(#[trigger] pieces[i])
}

/// A stretch whose name, if it is defined, is worth a text that refers to nothing.
pub open spec fn shallow(scope: Scope, p: Piece) -> bool {
    match p {
        Piece::Plain(_) => true,
        Piece::Reference { name, .. } => match value_in(scope, name) {
            Some(v) => refers_to_nothing(v),
            None => true,
        },
    }
}

pub open spec fn all_shallow(scope: Scope, pieces: Seq<Piece>) -> bool {
    forall|i: int| 0 <= i < pieces.len() ==> shallow(scope, #[trigger] pieces[i])
}

/// What a stretch is worth: a defined name its value, anything else its spelling.
pub open spec fn worth(scope: Scope, p: Piece) -> Seq<char> {
    match p {
        Piece::Plain(text) => text,
        Piece::Reference { name, .. } => match value_in(scope, name) {
            Some(v) => v,
            None => spelling(p),
        },
    }
}

/// What stretches are worth one after the other.
pub open spec fn filled_out(scope: Scope, pieces: Seq<Piece>) -> Seq<char>
    decreases pieces.len(),
{
    if pieces.len() == 0 {
        Seq::empty()
    } else {
        worth(scope, pieces[0]) + filled_out(scope, pieces.skip(1))
    }
}

/// Whether a stretch refers to `name`, and no table defines it.
pub open spec fn misses(scope: Scope, p: Piece, name: Seq<char>) -> bool {
    match p {
        Piece::Plain(_) => false,
        Piece::Reference { name: n, .. } => n == name && value_in(scope, n) is None,
    }
}

/// What stands before an offset has no effect on what follows it.
proof fn lemma_shift(scope: Scope, input: Seq<char>, at: int, k: int, stack: Seq<Seq<char>>)
    requires
        0 <= at <= input.len(),
        0 <= k,
        at + k <= input.len(),
    ensures
        expand_from(scope, input, at + k, stack) == expand_from(scope, input.skip(at), k, stack),
        unresolved_from(scope, input, at + k, stack) == unresolved_from(
            scope,
            input.skip(at),
            k,
            stack,
        ),
    decreases input.len() - (at + k),
{
    let t = input.skip(at);
    lemma_shifted_index(input, opening(), at, k);
    lemma_first_index(t, opening(), k);
    assert(input.skip(at + k) =~= t.skip(k));
    if let Some(start) = first_index(t, opening(), k) {
        lemma_shifted_index(input, closing(), at, start + 2);
        lemma_first_index(t, closing(), start + 2);
        assert(input.subrange(at + k, at + start + 2) =~= t.subrange(k, start + 2));
        assert(input.subrange(at + k, at + start) =~= t.subrange(k, start));
        lemma_shift(scope, input, at, start + 2, stack);
        if let Some(end) = first_index(t, closing(), start + 2) {
            assert(input.subrange(at + start + 2, at + end) =~= t.subrange(start + 2, end));
            assert(input.subrange(at + start, at + end + 2) =~= t.subrange(start, end + 2));
            lemma_shift(scope, input, at, end + 2, stack);
        }
    }
}

/// Characters before any reference are handed on.
proof fn lemma_plain_head(scope: Scope, a: Seq<char>, b: Seq<char>, stack: Seq<Seq<char>>)
    requires
        opens_nothing(a),
        stack.len() <= 8,
    ensures
        expand_from(scope, a + b, 0, stack) == a + expand_from(scope, b, 0, stack),
        unresolved_from(scope, a + b, 0, stack) == unresolved_from(scope, b, 0, stack),
{
    let input = a + b;
    let k = a.len() as int;
    assert(input.skip(k) =~= b);
    lemma_shift(scope, input, k, 0, stack);
    lemma_shifted_index(input, opening(), k, 0);
    lemma_first_index(input, opening(), k);
    lemma_first_index(input, opening(), 0);
    assert forall|j: int| 0 <= j < k implies !occurs_at(input, opening(), j) by {
        assert(input[j] == a[j]);
        if occurs_at(input, opening(), j) {
            assert(input.subrange(j, j + 2)[0] == input[j]);
            assert(input.subrange(j, j + 2)[1] == input[j + 1]);
            assert(a[j] == '{');
            assert(input[j + 1] == a[j + 1]);
        }
    }
    assert(input.skip(0) =~= a + input.skip(k));
    if let Some(start) = first_index(input, opening(), k) {
        lemma_first_index_is(input, opening(), 0, start);
        assert(input.subrange(0, start + 2) =~= a + input.subrange(k, start + 2));
        assert(input.subrange(0, start) =~= a + input.subrange(k, start));
        assert(expand_from(scope, input, 0, stack) =~= a + expand_from(scope, input, k, stack));
    } else {
        assert(first_index(input, opening(), 0) is None);
    }
}

/// Where a reference at the front of a text begins and ends.
proof fn lemma_reference_place(
    left: Seq<char>,
    name: Seq<char>,
    right: Seq<char>,
    b: Seq<char>,
    end: int,
)
    requires
        blank(left),
        blank(right),
        nameable(name),
        tight(name),
        end == left.len() + name.len() + right.len() + 2,
    ensures
        ({
            let written = spelling(Piece::Reference { left, name, right });
            let input = written + b;
            &&& first_index(input, opening(), 0) == Some(0int)
            &&& first_index(input, closing(), 2) == Some(end)
            &&& trimmed(input.subrange(2, end)) == name
            &&& input.subrange(0, 0) == Seq::<char>::empty()
            &&& input.subrange(0, end + 2) == written
            &&& input.skip(end + 2) == b
            &&& written.len() == end + 2
        }),
{
    let written = spelling(Piece::Reference { left, name, right });
    let inner = left + name + right;
    let input = written + b;
    assert(input.subrange(0, 2) =~= opening());
    lemma_first_index_is(input, opening(), 0, 0);
    assert(input.subrange(end, end + 2) =~= closing());
    assert forall|j: int| 2 <= j < end implies !occurs_at(input, closing(), j) by {
        assert(input[j] == inner[j - 2]);
        lemma_inner(left, name, right, j - 2);
        if occurs_at(input, closing(), j) {
            assert(input.subrange(j, j + 2)[0] == input[j]);
        }
    }
    lemma_first_index_is(input, closing(), 2, end);
    assert(input.subrange(2, end) =~= inner);
    trimming_takes_the_ends(left, name, right);
    assert(input.subrange(0, 0) =~= Seq::<char>::empty());
    assert(input.subrange(0, end + 2) =~= written);
    assert(input.skip(end + 2) =~= b);
}

proof fn lemma_inner(left: Seq<char>, name: Seq<char>, right: Seq<char>, i: int)
    requires
        blank(left),
        blank(right),
        nameable(name),
        0 <= i < left.len() + name.len() + right.len(),
    ensures
        (left + name + right)[i] != '}',
{
    let inner = left + name + right;
    if i < left.len() {
        assert(inner[i] == left[i]);
    } else if i < left.len() + name.len() {
        assert(inner[i] == name[i - left.len()]);
    } else {
        assert(inner[i] == right[i - left.len() - name.len()]);
    }
}

/// What becomes of a reference at the front of a text.
proof fn lemma_reference(
    scope: Scope,
    left: Seq<char>,
    name: Seq<char>,
    right: Seq<char>,
    b: Seq<char>,
    stack: Seq<Seq<char>>,
)
    requires
        blank(left),
        blank(right),
        nameable(name),
        tight(name),
        stack.len() <= 8,
    ensures
        ({
            let written = spelling(Piece::Reference { left, name, right });
            let tail = expand_from(scope, b, 0, stack);
            let missing = unresolved_from(scope, b, 0, stack);
            let value = value_in(scope, name);
            if value is Some && stack.len() < 8 && !stack.contains(name) {
                expand_from(scope, written + b, 0, stack) == expand_from(
                    scope,
                    value->0,
                    0,
                    stack.push(name),
                ) + tail && unresolved_from(scope, written + b, 0, stack) == unresolved_from(
                    scope,
                    value->0,
                    0,
                    stack.push(name),
                ).union(missing)
            } else {
                expand_from(scope, written + b, 0, stack) == written + tail && unresolved_from(
                    scope,
                    written + b,
                    0,
                    stack,
                ) == missing.insert(name)
            }
        }),
{
    let written = spelling(Piece::Reference { left, name, right });
    let input = written + b;
    let end = (left.len() + name.len() + right.len() + 2) as int;
    lemma_reference_place(left, name, right, b, end);
    lemma_shift(scope, input, end + 2, 0, stack);
    let tail = expand_from(scope, b, 0, stack);
    let missing = unresolved_from(scope, b, 0, stack);
    let value = value_in(scope, name);
    if value is Some && stack.len() < 8 && !stack.contains(name) {
        let v = expand_from(scope, value->0, 0, stack.push(name));
        assert(expand_from(scope, input, 0, stack) == input.subrange(0, 0) + v + tail);
        assert(input.subrange(0, 0) + v + tail =~= v + tail);
    } else {
        assert(expand_from(scope, input, 0, stack) == input.subrange(0, 0) + written + tail);
        assert(input.subrange(0, 0) + written + tail =~= written + tail);
        assert(set![name].union(missing) =~= missing.insert(name));
    }
}

proof fn lemma_plain(scope: Scope, v: Seq<char>, stack: Seq<Seq<char>>)
    requires
        refers_to_nothing(v),
        stack.len() <= 8,
    ensures
        expand_from(scope, v, 0, stack) == v,
        unresolved_from(scope, v, 0, stack) == Set::<Seq<char>>::empty(),
{
    lemma_first_index(v, opening(), 0);
    if let Some(k) = first_index(v, opening(), 0) {
        assert(v.subrange(k, k + 2)[0] == v[k]);
        assert(v.subrange(k, k + 2)[1] == v[k + 1]);
    }
    assert(v.skip(0) =~= v);
}

/// A text is filled in stretch by stretch: each reference to a defined name
/// becomes its value, all else stays as it is written, and the names reported are
/// those of the references that nothing defines.
pub proof fn texts_are_filled_out(scope: Scope, pieces: Seq<Piece>)
    requires
        all_legible(pieces),
        all_shallow(scope, pieces),
    ensures
        expanded(scope, spelled_out(pieces)) == filled_out(scope, pieces),
        forall|name: Seq<char>|
            unresolved_in(scope, spelled_out(pieces)).contains(name) <==> exists|i: int|
                0 <= i < pieces.len() && misses(scope, #[trigger] pieces[i], name),
    decreases pieces.len(),
{
    let none = Seq::<Seq<char>>::empty();
    let text = spelled_out(pieces);
    if pieces.len() == 0 {
        lemma_plain(scope, text, none);
    } else {
        let rest = pieces.skip(1);
        assert(all_legible(rest));
        assert(all_shallow(scope, rest));
        texts_are_filled_out(scope, rest);
        assert(legible(pieces[0]) && shallow(scope, pieces[0]));
        match pieces[0] {
            Piece::Plain(head) => {
                lemma_plain_head(scope, head, spelled_out(rest), none);
            },
            Piece::Reference { left, name, right } => {
                lemma_reference(scope, left, name, right, spelled_out(rest), none);
                if let Some(v) = value_in(scope, name) {
                    lemma_plain(scope, v, none.push(name));
                }
            },
        }
        assert forall|name: Seq<char>|
            unresolved_in(scope, text).contains(name) <==> exists|i: int|
                0 <= i < pieces.len() && misses(scope, #[trigger] pieces[i], name) by {
            if unresolved_in(scope, spelled_out(rest)).contains(name) {
                let i = choose|i: int|
                    0 <= i < rest.len() && misses(scope, #[trigger] rest[i], name);
                assert(pieces[i + 1] == rest[i]);
            }
            if exists|i: int|
                0 <= i < pieces.len() && misses(scope, #[trigger] pieces[i], name) {
                let i = choose|i: int|
                    0 <= i < pieces.len() && misses(scope, #[trigger] pieces[i], name);
                if i > 0 {
                    assert(rest[i - 1] == pieces[i]);
                }
            }
            assert(misses(scope, pieces[0], name) ==> unresolved_in(scope, text).contains(name));
        }
    }
}

/// A reference is replaced by its value, whatever follows it, and what follows is
/// looked through in turn; one to a name that nothing defines is kept and reported.
pub proof fn a_reference_is_replaced(
    scope: Scope,
    a: Seq<char>,
    left: Seq<char>,
    name: Seq<char>,
    right: Seq<char>,
    b: Seq<char>,
)
    requires
        opens_nothing(a),
        legible(Piece::Reference { left, name, right }),
        shallow(scope, Piece::Reference { left, name, right }),
    ensures
        ({
            let written = spelling(Piece::Reference { left, name, right });
            match value_in(scope, name) {
                Some(v) => expanded(scope, a + (written + b)) == a + (v + expanded(scope, b))
                    && unresolved_in(scope, a + (written + b)) == unresolved_in(scope, b),
                None => expanded(scope, a + (written + b)) == a + (written + expanded(scope, b))
                    && unresolved_in(scope, a + (written + b)) == unresolved_in(scope, b).insert(
                    name,
                ),
            }
        }),
{
    let none = Seq::<Seq<char>>::empty();
    let written = spelling(Piece::Reference { left, name, right });
    lemma_plain_head(scope, a, written + b, none);
    lemma_reference(scope, left, name, right, b, none);
    if let Some(v) = value_in(scope, name) {
        lemma_plain(scope, v, none.push(name));
        assert(Set::<Seq<char>>::empty().union(unresolved_in(scope, b)) =~= unresolved_in(
            scope,
            b,
        ));
    }
}

/// What stands between two pairs of braces and is no name is kept, and what follows
/// the opening braces is looked through again.
pub proof fn what_is_no_name_is_kept(scope: Scope, inner: Seq<char>, b: Seq<char>)
    requires
        closes_nothing(inner),
        !nameable(trimmed(inner)),
    ensures
        expanded(scope, seq!['{', '{'] + inner + seq!['}', '}'] + b) == seq!['{', '{'] + expanded(
            scope,
            inner + seq!['}', '}'] + b,
        ),
        unresolved_in(scope, seq!['{', '{'] + inner + seq!['}', '}'] + b) == unresolved_in(
            scope,
            inner + seq!['}', '}'] + b,
        ),
{
    let none = Seq::<Seq<char>>::empty();
    let input = seq!['{', '{'] + inner + seq!['}', '}'] + b;
    let end = (inner.len() + 2) as int;
    assert(input.subrange(0, 2) =~= opening());
    lemma_first_index_is(input, opening(), 0, 0);
    assert(input.subrange(end, end + 2) =~= closing());
    assert forall|j: int| 2 <= j < end implies !occurs_at(input, closing(), j) by {
        assert(input[j] == inner[j - 2]);
        if occurs_at(input, closing(), j) {
            assert(input.subrange(j, j + 2)[0] == input[j]);
            assert(input.subrange(j, j + 2)[1] == input[j + 1]);
            assert(inner[j - 2] == '}');
            assert(input[j + 1] == inner[j - 1]);
        }
    }
    lemma_first_index_is(input, closing(), 2, end);
    assert(input.subrange(2, end) =~= inner);
    assert(input.skip(2) =~= inner + seq!['}', '}'] + b);
    lemma_shift(scope, input, 2, 0, none);
    lemma_encoded_len(trimmed(inner));
    assert(!crate::vars::is_valid_name(trimmed(inner)));
    assert(input.subrange(0, 2) =~= seq!['{', '{']);
}

proof fn lemma_encoded_len(name: Seq<char>)
    ensures
        name.len() > 0 ==> vstd::utf8::encode_utf8(name).len() >= 1,
{
    if name.len() > 0 {
        vstd::utf8::encode_utf8_decode_utf8(name);
        if vstd::utf8::encode_utf8(name).len() == 0 {
            let none = Seq::<char>::empty();
            vstd::utf8::encode_utf8_decode_utf8(none);
            assert(vstd::utf8::encode_utf8(none).len() == 0);
            assert(vstd::utf8::encode_utf8(name) =~= vstd::utf8::encode_utf8(none));
        }
    }
}

/// A reference that does not close is kept, and refers to nothing.
pub proof fn an_open_reference_is_kept(scope: Scope, a: Seq<char>, b: Seq<char>)
    requires
        opens_nothing(a),
        forall|i: int| 0 <= i < b.len() - 1 ==> !(#[trigger] b[i] == '}' && b[i + 1] == '}'),
    ensures
        expanded(scope, a + (seq!['{', '{'] + b)) == a + (seq!['{', '{'] + b),
        unresolved_in(scope, a + (seq!['{', '{'] + b)) == Set::<Seq<char>>::empty(),
{
    let none = Seq::<Seq<char>>::empty();
    let t = seq!['{', '{'] + b;
    lemma_plain_head(scope, a, t, none);
    assert(t.subrange(0, 2) =~= opening());
    lemma_first_index_is(t, opening(), 0, 0);
    lemma_first_index(t, closing(), 2);
    if let Some(k) = first_index(t, closing(), 2) {
        assert(t.subrange(k, k + 2)[0] == t[k]);
        assert(t.subrange(k, k + 2)[1] == t[k + 1]);
        assert(b[k - 2] == '}' && b[k - 1] == '}');
    }
    assert(t.skip(0) =~= t);
}

/// The entry of a table that counts for a name: the first enabled one.
pub open spec fn counts(layer: Seq<VariableView>, name: Seq<char>, k: int) -> bool {
    &&& 0 <= k < layer.len()
    &&& layer[k].enabled && layer[k].key == name
    &&& forall|i: int| 0 <= i < k ==> !(#[trigger] layer[i].enabled && layer[i].key == name)
}

/// A table without an enabled entry of a name.
pub open spec fn lacks(layer: Seq<VariableView>, name: Seq<char>) -> bool {
    forall|i: int| 0 <= i < layer.len() ==> !(#[trigger] layer[i].enabled && layer[i].key == name)
}

proof fn lemma_lacks(layer: Seq<VariableView>, name: Seq<char>)
    requires
        lacks(layer, name),
    ensures
        layer_value(layer, name) is None,
    decreases layer.len(),
{
    if layer.len() > 0 {
        assert(!(layer[0].enabled && layer[0].key == name));
        let rest = layer.skip(1);
        assert forall|i: int| 0 <= i < rest.len() implies !(#[trigger] rest[i].enabled
            && rest[i].key == name) by {
            assert(rest[i] == layer[i + 1]);
        }
        lemma_lacks(rest, name);
    }
}

/// A name without `$` is worth what the environment's first enabled entry of that
/// name holds; where the environment has none, the group's; where the group has
/// none either, that of the globals; and nothing where no table has one.
pub proof fn names_are_looked_up(scope: Scope, name: Seq<char>, k: int)
    requires
        name.len() == 0 || name[0] != '$',
    ensures
        counts(scope.layers.env, name, k) ==> value_in(scope, name) == Some(
            scope.layers.env[k].value,
        ),
        lacks(scope.layers.env, name) && counts(scope.layers.group, name, k) ==> value_in(
            scope,
            name,
        ) == Some(scope.layers.group[k].value),
        lacks(scope.layers.env, name) && lacks(scope.layers.group, name) && counts(
            scope.layers.globals,
            name,
            k,
        ) ==> value_in(scope, name) == Some(scope.layers.globals[k].value),
        lacks(scope.layers.env, name) && lacks(scope.layers.group, name) && lacks(
            scope.layers.globals,
            name,
        ) ==> value_in(scope, name) is None,
{
    let l = scope.layers;
    if counts(l.env, name, k) {
        first_enabled_entry_wins(l.env, name, k);
    }
    if counts(l.group, name, k) {
        first_enabled_entry_wins(l.group, name, k);
    }
    if counts(l.globals, name, k) {
        first_enabled_entry_wins(l.globals, name, k);
    }
    if lacks(l.env, name) {
        lemma_lacks(l.env, name);
    }
    if lacks(l.group, name) {
        lemma_lacks(l.group, name);
    }
    if lacks(l.globals, name) {
        lemma_lacks(l.globals, name);
    }
}

/// The built-in names are worth the time in seconds, the same in ISO form, the drawn
/// identifiers, and a number from 0 to 1000; no other name with a `$` is worth
/// anything, whatever the tables say.
pub proof fn built_in_names_are_worth(scope: Scope, name: Seq<char>)
    ensures
        value_in(scope, "$timestamp"@) matches Some(t) && read_decimal(t)
            == scope.dynamic.timestamp,
        value_in(scope, "$isoTimestamp"@) == Some(crate::vars::iso_text(scope.dynamic.iso)),
        value_in(scope, "$randomUUID"@) == Some(scope.dynamic.uuid),
        value_in(scope, "$guid"@) == Some(scope.dynamic.guid),
        value_in(scope, "$randomInt"@) matches Some(t) && 0 <= read_decimal(t) <= 1000,
        value_in(scope, "$randomInt"@) matches Some(t) && (scope.dynamic.random <= 1000
            ==> read_decimal(t) == scope.dynamic.random),
        name.len() > 0 && name[0] == '$' && name != "$timestamp"@ && name != "$isoTimestamp"@
            && name != "$randomUUID"@ && name != "$guid"@ && name != "$randomInt"@ ==> value_in(
            scope,
            name,
        ) is None,
{
    reveal_strlit("$timestamp");
    reveal_strlit("$isoTimestamp");
    reveal_strlit("$randomUUID");
    reveal_strlit("$guid");
    reveal_strlit("$randomInt");
    assert("$timestamp"@.len() == 10 && "$isoTimestamp"@.len() == 13 && "$randomUUID"@.len() == 11
        && "$guid"@.len() == 5 && "$randomInt"@.len() == 10);
    assert("$timestamp"@[1] == 't' && "$randomInt"@[1] == 'r');
    decimal_texts_read_back(scope.dynamic.timestamp);
    decimal_texts_read_back(scope.dynamic.random % 1001);
}

/// A reference without white space around its name.
pub open spec fn reference_to(name: Seq<char>) -> Seq<char> {
    seq!['{', '{'] + name + seq!['}', '}']
}

proof fn lemma_reference_to(name: Seq<char>)
    ensures
        spelling(
            Piece::Reference { left: Seq::empty(), name, right: Seq::empty() },
        ) == reference_to(name),
        reference_to(name) + Seq::<char>::empty() == reference_to(name),
{
    assert(spelling(Piece::Reference { left: Seq::empty(), name, right: Seq::empty() })
        =~= reference_to(name));
    assert(reference_to(name) + Seq::<char>::empty() =~= reference_to(name));
}

/// Names each of which is worth a reference to the next, and the last of which is
/// worth `v`.
pub open spec fn is_chain(scope: Scope, names: Seq<Seq<char>>, v: Seq<char>) -> bool {
    &&& names.len() > 0
    &&& names.no_duplicates()
    &&& forall|i: int| 0 <= i < names.len() ==> nameable(#[trigger] names[i]) && tight(names[i])
    &&& forall|i: int|
        0 <= i < names.len() - 1 ==> value_in(scope, #[trigger] names[i]) == Some(
            reference_to(names[i + 1]),
        )
    &&& value_in(scope, names[names.len() - 1]) == Some(v)
}

proof fn lemma_chain(scope: Scope, names: Seq<Seq<char>>, v: Seq<char>, k: int)
    requires
        is_chain(scope, names, v),
        refers_to_nothing(v),
        0 <= k < names.len(),
        k <= 8,
    ensures
        expand_from(scope, reference_to(names[k]), 0, names.take(k)) == if names.len() <= 8 {
            v
        } else {
            reference_to(names[8])
        },
        unresolved_from(scope, reference_to(names[k]), 0, names.take(k)) == if names.len() <= 8 {
            Set::empty()
        } else {
            set![names[8]]
        },
    decreases 8 - k,
{
    let none = Seq::<char>::empty();
    let name = names[k];
    let stack = names.take(k);
    lemma_reference_to(name);
    lemma_reference(scope, none, name, none, none, stack);
    lemma_plain(scope, none, stack);
    assert(!stack.contains(name)) by {
        if stack.contains(name) {
            let i = choose|i: int| 0 <= i < stack.len() && stack[i] == name;
            assert(names[i] == names[k]);
        }
    }
    assert(value_in(scope, name) is Some);
    if k < 8 {
        assert(stack.push(name) =~= names.take(k + 1));
        if k + 1 < names.len() {
            lemma_chain(scope, names, v, k + 1);
        } else {
            lemma_plain(scope, v, names.take(k + 1));
        }
        let out = expand_from(scope, value_in(scope, name)->0, 0, names.take(k + 1));
        assert(out + none =~= out);
        let missing = unresolved_from(scope, value_in(scope, name)->0, 0, names.take(k + 1));
        assert(missing.union(Set::empty()) =~= missing);
    } else {
        assert(Set::<Seq<char>>::empty().insert(name) =~= set![name]);
    }
}

/// Values may refer to further names, up to eight deep: a longer chain of
/// references stops at its ninth name, which is kept and reported.
pub proof fn chains_are_followed(scope: Scope, names: Seq<Seq<char>>, v: Seq<char>)
    requires
        is_chain(scope, names, v),
        refers_to_nothing(v),
    ensures
        names.len() <= 8 ==> expanded(scope, reference_to(names[0])) == v && unresolved_in(
            scope,
            reference_to(names[0]),
        ) == Set::<Seq<char>>::empty(),
        names.len() > 8 ==> expanded(scope, reference_to(names[0])) == reference_to(names[8])
            && unresolved_in(scope, reference_to(names[0])) == set![names[8]],
{
    lemma_chain(scope, names, v, 0);
    assert(names.take(0) =~= Seq::<Seq<char>>::empty());
}

/// A name that refers to itself is kept and reported.
pub proof fn a_cycle_is_reported(scope: Scope, name: Seq<char>)
    requires
        nameable(name),
        tight(name),
        value_in(scope, name) == Some(reference_to(name)),
    ensures
        expanded(scope, reference_to(name)) == reference_to(name),
        unresolved_in(scope, reference_to(name)) == set![name],
{
    let none = Seq::<char>::empty();
    let stack = Seq::<Seq<char>>::empty();
    let inside = stack.push(name);
    lemma_reference_to(name);
    assert(inside[0] == name);
    assert(inside.contains(name));
    lemma_reference(scope, none, name, none, none, inside);
    lemma_reference(scope, none, name, none, none, stack);
    lemma_plain(scope, none, stack);
    lemma_plain(scope, none, inside);
    assert(Set::<Seq<char>>::empty().insert(name) =~= set![name]);
    assert(set![name].union(Set::empty()) =~= set![name]);
}

/// The places of a request at which a text may refer to variables.
pub enum Place {
    Url,
    PathValue(int),
    ParamKey(int),
    ParamValue(int),
    HeaderKey(int),
    HeaderValue(int),
    RawText,
    FieldKey(int),
    FieldText(int),
    FieldPath(int),
    FormKey(int),
    FormValue(int),
    FilePath,
    Expected(int),
}

pub open spec fn key_at(rows: Seq<KeyValueView>, i: int) -> Option<Seq<char>> {
    if 0 <= i < rows.len() && rows[i].enabled {
        Some(rows[i].key)
    } else {
        None
    }
}

pub open spec fn value_at(rows: Seq<KeyValueView>, i: int) -> Option<Seq<char>> {
    if 0 <= i < rows.len() && rows[i].enabled {
        Some(rows[i].value)
    } else {
        None
    }
}

/// The text at a place; `None` where the request has no such place or it is
/// disabled.
pub open spec fn text_at(d: DraftView, place: Place) -> Option<Seq<char>> {
    match place {
        Place::Url => Some(d.url),
        Place::PathValue(i) => value_at(d.path_params, i),
        Place::ParamKey(i) => key_at(d.params, i),
        Place::ParamValue(i) => value_at(d.params, i),
        Place::HeaderKey(i) => key_at(d.headers, i),
        Place::HeaderValue(i) => value_at(d.headers, i),
        Place::RawText => match d.body {
            BodyKindView::Raw { text, .. } => Some(text),
            _ => None,
        },
        Place::FieldKey(i) => match d.body {
            BodyKindView::FormData { fields } => if 0 <= i < fields.len() && fields[i].enabled {
                Some(fields[i].key)
            } else {
                None
            },
            _ => None,
        },
        Place::FieldText(i) => match d.body {
            BodyKindView::FormData { fields } => if 0 <= i < fields.len() && fields[i].enabled {
                match fields[i].value {
                    FormValueView::Text { value } => Some(value),
                    _ => None,
                }
            } else {
                None
            },
            _ => None,
        },
        Place::FieldPath(i) => match d.body {
            BodyKindView::FormData { fields } => if 0 <= i < fields.len() && fields[i].enabled {
                match fields[i].value {
                    FormValueView::File { path, .. } => Some(path),
                    _ => None,
                }
            } else {
                None
            },
            _ => None,
        },
        Place::FormKey(i) => match d.body {
            BodyKindView::FormUrlEncoded { fields } => key_at(fields, i),
            _ => None,
        },
        Place::FormValue(i) => match d.body {
            BodyKindView::FormUrlEncoded { fields } => value_at(fields, i),
            _ => None,
        },
        Place::FilePath => match d.body {
            BodyKindView::File { path, .. } => Some(path),
            _ => None,
        },
        Place::Expected(i) => if 0 <= i < d.post_ops.len() && d.post_ops[i].enabled {
            match d.post_ops[i].kind {
                PostOpKindView::Assert { expected, .. } => Some(expected),
                _ => None,
            }
        } else {
            None
        },
    }
}

/// Every enabled text of a request is filled in where it stands: the address, the
/// values of path parameters, the keys and values of parameters and headers, each
/// kind of body and what assertions expect.
pub proof fn every_place_is_filled_out(scope: Scope, d: DraftView, place: Place, pieces: Seq<Piece>)
    requires
        all_legible(pieces),
        all_shallow(scope, pieces),
    ensures
        text_at(d, place) == Some(spelled_out(pieces)) ==> text_at(resolved_draft(scope, d), place)
            == Some(filled_out(scope, pieces)),
        text_at(d, place) is None ==> text_at(resolved_draft(scope, d), place) is None,
{
    texts_are_filled_out(scope, pieces);
}

/// A place that holds one reference to a name worth a plain text holds that text
/// afterwards.
pub proof fn a_lone_reference_becomes_its_value(
    scope: Scope,
    d: DraftView,
    place: Place,
    name: Seq<char>,
    v: Seq<char>,
)
    requires
        nameable(name),
        tight(name),
        value_in(scope, name) == Some(v),
        refers_to_nothing(v),
        text_at(d, place) == Some(reference_to(name)),
    ensures
        text_at(resolved_draft(scope, d), place) == Some(v),
{
    let p = Piece::Reference { left: Seq::empty(), name, right: Seq::empty() };
    let pieces = seq![p];
    lemma_reference_to(name);
    assert(pieces.skip(1) =~= Seq::<Piece>::empty());
    reveal_with_fuel(spelled_out, 2);
    reveal_with_fuel(filled_out, 2);
    assert(filled_out(scope, pieces) =~= v);
    every_place_is_filled_out(scope, d, place, pieces);
}

/// What is not a text to fill in stays: the method, the operations before sending,
/// the number and the order of the rows, which of them are enabled, disabled rows
/// whole, the keys of path parameters, the kind of the body and its types.
pub proof fn the_rest_of_a_request_is_kept(scope: Scope, d: DraftView, i: int)
    ensures
        ({
            let r = resolved_draft(scope, d);
            &&& r.method == d.method
            &&& r.pre_ops == d.pre_ops
            &&& r.path_params.len() == d.path_params.len()
            &&& r.params.len() == d.params.len()
            &&& r.headers.len() == d.headers.len()
            &&& r.post_ops.len() == d.post_ops.len()
            &&& 0 <= i < d.path_params.len() ==> r.path_params[i].enabled
                == d.path_params[i].enabled && r.path_params[i].key == d.path_params[i].key
            &&& 0 <= i < d.path_params.len() && !d.path_params[i].enabled ==> r.path_params[i]
                == d.path_params[i]
            &&& 0 <= i < d.params.len() ==> r.params[i].enabled == d.params[i].enabled
            &&& 0 <= i < d.params.len() && !d.params[i].enabled ==> r.params[i] == d.params[i]
            &&& 0 <= i < d.headers.len() ==> r.headers[i].enabled == d.headers[i].enabled
            &&& 0 <= i < d.headers.len() && !d.headers[i].enabled ==> r.headers[i] == d.headers[i]
            &&& 0 <= i < d.post_ops.len() ==> r.post_ops[i].enabled == d.post_ops[i].enabled
            &&& 0 <= i < d.post_ops.len() && !d.post_ops[i].enabled ==> r.post_ops[i]
                == d.post_ops[i]
            &&& 0 <= i < d.post_ops.len() ==> match d.post_ops[i].kind {
                PostOpKindView::Extract { .. } => r.post_ops[i] == d.post_ops[i],
                PostOpKindView::Assert { subject, op, .. } => r.post_ops[i].kind is Assert
                    && r.post_ops[i].kind->subject == subject && r.post_ops[i].kind->op == op,
            }
            &&& match d.body {
                BodyKindView::Empty => r.body is Empty,
                BodyKindView::Raw { format, .. } => r.body is Raw && r.body->format == format,
                BodyKindView::FormData { fields } => r.body is FormData
                    && r.body->FormData_fields.len() == fields.len() && (0 <= i < fields.len()
                    ==> ({
                    let f = r.body->FormData_fields[i];
                    &&& f.enabled == fields[i].enabled
                    &&& !f.enabled ==> f == fields[i]
                    &&& match fields[i].value {
                        FormValueView::Text { .. } => f.value is Text,
                        FormValueView::File { content_type, .. } => f.value is File
                            && f.value->content_type == content_type,
                    }
                })),
                BodyKindView::FormUrlEncoded { fields } => r.body is FormUrlEncoded
                    && r.body->FormUrlEncoded_fields.len() == fields.len() && (0 <= i
                    < fields.len() ==> ({
                    let f = r.body->FormUrlEncoded_fields[i];
                    &&& f.enabled == fields[i].enabled
                    &&& !f.enabled ==> f == fields[i]
                })),
                BodyKindView::File { content_type, .. } => r.body is File
                    && r.body->File_content_type == content_type,
            }
        }),
{
}

proof fn lemma_rows(scope: Scope, rows: Seq<KeyValueView>, keys: bool, name: Seq<char>)
    ensures
        rows_unresolved(scope, rows, keys).contains(name) <==> exists|i: int|
            #![trigger rows[i]]
            0 <= i < rows.len() && rows[i].enabled && (unresolved_in(
                scope,
                rows[i].value,
            ).contains(name) || (keys && unresolved_in(scope, rows[i].key).contains(name))),
    decreases rows.len(),
{
    if rows.len() > 0 {
        let head = rows.drop_last();
        lemma_rows(scope, head, keys, name);
        if rows_unresolved(scope, head, keys).contains(name) {
            let i = choose|i: int|
                #![trigger head[i]]
                0 <= i < head.len() && head[i].enabled && (unresolved_in(
                    scope,
                    head[i].value,
                ).contains(name) || (keys && unresolved_in(scope, head[i].key).contains(name)));
            assert(rows[i] == head[i]);
        }
        assert(rows[rows.len() - 1] == rows.last());
        assert forall|i: int| 0 <= i < head.len() implies head[i] == rows[i] by {}
    }
}

proof fn lemma_fields(scope: Scope, fields: Seq<crate::model::FormFieldView>, name: Seq<char>)
    ensures
        fields_unresolved(scope, fields).contains(name) <==> exists|i: int|
            0 <= i < fields.len() && crate::vars::field_unresolved(
                scope,
                #[trigger] fields[i],
            ).contains(name),
    decreases fields.len(),
{
    if fields.len() > 0 {
        let head = fields.drop_last();
        lemma_fields(scope, head, name);
        if fields_unresolved(scope, head).contains(name) {
            let i = choose|i: int|
                0 <= i < head.len() && crate::vars::field_unresolved(
                    scope,
                    #[trigger] head[i],
                ).contains(name);
            assert(fields[i] == head[i]);
        }
        assert(fields[fields.len() - 1] == fields.last());
        assert forall|i: int| 0 <= i < head.len() implies head[i] == fields[i] by {}
    }
}

proof fn lemma_post_ops(scope: Scope, ops: Seq<crate::model::PostOpView>, name: Seq<char>)
    ensures
        post_ops_unresolved(scope, ops).contains(name) <==> exists|i: int|
            0 <= i < ops.len() && crate::vars::post_op_unresolved(
                scope,
                #[trigger] ops[i],
            ).contains(name),
    decreases ops.len(),
{
    if ops.len() > 0 {
        let head = ops.drop_last();
        lemma_post_ops(scope, head, name);
        if post_ops_unresolved(scope, head).contains(name) {
            let i = choose|i: int|
                0 <= i < head.len() && crate::vars::post_op_unresolved(
                    scope,
                    #[trigger] head[i],
                ).contains(name);
            assert(ops[i] == head[i]);
        }
        assert(ops[ops.len() - 1] == ops.last());
        assert forall|i: int| 0 <= i < head.len() implies head[i] == ops[i] by {}
    }
}

/// Whether the text at a place leaves `name` unresolved.
pub open spec fn missed_at(scope: Scope, d: DraftView, place: Place, name: Seq<char>) -> bool {
    match text_at(d, place) {
        Some(t) => unresolved_in(scope, t).contains(name),
        None => false,
    }
}

/// A name is reported for a request exactly where the text at one of its places
/// leaves it unresolved.
pub proof fn a_request_reports_the_names_of_its_places(scope: Scope, d: DraftView, name: Seq<char>)
    ensures
        draft_unresolved(scope, d).contains(name) <==> exists|place: Place|
            missed_at(scope, d, place, name),
{
    lemma_rows(scope, d.path_params, false, name);
    lemma_rows(scope, d.params, true, name);
    lemma_rows(scope, d.headers, true, name);
    lemma_post_ops(scope, d.post_ops, name);
    match d.body {
        BodyKindView::FormData { fields } => lemma_fields(scope, fields, name),
        BodyKindView::FormUrlEncoded { fields } => lemma_rows(scope, fields, true, name),
        _ => {},
    }
    if draft_unresolved(scope, d).contains(name) {
        lemma_reported(scope, d, name);
    }
}

proof fn lemma_reported(scope: Scope, d: DraftView, name: Seq<char>)
    requires
        draft_unresolved(scope, d).contains(name),
    ensures
        exists|place: Place| missed_at(scope, d, place, name),
{
    lemma_rows(scope, d.path_params, false, name);
    lemma_rows(scope, d.params, true, name);
    lemma_rows(scope, d.headers, true, name);
    lemma_post_ops(scope, d.post_ops, name);
    if unresolved_in(scope, d.url).contains(name) {
        assert(missed_at(scope, d, Place::Url, name));
    } else if rows_unresolved(scope, d.path_params, false).contains(name) {
        let i = lemma_row_choice(scope, d.path_params, false, name);
        assert(missed_at(scope, d, Place::PathValue(i), name));
    } else if rows_unresolved(scope, d.params, true).contains(name) {
        let i = lemma_row_choice(scope, d.params, true, name);
        assert(missed_at(scope, d, Place::ParamValue(i), name) || missed_at(
            scope,
            d,
            Place::ParamKey(i),
            name,
        ));
    } else if rows_unresolved(scope, d.headers, true).contains(name) {
        let i = lemma_row_choice(scope, d.headers, true, name);
        assert(missed_at(scope, d, Place::HeaderValue(i), name) || missed_at(
            scope,
            d,
            Place::HeaderKey(i),
            name,
        ));
    } else if post_ops_unresolved(scope, d.post_ops).contains(name) {
        let i = choose|i: int|
            0 <= i < d.post_ops.len() && crate::vars::post_op_unresolved(
                scope,
                #[trigger] d.post_ops[i],
            ).contains(name);
        assert(missed_at(scope, d, Place::Expected(i), name));
    } else {
        match d.body {
            BodyKindView::Empty => {},
            BodyKindView::Raw { .. } => {
                assert(missed_at(scope, d, Place::RawText, name));
            },
            BodyKindView::File { .. } => {
                assert(missed_at(scope, d, Place::FilePath, name));
            },
            BodyKindView::FormUrlEncoded { fields } => {
                let i = lemma_row_choice(scope, fields, true, name);
                assert(missed_at(scope, d, Place::FormValue(i), name) || missed_at(
                    scope,
                    d,
                    Place::FormKey(i),
                    name,
                ));
            },
            BodyKindView::FormData { fields } => {
                lemma_fields(scope, fields, name);
                let i = choose|i: int|
                    0 <= i < fields.len() && crate::vars::field_unresolved(
                        scope,
                        #[trigger] fields[i],
                    ).contains(name);
                assert(missed_at(scope, d, Place::FieldKey(i), name) || missed_at(
                    scope,
                    d,
                    Place::FieldText(i),
                    name,
                ) || missed_at(scope, d, Place::FieldPath(i), name));
            },
        }
    }
}

proof fn lemma_row_choice(
    scope: Scope,
    rows: Seq<KeyValueView>,
    keys: bool,
    name: Seq<char>,
) -> (i: int)
    requires
        rows_unresolved(scope, rows, keys).contains(name),
    ensures
        0 <= i < rows.len() && rows[i].enabled,
        unresolved_in(scope, rows[i].value).contains(name) || (keys && unresolved_in(
            scope,
            rows[i].key,
        ).contains(name)),
{
    lemma_rows(scope, rows, keys, name);
    choose|i: int|
        #![trigger rows[i]]
        0 <= i < rows.len() && rows[i].enabled && (unresolved_in(
            scope,
            rows[i].value,
        ).contains(name) || (keys && unresolved_in(scope, rows[i].key).contains(name)))
}

/// A reference to an undefined name is reported, in whichever enabled part of the
/// request it stands.
pub proof fn an_undefined_name_is_reported_from_every_place(
    scope: Scope,
    d: DraftView,
    place: Place,
    pieces: Seq<Piece>,
    k: int,
    name: Seq<char>,
)
    requires
        all_legible(pieces),
        all_shallow(scope, pieces),
        text_at(d, place) == Some(spelled_out(pieces)),
        0 <= k < pieces.len(),
        misses(scope, pieces[k], name),
    ensures
        draft_unresolved(scope, d).contains(name),
{
    texts_are_filled_out(scope, pieces);
    assert(missed_at(scope, d, place, name));
    a_request_reports_the_names_of_its_places(scope, d, name);
}

/// What resolving a request gives is the request with each of its places filled in
/// from the tables, and the names that its places leave unresolved.
pub proof fn a_resolution_fills_every_place(
    out: Resolved,
    d: DraftView,
    layers: Layers,
    dynamic: DynamicView,
    place: Place,
    pieces: Seq<Piece>,
    name: Seq<char>,
)
    requires
        is_resolution(out, d, layers, dynamic),
        all_legible(pieces),
        all_shallow(Scope { layers, dynamic }, pieces),
    ensures
        text_at(d, place) == Some(spelled_out(pieces)) ==> text_at(out.draft@, place) == Some(
            filled_out(Scope { layers, dynamic }, pieces),
        ),
        out.unresolved@.contains(name) <==> exists|p: Place|
            missed_at(Scope { layers, dynamic }, d, p, name),
{
    let scope = Scope { layers, dynamic };
    every_place_is_filled_out(scope, d, place, pieces);
    a_request_reports_the_names_of_its_places(scope, d, name);
}

} // verus!
