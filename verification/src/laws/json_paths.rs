//! Laws of JSON paths: which value a path of names, quoted keys and indexes leads
//! to.
use crate::json::JsonView;
use crate::laws::text::{
    blank, decimal_texts_read_back, lemma_shifted_index, read_decimal, tight,
    tight_text_is_kept, trimming_takes_the_ends,
};
use crate::ops::json_path::{
    cons, index_of, is_digit, lemma_name_end, name_end, number_of, steps_from, value_at, walk,
    without_plus, StepView,
};
use crate::strings::{decimal, first_index, lemma_first_index, lemma_first_index_is, occurs_at};
use vstd::prelude::*;

verus! {

proof fn lemma_reading(digits: Seq<char>)
    requires
        forall|i: int| 0 <= i < digits.len() ==> '0' <= #[trigger] digits[i] && digits[i] <= '9',
    ensures
        number_of(digits) == read_decimal(digits),
    decreases digits.len(),
{
    if digits.len() > 0 {
        lemma_reading(digits.drop_last());
        assert('0' <= digits[digits.len() - 1]);
    }
}

/// The decimal text of a number stands for that index, with or without a `+`,
/// where the machine has such an index, and for none where it has not.
pub proof fn decimal_texts_are_indexes(n: nat)
    ensures
        n <= usize::MAX ==> index_of(decimal(n)) == Some(n) && index_of(seq!['+'] + decimal(n))
            == Some(n),
        n > usize::MAX ==> index_of(decimal(n)) is None,
{
    decimal_texts_read_back(n);
    lemma_reading(decimal(n));
    assert('0' <= decimal(n)[0]);
    assert(without_plus(decimal(n)) == decimal(n));
    assert((seq!['+'] + decimal(n)).skip(1) =~= decimal(n));
    assert forall|i: int| 0 <= i < decimal(n).len() implies is_digit(#[trigger] decimal(n)[i]) by {
        assert('0' <= decimal(n)[i]);
    }
}

/// A text with a character other than a digit behind its first stands for no
/// index, nor does an empty text or a lone sign.
pub proof fn other_texts_are_no_indexes(s: Seq<char>, i: int)
    requires
        s.len() == 0 || s == seq!['+'] || (1 <= i < s.len() && !('0' <= s[i] && s[i] <= '9')) || (
        s.len() > 0 && s[0] != '+' && !('0' <= s[0] && s[0] <= '9')),
    ensures
        index_of(s) is None,
{
    let digits = without_plus(s);
    if s.len() > 0 && s != seq!['+'] {
        if 1 <= i < s.len() && !('0' <= s[i] && s[i] <= '9') {
            if s[0] == '+' {
                assert(digits[i - 1] == s[i]);
            } else {
                assert(digits[i] == s[i]);
            }
        } else {
            assert(digits[0] == s[0]);
        }
    }
}

/// One segment of a path.
pub enum Segment {
    /// `.name`
    Name(Seq<char>),
    /// `["key"]` or `['key']`
    Quoted { quote: char, key: Seq<char> },
    /// `[7]`, with white space around the number.
    Index { left: Seq<char>, n: nat, right: Seq<char> },
}

/// A name without a dot or a bracket, a key without its own quote, an index that
/// the machine has.
pub open spec fn sound(s: Segment) -> bool {
    match s {
        Segment::Name(name) => name.len() > 0 && forall|i: int|
            0 <= i < name.len() ==> #[trigger] name[i] != '.' && name[i] != '[',
        Segment::Quoted { quote, key } => (quote == '"' || quote == '\'') && forall|i: int|
            0 <= i < key.len() ==> #[trigger] key[i] != quote,
        Segment::Index { left, n, right } => blank(left) && blank(right) && n <= usize::MAX,
    }
}

pub open spec fn all_sound(path: Seq<Segment>) -> bool {
    forall|i: int| 0 <= i < path.len() ==> sound(#[trigger] path[i])
}

/// How a segment is written.
pub open spec fn segment_text(s: Segment) -> Seq<char> {
    match s {
        Segment::Name(name) => seq!['.'] + name,
        Segment::Quoted { quote, key } => seq!['[', quote] + key + seq![quote, ']'],
        Segment::Index { left, n, right } => seq!['['] + left + decimal(n) + right + seq![']'],
    }
}

/// How segments are written one after the other.
pub open spec fn path_text(path: Seq<Segment>) -> Seq<char>
    decreases path.len(),
{
    if path.len() == 0 {
        Seq::empty()
    } else {
        segment_text(path[0]) + path_text(path.skip(1))
    }
}

/// The value one segment further: a member of an object, or an element of an
/// array.
pub open spec fn inside(v: JsonView, s: Segment) -> Option<JsonView> {
    match (v, s) {
        (JsonView::Object(m), Segment::Name(key)) => if m.contains_key(key) {
            Some(m[key])
        } else {
            None
        },
        (JsonView::Object(m), Segment::Quoted { key, .. }) => if m.contains_key(key) {
            Some(m[key])
        } else {
            None
        },
        (JsonView::Array(items), Segment::Index { n, .. }) => if n < items.len() {
            Some(items[n as int])
        } else {
            None
        },
        _ => None,
    }
}

/// The value that segments lead to.
pub open spec fn reached(v: JsonView, path: Seq<Segment>) -> Option<JsonView>
    decreases path.len(),
{
    if path.len() == 0 {
        Some(v)
    } else {
        match inside(v, path[0]) {
            Some(next) => reached(next, path.skip(1)),
            None => None,
        }
    }
}

spec fn step_of(s: Segment) -> StepView {
    match s {
        Segment::Name(name) => StepView::Key(name),
        Segment::Quoted { key, .. } => StepView::Key(key),
        Segment::Index { n, .. } => StepView::Index(n),
    }
}

proof fn lemma_shifted_end(s: Seq<char>, at: int, k: int)
    requires
        0 <= at <= s.len(),
        0 <= k,
        at + k <= s.len(),
    ensures
        name_end(s, at + k) == name_end(s.skip(at), k) + at,
    decreases s.len() - (at + k),
{
    let t = s.skip(at);
    if at + k < s.len() {
        assert(t[k] == s[at + k]);
        if s[at + k] != '.' && s[at + k] != '[' {
            lemma_shifted_end(s, at, k + 1);
        }
    }
}

proof fn lemma_shifted_steps(s: Seq<char>, at: int, k: int)
    requires
        0 <= at <= s.len(),
        0 <= k,
        at + k <= s.len(),
    ensures
        steps_from(s, at + k) == steps_from(s.skip(at), k),
    decreases s.len() - (at + k),
{
    let t = s.skip(at);
    let p = if k < t.len() && t[k] == '.' {
        k + 1
    } else {
        k
    };
    if p < t.len() && !(k < t.len() && t[k] == '.' && t[p] == '.') {
        if t[p] == '[' {
            if p + 1 < t.len() && (t[p + 1] == '"' || t[p + 1] == '\'') {
                lemma_shifted_index(s, seq![t[p + 1]], at, p + 2);
                lemma_first_index(t, seq![t[p + 1]], p + 2);
                if let Some(close) = first_index(t, seq![t[p + 1]], p + 2) {
                    if close + 1 < t.len() && t[close + 1] == ']' {
                        lemma_shifted_steps(s, at, close + 2);
                        assert(s.subrange(at + p + 2, at + close) =~= t.subrange(p + 2, close));
                    }
                }
            } else {
                lemma_shifted_index(s, seq![']'], at, p + 1);
                lemma_first_index(t, seq![']'], p + 1);
                if let Some(end) = first_index(t, seq![']'], p + 1) {
                    lemma_shifted_steps(s, at, end + 1);
                    assert(s.subrange(at + p + 1, at + end) =~= t.subrange(p + 1, end));
                }
            }
        } else {
            lemma_shifted_end(s, at, p);
            lemma_name_end(t, p);
            let end = name_end(t, p);
            if end > p {
                lemma_shifted_steps(s, at, end);
                assert(s.subrange(at + p, at + end) =~= t.subrange(p, end));
            }
        }
    }
}

proof fn lemma_end_of_name(s: Seq<char>, at: int, end: int)
    requires
        0 <= at <= end <= s.len(),
        forall|i: int| at <= i < end ==> #[trigger] s[i] != '.' && s[i] != '[',
        end == s.len() || s[end] == '.' || s[end] == '[',
    ensures
        name_end(s, at) == end,
    decreases end - at,
{
    if at < end {
        assert(s[at] != '.');
        lemma_end_of_name(s, at + 1, end);
    }
}

/// A rest that can follow a segment.
spec fn follows(rest: Seq<char>) -> bool {
    rest.len() == 0 || rest[0] == '.' || rest[0] == '['
}

proof fn lemma_name(name: Seq<char>, rest: Seq<char>, dotted: bool)
    requires
        sound(Segment::Name(name)),
        follows(rest),
    ensures
        steps_from(
            (if dotted {
                seq!['.'] + name
            } else {
                name
            }) + rest,
            0,
        ) == cons(StepView::Key(name), steps_from(rest, 0)),
{
    let head = if dotted {
        seq!['.'] + name
    } else {
        name
    };
    let s = head + rest;
    let p: int = if dotted {
        1
    } else {
        0
    };
    let end = p + name.len();
    assert(name[0] != '.');
    assert(s[p] == name[0]);
    assert forall|i: int| p <= i < end implies #[trigger] s[i] != '.' && s[i] != '[' by {
        assert(s[i] == name[i - p]);
    }
    if rest.len() > 0 {
        assert(s[end] == rest[0]);
    }
    lemma_end_of_name(s, p, end);
    assert(s.subrange(p, end) =~= name);
    assert(s.skip(end) =~= rest);
    lemma_shifted_steps(s, end, 0);
}

proof fn lemma_quoted(quote: char, key: Seq<char>, rest: Seq<char>)
    requires
        sound(Segment::Quoted { quote, key }),
    ensures
        steps_from(segment_text(Segment::Quoted { quote, key }) + rest, 0) == cons(
            StepView::Key(key),
            steps_from(rest, 0),
        ),
{
    let s = segment_text(Segment::Quoted { quote, key }) + rest;
    let close = (2 + key.len()) as int;
    assert(s[0] == '[' && s[1] == quote && s[close] == quote && s[close + 1] == ']');
    assert(s.subrange(close, close + 1) =~= seq![quote]);
    assert forall|j: int| 2 <= j < close implies !occurs_at(s, seq![quote], j) by {
        assert(s[j] == key[j - 2]);
        if occurs_at(s, seq![quote], j) {
            assert(s.subrange(j, j + 1)[0] == s[j]);
        }
    }
    lemma_first_index_is(s, seq![quote], 2, close);
    assert(s.subrange(2, close) =~= key);
    assert(s.skip(close + 2) =~= rest);
    lemma_shifted_steps(s, close + 2, 0);
}

proof fn lemma_index(left: Seq<char>, n: nat, right: Seq<char>, rest: Seq<char>)
    requires
        sound(Segment::Index { left, n, right }),
    ensures
        steps_from(segment_text(Segment::Index { left, n, right }) + rest, 0) == cons(
            StepView::Index(n),
            steps_from(rest, 0),
        ),
{
    let d = decimal(n);
    decimal_texts_read_back(n);
    let inner = left + d + right;
    let s = segment_text(Segment::Index { left, n, right }) + rest;
    let end = (1 + inner.len()) as int;
    assert(s[0] == '[' && s[end] == ']');
    assert(s.subrange(end, end + 1) =~= seq![']']);
    assert forall|i: int| 0 <= i < inner.len() implies inner[i] != ']' && inner[i] != '"'
        && inner[i] != '\'' by {
        if i < left.len() {
            assert(inner[i] == left[i]);
        } else if i < left.len() + d.len() {
            assert(inner[i] == d[i - left.len()]);
        } else {
            assert(inner[i] == right[i - left.len() - d.len()]);
        }
    }
    assert(s[1] == inner[0]);
    assert forall|j: int| 1 <= j < end implies !occurs_at(s, seq![']'], j) by {
        assert(s[j] == inner[j - 1]);
        if occurs_at(s, seq![']'], j) {
            assert(s.subrange(j, j + 1)[0] == s[j]);
        }
    }
    lemma_first_index_is(s, seq![']'], 1, end);
    assert(s.subrange(1, end) =~= inner);
    assert(tight(d)) by {
        assert('0' <= d[0] && '0' <= d[d.len() - 1] && d[0] <= '9' && d[d.len() - 1] <= '9');
    }
    trimming_takes_the_ends(left, d, right);
    decimal_texts_are_indexes(n);
    assert(s.skip(end + 1) =~= rest);
    lemma_shifted_steps(s, end + 1, 0);
}

spec fn steps_of(path: Seq<Segment>) -> Seq<StepView> {
    path.map_values(|s: Segment| step_of(s))
}

proof fn lemma_path(path: Seq<Segment>)
    requires
        all_sound(path),
    ensures
        follows(path_text(path)),
        steps_from(path_text(path), 0) == Some(steps_of(path)),
    decreases path.len(),
{
    if path.len() == 0 {
        assert(steps_of(path) =~= Seq::<StepView>::empty());
    } else {
        let rest = path.skip(1);
        assert(all_sound(rest));
        lemma_path(rest);
        assert(sound(path[0]));
        let tail = path_text(rest);
        match path[0] {
            Segment::Name(name) => lemma_name(name, tail, true),
            Segment::Quoted { quote, key } => lemma_quoted(quote, key, tail),
            Segment::Index { left, n, right } => lemma_index(left, n, right, tail),
        }
        assert(steps_of(path) =~= seq![step_of(path[0])] + steps_of(rest));
    }
}

proof fn lemma_walk(v: JsonView, path: Seq<Segment>)
    ensures
        walk(v, steps_of(path)) == reached(v, path),
    decreases path.len(),
{
    if path.len() > 0 {
        assert(steps_of(path).skip(1) =~= steps_of(path.skip(1)));
        assert(steps_of(path)[0] == step_of(path[0]));
        if let Some(next) = inside(v, path[0]) {
            lemma_walk(next, path.skip(1));
        }
    }
}

/// A path that begins with `$` leads through its segments one by one: names and
/// quoted keys into objects, numbers into arrays. White space around it is
/// ignored.
pub proof fn paths_lead_through_their_segments(
    root: JsonView,
    left: Seq<char>,
    path: Seq<Segment>,
    right: Seq<char>,
)
    requires
        all_sound(path),
        tight(seq!['$'] + path_text(path)),
        blank(left),
        blank(right),
    ensures
        value_at(root, left + (seq!['$'] + path_text(path)) + right) == reached(root, path),
{
    let s = seq!['$'] + path_text(path);
    trimming_takes_the_ends(left, s, right);
    lemma_path(path);
    assert(s.skip(1) =~= path_text(path));
    lemma_shifted_steps(s, 1, 0);
    lemma_walk(root, path);
}

/// Without the `$`, a path begins with a name, or with a bracket.
pub proof fn paths_may_begin_with_a_name(root: JsonView, name: Seq<char>, path: Seq<Segment>)
    requires
        all_sound(path),
        sound(Segment::Name(name)),
        name[0] != '$',
        tight(name + path_text(path)),
    ensures
        value_at(root, name + path_text(path)) == reached(root, seq![Segment::Name(name)] + path),
{
    let s = name + path_text(path);
    let all = seq![Segment::Name(name)] + path;
    tight_text_is_kept(s);
    lemma_path(path);
    lemma_name(name, path_text(path), false);
    assert(steps_of(all) =~= seq![StepView::Key(name)] + steps_of(path));
    lemma_walk(root, all);
}

/// `[n]` alone steps into element `n` of an array.
pub proof fn an_index_steps_into_an_array(items: Seq<JsonView>, n: nat)
    requires
        n <= usize::MAX,
    ensures
        value_at(JsonView::Array(items), seq!['['] + decimal(n) + seq![']']) == if n < items.len() {
            Some(items[n as int])
        } else {
            None
        },
{
    let none = Seq::<char>::empty();
    let seg = Segment::Index { left: none, n, right: none };
    let path = seq![seg];
    let s = seq!['['] + decimal(n) + seq![']'];
    decimal_texts_read_back(n);
    assert(path.skip(1) =~= Seq::<Segment>::empty());
    reveal_with_fuel(path_text, 2);
    assert(path_text(path) =~= s);
    tight_text_is_kept(s);
    lemma_path(path);
    lemma_walk(JsonView::Array(items), path);
    reveal_with_fuel(reached, 2);
}

/// A dot at the end, two dots in a row, and a bracket that does not close lead
/// nowhere.
pub proof fn broken_paths_lead_nowhere(root: JsonView, name: Seq<char>, rest: Seq<char>)
    requires
        sound(Segment::Name(name)),
        name[0] != '$',
        tight(name),
    ensures
        value_at(root, name + seq!['.']) is None,
        tight(name + seq!['.', '.'] + rest) ==> value_at(root, name + seq!['.', '.'] + rest)
            is None,
        tight(name + seq!['['] + rest) && !rest.contains(']') ==> value_at(
            root,
            name + seq!['['] + rest,
        ) is None,
{
    let a = seq!['.'];
    lemma_name(name, a, false);
    tight_text_is_kept(name + a);
    let b = seq!['.', '.'] + rest;
    if tight(name + seq!['.', '.'] + rest) {
        assert(name + seq!['.', '.'] + rest =~= name + b);
        lemma_name(name, b, false);
        tight_text_is_kept(name + b);
    }
    let c = seq!['['] + rest;
    if tight(name + seq!['['] + rest) && !rest.contains(']') {
        assert(name + seq!['['] + rest =~= name + c);
        lemma_name(name, c, false);
        tight_text_is_kept(name + c);
        lemma_unclosed(rest);
    }
}

proof fn lemma_unclosed(rest: Seq<char>)
    requires
        !rest.contains(']'),
    ensures
        steps_from(seq!['['] + rest, 0) is None,
{
    let c = seq!['['] + rest;
    assert forall|i: int| 1 <= i < c.len() implies c[i] != ']' by {
        assert(c[i] == rest[i - 1]);
    }
    lemma_first_index(c, seq![']'], 1);
    if let Some(k) = first_index(c, seq![']'], 1) {
        assert(c.subrange(k, k + 1)[0] == c[k]);
    }
    if c.len() > 1 {
        lemma_first_index(c, seq![c[1]], 2);
    }
}

/// A dot may stand before a bracket, and changes nothing there.
pub proof fn a_dot_may_stand_before_a_bracket(root: JsonView, t: Seq<char>)
    requires
        t.len() > 0,
        t[0] == '[',
        tight(t),
    ensures
        value_at(root, seq!['$', '.'] + t) == value_at(root, seq!['$'] + t),
{
    let a = seq!['$', '.'] + t;
    let b = seq!['$'] + t;
    tight_text_is_kept(a);
    tight_text_is_kept(b);
    assert(a.skip(2) =~= t);
    assert(b.skip(1) =~= t);
    lemma_shifted_steps(a, 2, 0);
    lemma_shifted_steps(b, 1, 0);
    assert(a[1] == '.' && a[2] == '[');
    assert(steps_from(a, 1) == steps_from(a, 2));
}

} // verus!
