//! Laws of the JSON printer: how a document is laid out, however it was spaced.
use crate::body::line_index::{checks_below, line_checks, next_check};
use crate::body::pretty::{
    check_offsets, emit, feed, fresh_printer, line_break, pretty, state_after, Printer,
};
use vstd::prelude::*;

verus! {

/// A JSON document as its tokens nest. Words are numbers and the literals; texts
/// are what stands between two quotes.
pub enum Shape {
    Word(Seq<u8>),
    Text(Seq<u8>),
    List(Seq<Shape>),
    Record(Seq<(Seq<u8>, Shape)>),
}

/// A byte of white space between tokens.
pub open spec fn spacing(b: u8) -> bool {
    b == ' ' as u8 || b == '\t' as u8 || b == '\n' as u8 || b == '\r' as u8 || b == 12
}

/// A byte with a meaning of its own between tokens.
pub open spec fn structural(b: u8) -> bool {
    b == '{' as u8 || b == '}' as u8 || b == '[' as u8 || b == ']' as u8 || b == ',' as u8 || b
        == ':' as u8 || b == '"' as u8
}

pub open spec fn all_spacing(s: Seq<u8>) -> bool {
    forall|i: int| 0 <= i < s.len() ==> spacing(#[trigger] s[i])
}

pub open spec fn is_word(s: Seq<u8>) -> bool {
    s.len() > 0 && forall|i: int|
        0 <= i < s.len() ==> !spacing(#[trigger] s[i]) && !structural(s[i])
}

/// What can stand between two quotes: a quote only behind a backslash, and no
/// backslash without a byte behind it.
pub open spec fn is_text(s: Seq<u8>) -> bool
    decreases s.len(),
{
    if s.len() == 0 {
        true
    } else if s[0] == '\\' as u8 {
        s.len() >= 2 && is_text(s.skip(2))
    } else {
        s[0] != '"' as u8 && is_text(s.skip(1))
    }
}

pub open spec fn in_quotes(s: Seq<u8>) -> Seq<u8> {
    seq!['"' as u8] + s + seq!['"' as u8]
}

/// Whether a document is made of such words and texts.
pub open spec fn readable(s: Shape) -> bool
    decreases s,
{
    match s {
        Shape::Word(w) => is_word(w),
        Shape::Text(t) => is_text(t),
        Shape::List(items) => forall|i: int| 0 <= i < items.len() ==> readable(#[trigger] items[i]),
        Shape::Record(fields) => forall|i: int|
            0 <= i < fields.len() ==> is_text((#[trigger] fields[i]).0) && readable(fields[i].1),
    }
}

/// A document written with the same white space behind every token.
pub open spec fn spaced(s: Shape, gap: Seq<u8>) -> Seq<u8>
    decreases s, 0int,
{
    match s {
        Shape::Word(w) => w + gap,
        Shape::Text(t) => in_quotes(t) + gap,
        Shape::List(items) => seq!['[' as u8] + gap + spaced_items(items, items.len(), gap) + (seq![
            ']' as u8,
        ] + gap),
        Shape::Record(fields) => seq!['{' as u8] + gap + spaced_fields(fields, fields.len(), gap)
            + (seq!['}' as u8] + gap),
    }
}

pub open spec fn spaced_items(items: Seq<Shape>, n: nat, gap: Seq<u8>) -> Seq<u8>
    decreases items, n,
{
    if n == 0 || n > items.len() {
        Seq::empty()
    } else {
        spaced_items(items, (n - 1) as nat, gap) + (if n == 1 {
            Seq::empty()
        } else {
            seq![',' as u8] + gap
        }) + spaced(items[n - 1], gap)
    }
}

pub open spec fn spaced_fields(fields: Seq<(Seq<u8>, Shape)>, n: nat, gap: Seq<u8>) -> Seq<u8>
    decreases fields, n,
{
    if n == 0 || n > fields.len() {
        Seq::empty()
    } else {
        spaced_fields(fields, (n - 1) as nat, gap) + (if n == 1 {
            Seq::empty()
        } else {
            seq![',' as u8] + gap
        }) + (in_quotes(fields[n - 1].0) + gap) + (seq![':' as u8] + gap) + spaced(
            fields[n - 1].1,
            gap,
        )
    }
}

/// A new line that is indented by two spaces per level.
pub open spec fn new_line(depth: nat) -> Seq<u8> {
    seq!['\n' as u8] + Seq::new(2 * depth, |i: int| ' ' as u8)
}

/// A document laid out: each item and each member on a line of its own, two spaces
/// further in than its container; an empty container on one line.
pub open spec fn laid_out(s: Shape, depth: nat) -> Seq<u8>
    decreases s, 0int,
{
    match s {
        Shape::Word(w) => w,
        Shape::Text(t) => in_quotes(t),
        Shape::List(items) => if items.len() == 0 {
            seq!['[' as u8, ']' as u8]
        } else {
            seq!['[' as u8] + laid_items(items, items.len(), depth + 1) + new_line(depth) + seq![
                ']' as u8,
            ]
        },
        Shape::Record(fields) => if fields.len() == 0 {
            seq!['{' as u8, '}' as u8]
        } else {
            seq!['{' as u8] + laid_fields(fields, fields.len(), depth + 1) + new_line(depth) + seq![
                '}' as u8,
            ]
        },
    }
}

pub open spec fn laid_items(items: Seq<Shape>, n: nat, depth: nat) -> Seq<u8>
    decreases items, n,
{
    if n == 0 || n > items.len() {
        Seq::empty()
    } else {
        laid_items(items, (n - 1) as nat, depth) + (if n == 1 {
            Seq::empty()
        } else {
            seq![',' as u8]
        }) + new_line(depth) + laid_out(items[n - 1], depth)
    }
}

pub open spec fn laid_fields(fields: Seq<(Seq<u8>, Shape)>, n: nat, depth: nat) -> Seq<u8>
    decreases fields, n,
{
    if n == 0 || n > fields.len() {
        Seq::empty()
    } else {
        laid_fields(fields, (n - 1) as nat, depth) + (if n == 1 {
            Seq::empty()
        } else {
            seq![',' as u8]
        }) + new_line(depth) + in_quotes(fields[n - 1].0) + seq![':' as u8, ' ' as u8] + laid_out(
            fields[n - 1].1,
            depth,
        )
    }
}

spec fn feed_all(st: Printer, x: Seq<u8>) -> Printer
    decreases x.len(),
{
    if x.len() == 0 {
        st
    } else {
        feed(feed_all(st, x.drop_last()), x.last())
    }
}

spec fn emit_all(st: Printer, x: Seq<u8>) -> Seq<u8>
    decreases x.len(),
{
    if x.len() == 0 {
        Seq::empty()
    } else {
        emit_all(st, x.drop_last()) + emit(feed_all(st, x.drop_last()), x.last())
    }
}

proof fn lemma_whole(x: Seq<u8>)
    ensures
        state_after(x) == feed_all(fresh_printer(), x),
        pretty(x) == emit_all(fresh_printer(), x),
    decreases x.len(),
{
    if x.len() > 0 {
        lemma_whole(x.drop_last());
    }
}

proof fn lemma_concat(st: Printer, a: Seq<u8>, b: Seq<u8>)
    ensures
        feed_all(st, a + b) == feed_all(feed_all(st, a), b),
        emit_all(st, a + b) == emit_all(st, a) + emit_all(feed_all(st, a), b),
    decreases b.len(),
{
    if b.len() == 0 {
        assert(a + b =~= a);
        assert(emit_all(st, a) + Seq::<u8>::empty() =~= emit_all(st, a));
    } else {
        lemma_concat(st, a, b.drop_last());
        assert((a + b).drop_last() =~= a + b.drop_last());
        assert(emit_all(st, a + b) =~= emit_all(st, a) + emit_all(feed_all(st, a), b));
    }
}

proof fn lemma_one(st: Printer, b: u8)
    ensures
        feed_all(st, seq![b]) == feed(st, b),
        emit_all(st, seq![b]) == emit(st, b),
{
    reveal_with_fuel(feed_all, 2);
    reveal_with_fuel(emit_all, 2);
    assert(seq![b].drop_last() =~= Seq::<u8>::empty());
    assert(Seq::<u8>::empty() + emit(st, b) =~= emit(st, b));
}

proof fn lemma_gap(st: Printer, gap: Seq<u8>)
    requires
        all_spacing(gap),
        !st.in_str,
    ensures
        feed_all(st, gap) == st,
        emit_all(st, gap) == Seq::<u8>::empty(),
    decreases gap.len(),
{
    if gap.len() > 0 {
        lemma_gap(st, gap.drop_last());
        assert(spacing(gap[gap.len() - 1]));
        assert(emit_all(st, gap) =~= Seq::<u8>::empty());
    }
}

/// One token byte with white space behind it.
proof fn lemma_sign(st: Printer, b: u8, gap: Seq<u8>)
    requires
        all_spacing(gap),
        !feed(st, b).in_str,
    ensures
        feed_all(st, seq![b] + gap) == feed(st, b),
        emit_all(st, seq![b] + gap) == emit(st, b),
{
    lemma_concat(st, seq![b], gap);
    lemma_one(st, b);
    lemma_gap(feed(st, b), gap);
    assert(emit(st, b) + Seq::<u8>::empty() =~= emit(st, b));
}

spec fn ready(depth: nat) -> Printer {
    Printer { depth, in_str: false, escaped: false, pending: None }
}

/// A printer between two tokens at which a value can come.
spec fn awaits(st: Printer) -> bool {
    !st.in_str && !st.escaped && (st.pending == None::<u8> || st.pending == Some(0x7du8)
        || st.pending == Some(0x5du8))
}

spec fn level(st: Printer) -> nat {
    if st.pending is Some {
        st.depth + 1
    } else {
        st.depth
    }
}

spec fn lead(st: Printer) -> Seq<u8> {
    if st.pending is Some {
        new_line(level(st))
    } else {
        Seq::empty()
    }
}

proof fn lemma_line_break(depth: nat)
    ensures
        line_break(depth) == new_line(depth),
{
    assert(line_break(depth) =~= new_line(depth));
}

proof fn lemma_word(st: Printer, w: Seq<u8>)
    requires
        awaits(st),
        is_word(w),
    ensures
        feed_all(st, w) == ready(level(st)),
        emit_all(st, w) == lead(st) + w,
    decreases w.len(),
{
    let b = w[w.len() - 1];
    lemma_line_break(level(st));
    assert(!spacing(b) && !structural(b));
    if w.len() == 1 {
        assert(w =~= seq![b]);
        lemma_one(st, b);
    } else {
        assert(is_word(w.drop_last()));
        lemma_word(st, w.drop_last());
        assert(emit(ready(level(st)), b) =~= seq![b]);
        assert(lead(st) + w.drop_last() + seq![b] =~= lead(st) + w);
    }
}

proof fn lemma_inside_text(st: Printer, t: Seq<u8>)
    requires
        st.in_str && !st.escaped,
        is_text(t),
    ensures
        feed_all(st, t) == st,
        emit_all(st, t) == t,
    decreases t.len(),
{
    if t.len() > 0 {
        let first = if t[0] == '\\' as u8 {
            t.take(2)
        } else {
            t.take(1)
        };
        let rest = t.skip(first.len() as int);
        assert(t =~= first + rest);
        lemma_concat(st, first, rest);
        if t[0] == '\\' as u8 {
            assert(first =~= seq![t[0]] + seq![t[1]]);
            lemma_concat(st, seq![t[0]], seq![t[1]]);
            lemma_one(st, t[0]);
            lemma_one(feed(st, t[0]), t[1]);
        } else {
            assert(first =~= seq![t[0]]);
            lemma_one(st, t[0]);
        }
        assert(feed_all(st, first) == st);
        assert(emit_all(st, first) =~= first);
        lemma_inside_text(st, rest);
    }
}

proof fn lemma_text(st: Printer, t: Seq<u8>, gap: Seq<u8>)
    requires
        awaits(st),
        is_text(t),
        all_spacing(gap),
    ensures
        feed_all(st, in_quotes(t) + gap) == ready(level(st)),
        emit_all(st, in_quotes(t) + gap) == lead(st) + in_quotes(t),
{
    let q = '"' as u8;
    let opened = Printer { depth: level(st), in_str: true, escaped: false, pending: None };
    lemma_line_break(level(st));
    lemma_one(st, q);
    assert(feed(st, q) == opened);
    assert(emit(st, q) =~= lead(st) + seq![q]);
    lemma_concat(st, seq![q], t);
    lemma_inside_text(opened, t);
    lemma_concat(st, seq![q] + t, seq![q]);
    lemma_one(opened, q);
    assert(feed(opened, q) == ready(level(st)));
    lemma_concat(st, in_quotes(t), gap);
    lemma_gap(ready(level(st)), gap);
    assert(emit_all(st, in_quotes(t) + gap) =~= lead(st) + in_quotes(t));
}

/// What a value between two tokens prints as.
proof fn lemma_shape(st: Printer, s: Shape, gap: Seq<u8>)
    requires
        awaits(st),
        readable(s),
        all_spacing(gap),
    ensures
        feed_all(st, spaced(s, gap)) == ready(level(st)),
        emit_all(st, spaced(s, gap)) == lead(st) + laid_out(s, level(st)),
    decreases s, 0int,
{
    match s {
        Shape::Word(w) => {
            lemma_word(st, w);
            lemma_concat(st, w, gap);
            lemma_gap(ready(level(st)), gap);
            assert(emit_all(st, w + gap) =~= lead(st) + w);
        },
        Shape::Text(t) => lemma_text(st, t, gap),
        Shape::List(items) => {
            let inner = spaced_items(items, items.len(), gap);
            lemma_open(st, 0x5bu8, 0x5du8, gap);
            if items.len() > 0 {
                lemma_items(level(st), items, items.len(), gap);
            }
            lemma_close(
                st,
                0x5bu8,
                0x5du8,
                inner,
                laid_items(items, items.len(), level(st) + 1),
                gap,
            );
        },
        Shape::Record(fields) => {
            let inner = spaced_fields(fields, fields.len(), gap);
            lemma_open(st, 0x7bu8, 0x7du8, gap);
            if fields.len() > 0 {
                lemma_fields(level(st), fields, fields.len(), gap);
            }
            lemma_close(
                st,
                0x7bu8,
                0x7du8,
                inner,
                laid_fields(fields, fields.len(), level(st) + 1),
                gap,
            );
        },
    }
}

/// A printer behind the opening byte of a container.
spec fn opened(depth: nat, closer: u8) -> Printer {
    Printer { depth, in_str: false, escaped: false, pending: Some(closer) }
}

proof fn lemma_open(st: Printer, open: u8, close: u8, gap: Seq<u8>)
    requires
        awaits(st),
        all_spacing(gap),
        (open == 0x5bu8 && close == 0x5du8) || (open == 0x7bu8 && close == 0x7du8),
    ensures
        feed_all(st, seq![open] + gap) == opened(level(st), close),
        emit_all(st, seq![open] + gap) == lead(st) + seq![open],
{
    lemma_line_break(level(st));
    lemma_sign(st, open, gap);
    assert(emit(st, open) =~= lead(st) + seq![open]);
}

proof fn lemma_close(
    st: Printer,
    open: u8,
    close: u8,
    inner: Seq<u8>,
    laid: Seq<u8>,
    gap: Seq<u8>,
)
    requires
        awaits(st),
        all_spacing(gap),
        (open == 0x5bu8 && close == 0x5du8) || (open == 0x7bu8 && close == 0x7du8),
        inner.len() > 0 ==> feed_all(opened(level(st), close), inner) == ready(level(st) + 1),
        inner.len() > 0 ==> emit_all(opened(level(st), close), inner) == laid,
    ensures
        ({
            let all = seq![open] + gap + inner + (seq![close] + gap);
            &&& feed_all(st, all) == ready(level(st))
            &&& emit_all(st, all) == lead(st) + if inner.len() == 0 {
                seq![open, close]
            } else {
                seq![open] + laid + new_line(level(st)) + seq![close]
            }
        }),
{
    let d = level(st);
    let head = seq![open] + gap;
    lemma_open(st, open, close, gap);
    lemma_concat(st, head, inner);
    lemma_concat(st, head + inner, seq![close] + gap);
    lemma_line_break(d);
    let all = head + inner + (seq![close] + gap);
    if inner.len() == 0 {
        assert(inner =~= Seq::<u8>::empty());
        lemma_sign(opened(d, close), close, gap);
        assert(emit_all(st, all) =~= lead(st) + seq![open, close]);
    } else {
        lemma_sign(ready(d + 1), close, gap);
        assert(emit(ready(d + 1), close) =~= new_line(d) + seq![close]);
        assert(emit_all(st, all) =~= lead(st) + (seq![open] + laid + new_line(d) + seq![close]));
    }
}

proof fn lemma_comma(depth: nat, gap: Seq<u8>)
    requires
        all_spacing(gap),
    ensures
        feed_all(ready(depth), seq![0x2cu8] + gap) == ready(depth),
        emit_all(ready(depth), seq![0x2cu8] + gap) == seq![0x2cu8] + new_line(depth),
{
    lemma_line_break(depth);
    lemma_sign(ready(depth), 0x2c, gap);
    assert(emit(ready(depth), 0x2c) =~= seq![0x2cu8] + new_line(depth));
}

proof fn lemma_items(depth: nat, items: Seq<Shape>, n: nat, gap: Seq<u8>)
    requires
        1 <= n <= items.len(),
        forall|i: int| 0 <= i < items.len() ==> readable(#[trigger] items[i]),
        all_spacing(gap),
    ensures
        feed_all(opened(depth, 0x5d), spaced_items(items, n, gap)) == ready(depth + 1),
        emit_all(opened(depth, 0x5d), spaced_items(items, n, gap)) == laid_items(
            items,
            n,
            depth + 1,
        ),
        spaced_items(items, n, gap).len() > 0,
    decreases items, n,
{
    let st = opened(depth, 0x5d);
    let item = items[n - 1];
    let text = spaced(item, gap);
    assert(readable(items[n - 1]));
    lemma_spaced_len(item, gap);
    if n == 1 {
        lemma_shape(st, item, gap);
        assert(spaced_items(items, 1, gap) =~= text) by {
            reveal_with_fuel(spaced_items, 2);
        }
        assert(laid_items(items, 1, depth + 1) =~= new_line(depth + 1) + laid_out(item, depth + 1))
            by {
            reveal_with_fuel(laid_items, 2);
        }
    } else {
        let before = spaced_items(items, (n - 1) as nat, gap);
        let comma = seq![0x2cu8] + gap;
        lemma_items(depth, items, (n - 1) as nat, gap);
        lemma_concat(st, before, comma);
        lemma_comma(depth + 1, gap);
        lemma_concat(st, before + comma, text);
        lemma_shape(ready(depth + 1), item, gap);
        assert(spaced_items(items, n, gap) == before + comma + text);
        assert(emit_all(st, before + comma + text) =~= laid_items(items, n, depth + 1));
    }
}

proof fn lemma_spaced_len(s: Shape, gap: Seq<u8>)
    requires
        readable(s),
    ensures
        spaced(s, gap).len() > 0,
{
}

proof fn lemma_member(st: Printer, key: Seq<u8>, value: Shape, gap: Seq<u8>)
    requires
        awaits(st),
        is_text(key),
        readable(value),
        all_spacing(gap),
    ensures
        ({
            let text = (in_quotes(key) + gap) + (seq![0x3au8] + gap) + spaced(value, gap);
            &&& feed_all(st, text) == ready(level(st))
            &&& emit_all(st, text) == lead(st) + in_quotes(key) + seq![0x3au8, 0x20u8] + laid_out(
                value,
                level(st),
            )
        }),
    decreases value, 1int,
{
    let d = level(st);
    let name = in_quotes(key) + gap;
    let colon = seq![0x3au8] + gap;
    lemma_text(st, key, gap);
    lemma_concat(st, name, colon);
    lemma_sign(ready(d), 0x3a, gap);
    assert(emit(ready(d), 0x3a) =~= seq![0x3au8, 0x20u8]);
    lemma_concat(st, name + colon, spaced(value, gap));
    lemma_shape(ready(d), value, gap);
    assert(emit_all(st, name + colon + spaced(value, gap)) =~= lead(st) + in_quotes(key) + seq![
        0x3au8,
        0x20u8,
    ] + laid_out(value, d));
}

proof fn lemma_fields(depth: nat, fields: Seq<(Seq<u8>, Shape)>, n: nat, gap: Seq<u8>)
    requires
        1 <= n <= fields.len(),
        forall|i: int|
            0 <= i < fields.len() ==> is_text((#[trigger] fields[i]).0) && readable(fields[i].1),
        all_spacing(gap),
    ensures
        feed_all(opened(depth, 0x7d), spaced_fields(fields, n, gap)) == ready(depth + 1),
        emit_all(opened(depth, 0x7d), spaced_fields(fields, n, gap)) == laid_fields(
            fields,
            n,
            depth + 1,
        ),
        spaced_fields(fields, n, gap).len() > 0,
    decreases fields, n,
{
    let st = opened(depth, 0x7d);
    let (key, value) = fields[n - 1];
    let text = (in_quotes(key) + gap) + (seq![0x3au8] + gap) + spaced(value, gap);
    assert(is_text(fields[n - 1].0) && readable(fields[n - 1].1));
    if n == 1 {
        lemma_member(st, key, value, gap);
        assert(spaced_fields(fields, 1, gap) =~= text) by {
            reveal_with_fuel(spaced_fields, 2);
        }
        assert(laid_fields(fields, 1, depth + 1) =~= new_line(depth + 1) + in_quotes(key) + seq![
            0x3au8,
            0x20u8,
        ] + laid_out(value, depth + 1)) by {
            reveal_with_fuel(laid_fields, 2);
        }
    } else {
        let before = spaced_fields(fields, (n - 1) as nat, gap);
        let comma = seq![0x2cu8] + gap;
        lemma_fields(depth, fields, (n - 1) as nat, gap);
        lemma_concat(st, before, comma);
        lemma_comma(depth + 1, gap);
        lemma_concat(st, before + comma, text);
        lemma_member(ready(depth + 1), key, value, gap);
        assert(spaced_fields(fields, n, gap) =~= before + comma + text);
        assert(emit_all(st, before + comma + text) =~= laid_fields(fields, n, depth + 1));
    }
}

/// A document prints in one layout, whatever white space stands between its
/// tokens: every item and member on a line of its own, two spaces per level, a
/// space behind each colon, empty containers closed up, and the bytes of its words
/// and texts as they are.
pub proof fn documents_have_one_layout(s: Shape, before: Seq<u8>, gap: Seq<u8>)
    requires
        readable(s),
        all_spacing(before),
        all_spacing(gap),
    ensures
        pretty(before + spaced(s, gap)) == laid_out(s, 0),
{
    let st = fresh_printer();
    lemma_whole(before + spaced(s, gap));
    lemma_concat(st, before, spaced(s, gap));
    lemma_gap(st, before);
    lemma_shape(st, s, gap);
    assert(emit_all(st, before + spaced(s, gap)) =~= laid_out(s, 0));
}

/// The printer asks whether to go on at the first byte and then once every megabyte,
/// and nowhere else.
pub proof fn printing_asks_every_megabyte(n: nat, i: int)
    ensures
        0 <= i < check_offsets(n).len() ==> check_offsets(n)[i] == i * 1048576
            && check_offsets(n)[i] < n,
        0 <= i && i * 1048576 < n ==> i < check_offsets(n).len(),
{
}

proof fn lemma_questions(bytes: Seq<u8>, n: nat)
    requires
        n <= bytes.len(),
    ensures
        ({
            let c = checks_below(bytes, n);
            &&& c.len() > 0
            &&& c[0] == 0
            &&& next_check(bytes, n) == c.last() + 1048576
            &&& forall|i: int|
                1 <= i < c.len() ==> 0 <= #[trigger] c[i] < n && bytes[c[i]] == 10 && c[i] >= c[i
                    - 1] + 1048576
            &&& forall|i: int, p: int|
                1 <= i < c.len() && c[i - 1] + 1048576 <= p < #[trigger] c[i]
                    ==> #[trigger] bytes[p] != 10
            &&& forall|p: int| c.last() + 1048576 <= p < n ==> #[trigger] bytes[p] != 10
        }),
    decreases n,
{
    if n > 0 {
        let k = (n - 1) as nat;
        lemma_questions(bytes, k);
        let before = checks_below(bytes, k);
        let c = checks_below(bytes, n);
        if bytes[k as int] == 10 && k >= next_check(bytes, k) {
            assert(c == before.push(k as int));
            assert forall|i: int| 1 <= i < c.len() implies 0 <= #[trigger] c[i] < n && bytes[c[i]]
                == 10 && c[i] >= c[i - 1] + 1048576 by {
                if i < before.len() {
                    assert(c[i] == before[i]);
                }
            }
            assert forall|i: int, p: int|
                1 <= i < c.len() && c[i - 1] + 1048576 <= p < #[trigger] c[i] implies
                #[trigger] bytes[p] != 10 by {
                if i < before.len() {
                    assert(c[i] == before[i]);
                }
            }
        }
    }
}

/// The index of a text asks whether to go on before it begins, and then at each first
/// line feed that is a megabyte or more behind the place before.
pub proof fn indexing_asks_at_line_feeds(bytes: Seq<u8>, i: int, p: int)
    requires
        1 <= i < line_checks(bytes).len(),
    ensures
        line_checks(bytes)[0] == 0,
        0 <= line_checks(bytes)[i] < bytes.len(),
        bytes[line_checks(bytes)[i]] == 10,
        line_checks(bytes)[i] >= line_checks(bytes)[i - 1] + 1048576,
        line_checks(bytes)[i - 1] + 1048576 <= p < line_checks(bytes)[i] ==> bytes[p] != 10,
{
    lemma_questions(bytes, bytes.len());
}

} // verus!
