//! Read-only text document: a text and its line index.
use crate::body::cancel::{asked_at, consulted, lemma_consulted, Asker};
use crate::body::line_index::{line_checks, offset_bytes, LineIndex, LineTable};
use crate::body::pretty::{emit, pretty, state_after, Printer};
use crate::strings::{decode_lossy, string_capacity, take_utf8};
use vstd::prelude::*;

verus! {

/// Longest line, in characters, that is shown whole.
pub const MAX_LINE_CHARS: usize = 2000;

/// The index of the widest line: of several, the last one.
pub open spec fn is_longest(t: LineTable, ix: Option<usize>) -> bool {
    match ix {
        None => t.starts.len() == 0,
        Some(k) => {
            &&& k < t.starts.len()
            &&& forall|i: int| 0 <= i <= k ==> #[trigger] t.width(i) <= t.width(k as int)
            &&& forall|i: int| k < i < t.starts.len() ==> #[trigger] t.width(i) < t.width(k as int)
        },
    }
}

/// Where the index of a text asks whether to go on.
pub open spec fn text_checks(text: Seq<char>) -> Seq<int> {
    line_checks(vstd::utf8::encode_utf8(text))
}

/// A line without its terminator: a final line feed goes, then a final
/// carriage return.
pub open spec fn without_terminator(line: Seq<u8>) -> Seq<u8> {
    let a = if line.len() > 0 && line.last() == 0x0a { line.drop_last() } else { line };
    if a.len() > 0 && a.last() == 0x0d {
        a.drop_last()
    } else {
        a
    }
}

/// The bytes of line `ix` of a text, without the terminator.
pub open spec fn line_content(bytes: Seq<u8>, ix: int) -> Seq<u8> {
    let t = crate::body::line_index::line_table(bytes);
    without_terminator(bytes.subrange(t.start(ix), t.end(ix)))
}

#[derive(Debug)]
pub struct TextDoc {
    text: String,
    lines: LineIndex,
    longest_line: Option<usize>,
}

impl View for TextDoc {
    type V = Seq<char>;

    closed spec fn view(&self) -> Seq<char> {
        self.text@
    }
}

impl TextDoc {
    /// The line table of the document's text.
    pub open spec fn table(&self) -> LineTable {
        crate::body::line_index::line_table(vstd::utf8::encode_utf8(self@))
    }

    #[verifier::type_invariant]
    spec fn consistent(&self) -> bool {
        &&& self.lines@ == crate::body::line_index::line_table(vstd::utf8::encode_utf8(self.text@))
        &&& is_longest(self.lines@, self.longest_line)
    }

    pub fn new(text: String) -> (r: TextDoc)
        ensures
            r@ == text@,
    {
        let lines = LineIndex::build(text.as_str().as_bytes());
        proof {
            lemma_spans_ascend(text@);
        }
        let longest_line = find_longest(&lines);
        TextDoc { text, lines, longest_line }
    }

    /// Indexes the text, giving up when `should_cancel` answers `true`.
    pub fn new_cancellable<F: FnMut() -> bool>(text: String, should_cancel: F) -> (r: Option<
        TextDoc,
    >)
        requires
            call_requires(should_cancel, ()),
        ensures
            r matches Some(doc) ==> doc@ == text@,
            consulted(should_cancel, text_checks(text@), r is None),
    {
        let mut ask = Asker::new(should_cancel);
        let ghost before = ask;
        let r = Self::new_asking(text, &mut ask);
        proof {
            lemma_consulted(before, ask, text_checks(text@), r is None);
        }
        r
    }

    /// [`TextDoc::new_cancellable`] with a callback that is asked elsewhere too.
    pub fn new_asking<F: FnMut() -> bool>(text: String, ask: &mut Asker<F>) -> (r: Option<TextDoc>)
        requires
            call_requires(old(ask).callback(), ()),
        ensures
            r matches Some(doc) ==> doc@ == text@,
            asked_at(*old(ask), *final(ask), text_checks(text@), r is None),
    {
        match LineIndex::build_asking(text.as_str().as_bytes(), ask) {
            Some(lines) => {
                proof {
                    lemma_spans_ascend(text@);
                }
                let longest_line = find_longest(&lines);
                Some(TextDoc { text, lines, longest_line })
            },
            None => None,
        }
    }

    /// Takes valid UTF-8 as it is; repairs anything else.
    pub fn from_bytes(bytes: Vec<u8>) -> (r: TextDoc)
        ensures
            r@ == text_of(bytes@),
    {
        Self::new(decode_body(bytes))
    }

    /// [`TextDoc::from_bytes`], giving up when `should_cancel` answers `true`. The
    /// callback is asked at least once, even where there are no bytes.
    pub fn from_bytes_cancellable<F: FnMut() -> bool>(bytes: Vec<u8>, should_cancel: F) -> (r:
        Option<TextDoc>)
        requires
            call_requires(should_cancel, ()),
        ensures
            r matches Some(doc) ==> doc@ == text_of(bytes@),
            consulted(should_cancel, text_checks(text_of(bytes@)), r is None),
    {
        Self::new_cancellable(decode_body(bytes), should_cancel)
    }

    /// [`TextDoc::from_bytes_cancellable`] with a callback that is asked elsewhere
    /// too.
    pub fn from_bytes_asking<F: FnMut() -> bool>(bytes: Vec<u8>, ask: &mut Asker<F>) -> (r: Option<
        TextDoc,
    >)
        requires
            call_requires(old(ask).callback(), ()),
        ensures
            r matches Some(doc) ==> doc@ == text_of(bytes@),
            asked_at(*old(ask), *final(ask), text_checks(text_of(bytes@)), r is None),
    {
        Self::new_asking(decode_body(bytes), ask)
    }

    pub fn text(&self) -> (r: &str)
        ensures
            r@ == self@,
    {
        self.text.as_str()
    }

    pub fn len_bytes(&self) -> (r: usize)
        ensures
            r == vstd::utf8::encode_utf8(self@).len(),
    {
        self.text.as_str().as_bytes().len()
    }

    pub fn line_count(&self) -> (r: usize)
        ensures
            r == self.table().starts.len(),
    {
        proof {
            use_type_invariant(self);
        }
        self.lines.len()
    }

    /// The widest line by bytes; `None` for an empty document.
    pub fn longest_line(&self) -> (r: Option<usize>)
        ensures
            is_longest(self.table(), r),
    {
        proof {
            use_type_invariant(self);
        }
        self.longest_line
    }

    pub fn index(&self) -> (r: &LineIndex)
        ensures
            r@ == self.table(),
    {
        proof {
            use_type_invariant(self);
        }
        &self.lines
    }

    /// Heap memory held by the text and its index, by their capacities.
    pub fn heap_bytes(&self) -> (r: usize)
        ensures
            vstd::utf8::encode_utf8(self@).len() + offset_bytes(self.table())
                * self.table().starts.len() <= r <= 2 * isize::MAX,
    {
        proof {
            use_type_invariant(self);
        }
        string_capacity(&self.text) + self.lines.heap_bytes()
    }

    /// Line `ix` without its terminator.
    pub fn line(&self, ix: usize) -> (r: &str)
        requires
            ix < self.table().starts.len(),
        ensures
            vstd::utf8::encode_utf8(r@) == line_content(vstd::utf8::encode_utf8(self@), ix as int),
    {
        proof {
            use_type_invariant(self);
            lemma_line_boundaries(self.text@, ix as int);
        }
        let span = self.lines.span(ix);
        let ghost bytes = vstd::utf8::encode_utf8(self.text@);
        let (head, _rest) = self.text.as_str().split_at(span.end);
        proof {
            vstd::utf8::encode_utf8_valid_utf8(self.text@);
            lemma_boundary_in_head(bytes, span.start as int, span.end as int);
        }
        let (_before, line) = head.split_at(span.start);
        proof {
            assert(vstd::utf8::encode_utf8(line@) =~= bytes.subrange(
                span.start as int,
                span.end as int,
            ));
        }
        let line = strip_last(line, 0x0a);
        strip_last(line, 0x0d)
    }
}

/// What a body's bytes read as: valid UTF-8 is decoded, anything else is
/// repaired.
pub open spec fn text_of(bytes: Seq<u8>) -> Seq<char> {
    if vstd::utf8::valid_utf8(bytes) {
        vstd::utf8::decode_utf8(bytes)
    } else {
        crate::strings::lossy_utf8(bytes)
    }
}

fn decode_body(bytes: Vec<u8>) -> (r: String)
    ensures
        r@ == text_of(bytes@),
{
    match take_utf8(bytes) {
        Ok(text) => {
            proof {
                vstd::utf8::encode_utf8_decode_utf8(text@);
            }
            text
        },
        Err(raw) => decode_lossy(raw.as_slice()),
    }
}

fn find_longest(lines: &LineIndex) -> (r: Option<usize>)
    requires
        forall|i: int| 0 <= i < lines@.starts.len() ==> #[trigger] lines@.start(i) <= lines@.end(i),
    ensures
        is_longest(lines@, r),
{
    let n = lines.len();
    if n == 0 {
        return None;
    }
    let mut best: usize = 0;
    let mut widest: usize = 0;
    let mut i: usize = 0;
    while i < n
        invariant
            n == lines@.starts.len(),
            i <= n,
            best < n,
            forall|k: int| 0 <= k < n ==> #[trigger] lines@.start(k) <= lines@.end(k),
            i > 0 ==> best < i && widest == lines@.width(best as int),
            i == 0 ==> widest == 0,
            forall|k: int| 0 <= k < i && k <= best ==> #[trigger] lines@.width(k) <= widest,
            forall|k: int| best < k < i ==> #[trigger] lines@.width(k) < widest,
        decreases n - i,
    {
        let span = lines.span(i);
        let ghost w = lines@.start(i as int);
        let width = span.end - span.start;
        if width >= widest {
            best = i;
            widest = width;
        }
        i = i + 1;
    }
    Some(best)
}

proof fn lemma_spans_ascend(text: Seq<char>)
    ensures
        ({
            let t = crate::body::line_index::line_table(vstd::utf8::encode_utf8(text));
            forall|i: int| 0 <= i < t.starts.len() ==> #[trigger] t.start(i) <= t.end(i)
        }),
{
    crate::body::line_index::lines_partition_the_text(vstd::utf8::encode_utf8(text));
}

/// Lines start and end between two characters.
proof fn lemma_line_boundaries(text: Seq<char>, ix: int)
    requires
        0 <= ix < crate::body::line_index::line_table(
            vstd::utf8::encode_utf8(text),
        ).starts.len(),
    ensures
        ({
            let bytes = vstd::utf8::encode_utf8(text);
            let t = crate::body::line_index::line_table(bytes);
            &&& 0 <= t.start(ix) <= t.end(ix) <= bytes.len()
            &&& vstd::utf8::is_char_boundary(bytes, t.start(ix))
            &&& vstd::utf8::is_char_boundary(bytes, t.end(ix))
        }),
{
    let bytes = vstd::utf8::encode_utf8(text);
    let t = crate::body::line_index::line_table(bytes);
    vstd::utf8::encode_utf8_valid_utf8(text);
    crate::body::line_index::lines_partition_the_text(bytes);
    crate::body::line_index::line_starts_are_exact(bytes);
    vstd::utf8::is_char_boundary_start_end_of_seq(bytes);
    assert(crate::body::line_index::is_line_start(bytes, t.starts[ix]));
    if t.start(ix) > 0 {
        crate::strings::lemma_ascii_boundaries(bytes, t.start(ix) - 1);
    }
    if ix + 1 < t.starts.len() {
        assert(crate::body::line_index::is_line_start(bytes, t.starts[ix + 1]));
        assert(t.end(ix) == t.start(ix + 1));
        crate::strings::lemma_ascii_boundaries(bytes, t.end(ix) - 1);
    }
    assert(t.start(ix) < t.end(ix));
}

/// A boundary of a text is a boundary of any longer-reaching head of it.
proof fn lemma_boundary_in_head(bytes: Seq<u8>, a: int, b: int)
    requires
        vstd::utf8::valid_utf8(bytes),
        0 <= a <= b <= bytes.len(),
        vstd::utf8::is_char_boundary(bytes, a),
        vstd::utf8::is_char_boundary(bytes, b),
    ensures
        vstd::utf8::is_char_boundary(bytes.subrange(0, b), a),
{
    let head = bytes.subrange(0, b);
    vstd::utf8::valid_utf8_split(bytes, b);
    vstd::utf8::is_char_boundary_start_end_of_seq(head);
    if a < b {
        vstd::utf8::is_char_boundary_iff_not_is_continuation_byte(bytes, a);
        vstd::utf8::is_char_boundary_iff_not_is_continuation_byte(head, a);
        assert(head[a] == bytes[a]);
    }
}

/// `s` without its last character, where that is the ASCII character `b`.
fn strip_last(s: &str, b: u8) -> (r: &str)
    requires
        b < 0x80,
    ensures
        ({
            let bytes = vstd::utf8::encode_utf8(s@);
            vstd::utf8::encode_utf8(r@) == if bytes.len() > 0 && bytes.last() == b {
                bytes.drop_last()
            } else {
                bytes
            }
        }),
{
    let bytes = s.as_bytes();
    let n = bytes.len();
    if n > 0 && bytes[n - 1] == b {
        proof {
            vstd::utf8::encode_utf8_valid_utf8(s@);
            crate::strings::lemma_ascii_boundaries(bytes@, n - 1);
        }
        let (head, _last) = s.split_at(n - 1);
        proof {
            assert(vstd::utf8::encode_utf8(head@) =~= vstd::utf8::encode_utf8(s@).drop_last());
        }
        head
    } else {
        s
    }
}

/// A line as it is shown.
#[derive(Debug, Clone, Copy, PartialEq, Eq)]
pub struct ClippedLine<'a> {
    pub text: &'a str,
    /// How many characters are cut off; 0 where the line is whole.
    pub hidden_chars: usize,
}

/// What is shown of a line.
pub open spec fn clipped(line: Seq<char>) -> Seq<char> {
    if line.len() <= MAX_LINE_CHARS {
        line
    } else {
        line.take(MAX_LINE_CHARS as int)
    }
}

/// Cuts a line after [`MAX_LINE_CHARS`] characters.
pub fn clip_line(line: &str) -> (r: ClippedLine<'_>)
    ensures
        r.text@ == clipped(line@),
        r.hidden_chars == line@.len() - r.text@.len(),
{
    let n = line.unicode_len();
    if n <= MAX_LINE_CHARS {
        ClippedLine { text: line, hidden_chars: 0 }
    } else {
        ClippedLine {
            text: line.substring_char(0, MAX_LINE_CHARS),
            hidden_chars: n - MAX_LINE_CHARS,
        }
    }
}

/// How many bytes the character that starts with `b` has; 0 for a byte that
/// starts none.
pub open spec fn char_width(b: u8) -> int {
    if b < 0x80 {
        1
    } else if 0xc0 <= b <= 0xdf {
        2
    } else if 0xe0 <= b <= 0xef {
        3
    } else if 0xf0 <= b <= 0xf7 {
        4
    } else {
        0
    }
}

/// Where a cut-off character at the end of `bytes` starts: one of the last three
/// bytes starts a character that reaches past the end, and only continuation
/// bytes follow it.
pub open spec fn cut_at(bytes: Seq<u8>, k: int) -> bool {
    &&& 1 <= k <= 3
    &&& k <= bytes.len()
    &&& char_width(bytes[bytes.len() - k]) > k
    &&& forall|j: int|
        bytes.len() - k < j < bytes.len() ==> 0x80 <= #[trigger] bytes[j] <= 0xbf
}

/// `bytes` without a character that was cut off at the end.
pub open spec fn without_partial(bytes: Seq<u8>) -> Seq<u8> {
    if exists|k: int| cut_at(bytes, k) {
        let k = choose|k: int| cut_at(bytes, k);
        bytes.take(bytes.len() - k)
    } else {
        bytes
    }
}

proof fn lemma_cut_is_unique(bytes: Seq<u8>, a: int, b: int)
    requires
        cut_at(bytes, a),
        cut_at(bytes, b),
    ensures
        a == b,
{
    if a < b {
        assert(0x80 <= bytes[bytes.len() - a] <= 0xbf);
    } else if b < a {
        assert(0x80 <= bytes[bytes.len() - b] <= 0xbf);
    }
}

fn width_of(b: u8) -> (r: usize)
    ensures
        r == char_width(b),
{
    if b < 0x80 {
        1
    } else if 0xc0 <= b && b <= 0xdf {
        2
    } else if 0xe0 <= b && b <= 0xef {
        3
    } else if 0xf0 <= b && b <= 0xf7 {
        4
    } else {
        0
    }
}

/// Drops a character that was cut off at the end.
pub fn trim_partial_utf8(bytes: &[u8]) -> (r: &[u8])
    ensures
        r@ == without_partial(bytes@),
{
    let n = bytes.len();
    let mut k: usize = 1;
    while k <= 3 && k <= n
        invariant
            n == bytes@.len(),
            1 <= k <= 4,
            forall|j: int| n - k < j < n && 0 <= j ==> 0x80 <= #[trigger] bytes@[j] <= 0xbf,
            forall|c: int| 1 <= c < k ==> !cut_at(bytes@, c),
        decreases 4 - k,
    {
        let b = bytes[n - k];
        let w = width_of(b);
        if w > k {
            proof {
                assert(cut_at(bytes@, k as int));
                let c = choose|c: int| cut_at(bytes@, c);
                lemma_cut_is_unique(bytes@, k as int, c);
            }
            let r = vstd::slice::slice_subrange(bytes, 0, n - k);
            proof {
                assert(r@ =~= bytes@.take(n - k));
            }
            return r;
        }
        if b < 0x80 || b > 0xbf {
            proof {
                assert forall|c: int| !cut_at(bytes@, c) by {
                    if cut_at(bytes@, c) && c > k {
                        assert(0x80 <= bytes@[n - k] <= 0xbf);
                    }
                }
            }
            return bytes;
        }
        k = k + 1;
    }
    proof {
        assert forall|c: int| !cut_at(bytes@, c) by {
            if cut_at(bytes@, c) {
                assert(c < k);
            }
        }
    }
    bytes
}

/// A character of a valid text is as wide as its first byte says, and the other
/// bytes continue it.
proof fn lemma_char_at(full: Seq<u8>, p: int)
    requires
        vstd::utf8::valid_utf8(full),
        0 <= p < full.len(),
        vstd::utf8::is_char_boundary(full, p),
    ensures
        1 <= char_width(full[p]) <= 4,
        p + char_width(full[p]) <= full.len(),
        forall|j: int|
            p < j < p + char_width(full[p]) ==> 0x80 <= #[trigger] full[j] <= 0xbf,
{
    let tail = full.subrange(p, full.len() as int);
    vstd::utf8::valid_utf8_split(full, p);
    assert(tail[0] == full[p]);
    let w = vstd::utf8::length_of_first_scalar(tail);
    vstd::utf8::utf8_byte_ranges_bitwise(tail[0]);
    assert forall|j: int| p < j < p + char_width(full[p]) implies 0x80 <= #[trigger] full[j]
        <= 0xbf by {
        assert(tail[j - p] == full[j]);
        vstd::utf8::utf8_byte_ranges_bitwise(tail[j - p]);
    }
}

/// The last character of `full` that starts before `n`.
proof fn lemma_last_boundary(full: Seq<u8>, n: int) -> (p: int)
    requires
        vstd::utf8::valid_utf8(full),
        0 < n <= full.len(),
    ensures
        0 <= p < n,
        vstd::utf8::is_char_boundary(full, p),
        forall|j: int| p < j < n ==> !vstd::utf8::is_char_boundary(full, j),
    decreases n,
{
    if vstd::utf8::is_char_boundary(full, n - 1) {
        n - 1
    } else {
        vstd::utf8::is_char_boundary_start_end_of_seq(full);
        assert(n - 1 > 0);
        lemma_last_boundary(full, n - 1)
    }
}

/// However a valid text is cut, dropping the cut-off character leaves a valid
/// text, and drops at most three bytes: what is left is the head up to the last
/// character that ends before the cut.
pub proof fn trimmed_head_is_valid(full: Seq<u8>, n: int)
    requires
        vstd::utf8::valid_utf8(full),
        0 <= n <= full.len(),
    ensures
        vstd::utf8::valid_utf8(without_partial(full.take(n))),
        n - 3 <= without_partial(full.take(n)).len() <= n,
        without_partial(full.take(n)) == full.take(without_partial(full.take(n)).len() as int),
        vstd::utf8::is_char_boundary(full, without_partial(full.take(n)).len() as int),
        forall|q: int|
            without_partial(full.take(n)).len() < q <= n ==> !#[trigger] vstd::utf8::is_char_boundary(
                full,
                q,
            ),
{
    let head = full.take(n);
    vstd::utf8::is_char_boundary_start_end_of_seq(full);
    if n > 0 {
        let p = lemma_last_boundary(full, n);
        lemma_char_at(full, p);
        let w = char_width(full[p]);
        if vstd::utf8::is_char_boundary(full, n) {
            assert forall|k: int| !cut_at(head, k) by {
                if cut_at(head, k) {
                    let q = n - k;
                    assert(head[q] == full[q]);
                    vstd::utf8::utf8_byte_ranges_bitwise(full[q]);
                    vstd::utf8::is_char_boundary_iff_not_is_continuation_byte(full, q);
                    lemma_char_at(full, q);
                    if n < full.len() {
                        assert(0x80 <= full[n] <= 0xbf);
                        vstd::utf8::utf8_byte_ranges_bitwise(full[n]);
                        vstd::utf8::is_char_boundary_iff_not_is_continuation_byte(full, n);
                    }
                }
            }
            vstd::utf8::valid_utf8_split(full, n);
            assert(full.subrange(0, n) =~= head);
        } else {
            let k = n - p;
            if p + w <= n {
                if p + w < n {
                    lemma_next_boundary(full, p);
                }
                lemma_next_boundary(full, p);
            }
            assert(p + w > n);
            assert(cut_at(head, k)) by {
                assert(head[p] == full[p]);
                assert forall|j: int| head.len() - k < j < head.len() implies 0x80
                    <= #[trigger] head[j] <= 0xbf by {
                    assert(head[j] == full[j]);
                }
            }
            let c = choose|c: int| cut_at(head, c);
            lemma_cut_is_unique(head, k, c);
            vstd::utf8::valid_utf8_split(full, p);
            assert(head.take(p) =~= full.subrange(0, p));
            assert(head.take(p) =~= full.take(p));
        }
    } else {
        assert(head =~= full.subrange(0, 0));
        vstd::utf8::valid_utf8_split(full, 0);
    }
}

/// The next character starts right behind a character.
proof fn lemma_next_boundary(full: Seq<u8>, p: int)
    requires
        vstd::utf8::valid_utf8(full),
        0 <= p < full.len(),
        vstd::utf8::is_char_boundary(full, p),
    ensures
        vstd::utf8::is_char_boundary(full, p + char_width(full[p])),
    decreases full.len(),
{
    reveal_with_fuel(vstd::utf8::is_char_boundary, 2);
    let n = vstd::utf8::length_of_first_scalar(full);
    vstd::utf8::utf8_byte_ranges_bitwise(full[0]);
    if p == 0 {
        assert(n == char_width(full[0]));
    } else {
        let tail = vstd::utf8::pop_first_scalar(full);
        assert(p >= n);
        assert(tail[p - n] == full[p]);
        lemma_next_boundary(tail, p - n);
    }
}

pub(crate) proof fn lemma_ascii_is_valid(s: Seq<u8>)
    requires
        forall|i: int| 0 <= i < s.len() ==> #[trigger] s[i] < 0x80,
    ensures
        vstd::utf8::valid_utf8(s),
{
    assert(s.subrange(0, 0) =~= Seq::<u8>::empty());
    assert(vstd::utf8::partial_valid_utf8(s, 0));
    assert forall|i: int| 0 <= 0 <= i < s.len() <= s.len() implies
        #[trigger] vstd::utf8::is_leading_byte_width_1(s[i]) by {}
    vstd::utf8::partial_valid_utf8_extend_ascii_block(s, 0, s.len() as int);
    assert(s.subrange(0, s.len() as int) =~= s);
}

/// Whether the printer passes a byte outside ASCII through as it is.
spec fn passes(st: Printer) -> bool {
    st.in_str || st.pending is None
}

proof fn lemma_pending_is_ascii(input: Seq<u8>)
    ensures
        state_after(input).pending matches Some(b) ==> b < 0x80,
    decreases input.len(),
{
    if input.len() > 0 {
        lemma_pending_is_ascii(input.drop_last());
    }
}

proof fn lemma_run_passes(head: Seq<u8>, run: Seq<u8>)
    requires
        passes(state_after(head)),
        forall|i: int| 0 <= i < run.len() ==> #[trigger] run[i] >= 0x80,
    ensures
        passes(state_after(head + run)),
        pretty(head + run) == pretty(head) + run,
    decreases run.len(),
{
    if run.len() == 0 {
        assert(head + run =~= head);
        assert(pretty(head) + run =~= pretty(head));
    } else {
        let front = run.drop_last();
        lemma_run_passes(head, front);
        let all = head + run;
        assert(all.drop_last() =~= head + front);
        let st = state_after(head + front);
        let b = run[run.len() - 1];
        assert(all.last() == b);
        assert(emit(st, b) =~= seq![b]);
        assert(pretty(all) =~= pretty(head) + run);
    }
}

/// An ASCII byte is printed as ASCII bytes.
proof fn lemma_emit_ascii(st: Printer, b: u8)
    requires
        b < 0x80,
    ensures
        forall|i: int| 0 <= i < emit(st, b).len() ==> #[trigger] emit(st, b)[i] < 0x80,
{
}

/// A byte outside ASCII is printed behind ASCII bytes, and leaves the printer in
/// a state that passes such bytes through.
proof fn lemma_emit_wide(st: Printer, b: u8)
    requires
        b >= 0x80,
        st.pending matches Some(c) ==> c < 0x80,
    ensures
        emit(st, b).len() > 0,
        emit(st, b).last() == b,
        forall|i: int| 0 <= i < emit(st, b).len() - 1 ==> #[trigger] emit(st, b)[i] < 0x80,
        passes(crate::body::pretty::feed(st, b)),
{
}

/// Printing one more wide character behind `head`.
proof fn lemma_wide_char(head: Seq<u8>, last: Seq<u8>)
    requires
        vstd::utf8::valid_utf8(pretty(head)),
        vstd::utf8::valid_utf8(last),
        last.len() > 0,
        forall|i: int| 0 <= i < last.len() ==> #[trigger] last[i] >= 0x80,
    ensures
        vstd::utf8::valid_utf8(pretty(head + last)),
{
    let st = state_after(head);
    let b = last[0];
    let first = head.push(b);
    let rest = last.skip(1);
    assert(first.drop_last() =~= head);
    lemma_pending_is_ascii(head);
    lemma_emit_wide(st, b);
    let lead = emit(st, b).drop_last();
    lemma_ascii_is_valid(lead);
    lemma_run_passes(first, rest);
    assert(first + rest =~= head + last);
    assert(pretty(head) + emit(st, b) + rest =~= (pretty(head) + lead) + last);
    vstd::utf8::valid_utf8_concat(pretty(head), lead);
    vstd::utf8::valid_utf8_concat(pretty(head) + lead, last);
}

/// Printing one more ASCII character behind `head`.
proof fn lemma_narrow_char(head: Seq<u8>, b: u8)
    requires
        vstd::utf8::valid_utf8(pretty(head)),
        b < 0x80,
    ensures
        vstd::utf8::valid_utf8(pretty(head.push(b))),
{
    let st = state_after(head);
    assert(head.push(b).drop_last() =~= head);
    lemma_emit_ascii(st, b);
    lemma_ascii_is_valid(emit(st, b));
    vstd::utf8::valid_utf8_concat(pretty(head), emit(st, b));
}

/// Indenting a valid text gives a valid text.
pub proof fn pretty_text_is_valid(input: Seq<u8>)
    requires
        vstd::utf8::valid_utf8(input),
    ensures
        vstd::utf8::valid_utf8(pretty(input)),
    decreases input.len(),
{
    let n = input.len() as int;
    if n > 0 {
        let p = lemma_last_boundary(input, n);
        lemma_char_at(input, p);
        lemma_next_boundary(input, p);
        vstd::utf8::is_char_boundary_start_end_of_seq(input);
        assert(p + char_width(input[p]) == n);
        vstd::utf8::valid_utf8_split(input, p);
        let head = input.subrange(0, p);
        let last = input.subrange(p, n);
        pretty_text_is_valid(head);
        if n == p + 1 {
            assert(head.push(input[p]) =~= input);
            lemma_narrow_char(head, input[p]);
        } else {
            assert(head + last =~= input);
            assert forall|i: int| 0 <= i < last.len() implies #[trigger] last[i] >= 0x80 by {
                assert(last[i] == input[p + i]);
            }
            lemma_wide_char(head, last);
        }
    }
}

} // verus!
