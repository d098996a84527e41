//! Line index: the byte offset at which each line starts.
use crate::body::cancel::{
    asked_at, consulted, lemma_asked_on, lemma_asked_once, lemma_consulted, lemma_stopped, Asker,
};
use crate::body::pretty::CHECK_INTERVAL;
use std::ops::Range;
use vstd::prelude::*;
use vstd::slice::slice_subrange;

verus! {

/// The line table of a text: where each line starts, and the text's length.
#[verifier::ext_equal]
pub struct LineTable {
    pub starts: Seq<int>,
    pub total: nat,
}

impl LineTable {
    /// Offset of the first byte of line `i`.
    pub open spec fn start(self, i: int) -> int {
        self.starts[i]
    }

    /// Offset just behind the last byte of line `i`, its terminator included.
    pub open spec fn end(self, i: int) -> int {
        if i + 1 < self.starts.len() {
            self.starts[i + 1]
        } else {
            self.total as int
        }
    }

    /// Length of line `i` in bytes, its terminator included.
    pub open spec fn width(self, i: int) -> int {
        self.end(i) - self.start(i)
    }
}

/// A line starts at the first byte and right behind each line feed, unless
/// that is the end of the text.
pub open spec fn is_line_start(bytes: Seq<u8>, p: int) -> bool {
    0 <= p < bytes.len() && (p == 0 || bytes[p - 1] == 0x0a)
}

/// The line starts below `n`, in ascending order.
pub open spec fn starts_below(bytes: Seq<u8>, n: nat) -> Seq<int>
    decreases n,
{
    if n == 0 {
        Seq::empty()
    } else {
        let k = (n - 1) as nat;
        if is_line_start(bytes, k as int) {
            starts_below(bytes, k).push(k as int)
        } else {
            starts_below(bytes, k)
        }
    }
}

/// The line table of `bytes`.
pub open spec fn line_table(bytes: Seq<u8>) -> LineTable {
    LineTable { starts: starts_below(bytes, bytes.len()), total: bytes.len() }
}

proof fn lemma_starts_skip(bytes: Seq<u8>, a: nat, b: nat)
    requires
        a <= b,
        forall|p: int| a <= p < b ==> !is_line_start(bytes, p),
    ensures
        starts_below(bytes, b) == starts_below(bytes, a),
    decreases b - a,
{
    if a < b {
        lemma_starts_skip(bytes, a, (b - 1) as nat);
    }
}

proof fn lemma_starts_below(bytes: Seq<u8>, n: nat)
    ensures
        ({
            let s = starts_below(bytes, n);
            &&& forall|i: int|
                0 <= i < s.len() ==> is_line_start(bytes, #[trigger] s[i]) && s[i] < n
            &&& forall|i: int, j: int| 0 <= i < j < s.len() ==> s[i] < s[j]
            &&& forall|p: int| 0 <= p < n && is_line_start(bytes, p) ==> s.contains(p)
        }),
    decreases n,
{
    if n > 0 {
        let k = (n - 1) as nat;
        lemma_starts_below(bytes, k);
        let prev = starts_below(bytes, k);
        let s = starts_below(bytes, n);
        assert forall|p: int| 0 <= p < n && is_line_start(bytes, p) implies s.contains(p) by {
            if p < k {
                assert(prev.contains(p));
                let i = choose|i: int| 0 <= i < prev.len() && prev[i] == p;
                assert(s[i] == p);
            } else {
                assert(s[s.len() - 1] == p);
            }
        }
    }
}

/// The starts of a line table are exactly the line starts of the text, each
/// once, in ascending order.
pub proof fn line_starts_are_exact(bytes: Seq<u8>)
    ensures
        ({
            let t = line_table(bytes);
            &&& forall|i: int|
                0 <= i < t.starts.len() ==> is_line_start(bytes, #[trigger] t.starts[i])
            &&& forall|i: int, j: int| 0 <= i < j < t.starts.len() ==> t.starts[i] < t.starts[j]
            &&& forall|p: int| is_line_start(bytes, p) ==> t.starts.contains(p)
        }),
{
    lemma_starts_below(bytes, bytes.len());
}

/// The lines cut the text into consecutive, non-empty pieces: the first starts
/// at 0, each ends where the next starts, the last ends with the text, and a
/// line feed stands only at the end of a line.
pub proof fn lines_partition_the_text(bytes: Seq<u8>)
    ensures
        ({
            let t = line_table(bytes);
            &&& (bytes.len() == 0 <==> t.starts.len() == 0)
            &&& (bytes.len() > 0 ==> t.start(0) == 0 && t.end(t.starts.len() - 1) == bytes.len())
            &&& forall|i: int|
                0 <= i < t.starts.len() ==> 0 <= #[trigger] t.start(i) < t.end(i) <= bytes.len()
            &&& forall|i: int|
                0 <= i < t.starts.len() - 1 ==> #[trigger] t.end(i) == t.start(i + 1)
                    && bytes[t.end(i) - 1] == 0x0a
            &&& forall|i: int, p: int|
                0 <= i < t.starts.len() && #[trigger] t.start(i) <= p < t.end(i) - 1
                    ==> #[trigger] bytes[p] != 0x0a
        }),
{
    let t = line_table(bytes);
    lemma_starts_below(bytes, bytes.len());
    if bytes.len() > 0 {
        assert(is_line_start(bytes, 0));
        assert(t.starts.contains(0));
        let z = choose|i: int| 0 <= i < t.starts.len() && t.starts[i] == 0;
        if z > 0 {
            assert(t.starts[0] < t.starts[z]);
        }
    } else {
        if t.starts.len() > 0 {
            assert(is_line_start(bytes, t.starts[0]));
        }
    }
    assert forall|i: int|
        0 <= i < t.starts.len() - 1 implies #[trigger] t.end(i) == t.start(i + 1)
            && bytes[t.end(i) - 1] == 0x0a by {
        assert(is_line_start(bytes, t.starts[i + 1]));
        assert(t.starts[i] < t.starts[i + 1]);
    }
    assert forall|i: int, p: int|
        0 <= i < t.starts.len() && #[trigger] t.start(i) <= p < t.end(i) - 1 implies
        #[trigger] bytes[p] != 0x0a by {
        if bytes[p] == 0x0a {
            assert(is_line_start(bytes, t.starts[i]));
            assert(is_line_start(bytes, p + 1));
            assert(t.starts.contains(p + 1));
            let k = choose|k: int| 0 <= k < t.starts.len() && t.starts[k] == p + 1;
            if k <= i {
                if k < i {
                    assert(t.starts[k] < t.starts[i]);
                }
            } else {
                if i + 1 < k {
                    assert(t.starts[i + 1] < t.starts[k]);
                }
            }
        }
    }
    assert forall|i: int| 0 <= i < t.starts.len() implies 0 <= #[trigger] t.start(i) < t.end(i)
        <= bytes.len() by {
        assert(is_line_start(bytes, t.starts[i]));
        if i + 1 < t.starts.len() {
            assert(is_line_start(bytes, t.starts[i + 1]));
            assert(t.starts[i] < t.starts[i + 1]);
        }
    }
}

/// `memchr::memchr`: the offset of the first `needle` in `haystack`, or `None`
/// where it does not occur.
pub assume_specification[ memchr::memchr ](needle: u8, haystack: &[u8]) -> (r: Option<usize>)
    ensures
        match r {
            Some(i) => i < haystack@.len() && haystack@[i as int] == needle && forall|j: int|
                0 <= j < i ==> haystack@[j] != needle,
            None => forall|j: int| 0 <= j < haystack@.len() ==> haystack@[j] != needle,
        },
;

/// `Vec::capacity`: how many elements fit without another allocation, never
/// fewer than there are. How many more is left to the allocator, but an allocation
/// never takes more than `isize::MAX` bytes.
#[verifier::external_body]
fn vec_capacity<T>(v: &Vec<T>) -> (r: usize)
    ensures
        r >= v@.len(),
        r * vstd::layout::size_of::<T>() <= isize::MAX,
{
    v.capacity()
}

/// Offsets of lines: four bytes each, and eight in a text whose length does not fit
/// into 32 bits.
#[derive(Debug, PartialEq, Eq)]
enum Starts {
    Narrow(Vec<u32>),
    Wide(Vec<u64>),
}

impl View for Starts {
    type V = Seq<int>;

    closed spec fn view(&self) -> Seq<int> {
        match *self {
            Starts::Narrow(v) => Seq::new(v@.len(), |i: int| v@[i] as int),
            Starts::Wide(v) => Seq::new(v@.len(), |i: int| v@[i] as int),
        }
    }
}

impl Starts {
    fn for_text(len: usize) -> (r: Starts)
        ensures
            r@ == Seq::<int>::empty(),
            r is Narrow <==> len <= u32::MAX,
    {
        let lines: usize = len / 16 + 1;
        let r = if len as u64 <= u32::MAX as u64 {
            Starts::Narrow(Vec::with_capacity(lines))
        } else {
            Starts::Wide(Vec::with_capacity(lines))
        };
        proof {
            assert(r@ =~= Seq::<int>::empty());
        }
        r
    }

    fn push(&mut self, at: usize)
        requires
            (*old(self)) is Narrow ==> at <= u32::MAX,
        ensures
            final(self)@ == old(self)@.push(at as int),
            (*final(self)) is Narrow <==> (*old(self)) is Narrow,
    {
        let ghost before = self@;
        match self {
            Starts::Narrow(v) => v.push(at as u32),
            Starts::Wide(v) => v.push(at as u64),
        }
        proof {
            assert(self@ =~= before.push(at as int));
        }
    }

    fn len(&self) -> (r: usize)
        ensures
            r == self@.len(),
    {
        match self {
            Starts::Narrow(v) => v.len(),
            Starts::Wide(v) => v.len(),
        }
    }

    fn at(&self, ix: usize) -> (r: usize)
        requires
            ix < self@.len(),
            self@[ix as int] <= usize::MAX,
        ensures
            r == self@[ix as int],
    {
        match self {
            Starts::Narrow(v) => v[ix] as usize,
            Starts::Wide(v) => v[ix] as usize,
        }
    }
}

/// From which line feed on the index asks again whether to go on, after the first
/// `n` bytes.
pub open spec fn next_check(bytes: Seq<u8>, n: nat) -> int
    decreases n,
{
    if n == 0 {
        CHECK_INTERVAL as int
    } else {
        let k = (n - 1) as nat;
        if bytes[k as int] == 0x0a && k >= next_check(bytes, k) {
            k + CHECK_INTERVAL
        } else {
            next_check(bytes, k)
        }
    }
}

/// Where the index asks whether to go on, among the first `n` bytes: before it
/// scans anything, and then at the first line feed at least [`CHECK_INTERVAL`]
/// bytes behind the place before.
pub open spec fn checks_below(bytes: Seq<u8>, n: nat) -> Seq<int>
    decreases n,
{
    if n == 0 {
        seq![0int]
    } else {
        let k = (n - 1) as nat;
        if bytes[k as int] == 0x0a && k >= next_check(bytes, k) {
            checks_below(bytes, k).push(k as int)
        } else {
            checks_below(bytes, k)
        }
    }
}

/// Where the index of `bytes` asks whether to go on.
pub open spec fn line_checks(bytes: Seq<u8>) -> Seq<int> {
    checks_below(bytes, bytes.len())
}

/// Every text, an empty one too, is indexed only after a question.
pub proof fn indexing_asks_first(bytes: Seq<u8>)
    ensures
        line_checks(bytes).len() > 0,
        line_checks(bytes)[0] == 0,
{
    lemma_checks_prefix(bytes, 0, bytes.len());
    assert(checks_below(bytes, 0)[0] == line_checks(bytes)[0]);
}

/// A text without a line feed is indexed after one question.
pub proof fn one_line_is_asked_about_once(bytes: Seq<u8>)
    requires
        !bytes.contains(0x0a),
    ensures
        line_checks(bytes) == seq![0int],
{
    assert forall|p: int| 0 <= p < bytes.len() implies #[trigger] bytes[p] != 0x0a by {}
    lemma_checks_skip(bytes, 0, bytes.len());
}

proof fn lemma_checks_skip(bytes: Seq<u8>, a: nat, b: nat)
    requires
        a <= b <= bytes.len(),
        forall|p: int| a <= p < b ==> #[trigger] bytes[p] != 0x0a,
    ensures
        checks_below(bytes, b) == checks_below(bytes, a),
        next_check(bytes, b) == next_check(bytes, a),
    decreases b - a,
{
    if a < b {
        lemma_checks_skip(bytes, a, (b - 1) as nat);
    }
}

proof fn lemma_checks_prefix(bytes: Seq<u8>, a: nat, b: nat)
    requires
        a <= b,
    ensures
        checks_below(bytes, a).len() <= checks_below(bytes, b).len(),
        checks_below(bytes, a) == checks_below(bytes, b).take(checks_below(bytes, a).len() as int),
    decreases b - a,
{
    let m = checks_below(bytes, a).len() as int;
    if a < b {
        lemma_checks_prefix(bytes, a, (b - 1) as nat);
        assert(checks_below(bytes, b).take(m) =~= checks_below(bytes, (b - 1) as nat).take(m));
    } else {
        assert(checks_below(bytes, b).take(m) =~= checks_below(bytes, b));
    }
}

/// The line starts of a text.
#[derive(Debug, PartialEq, Eq)]
pub struct LineIndex {
    starts: Starts,
    total_len: usize,
}

impl View for LineIndex {
    type V = LineTable;

    closed spec fn view(&self) -> LineTable {
        LineTable { starts: self.starts@, total: self.total_len as nat }
    }
}

impl Clone for LineIndex {
    fn clone(&self) -> (r: LineIndex)
        ensures
            r@ == self@,
    {
        proof {
            use_type_invariant(self);
        }
        let starts = match &self.starts {
            Starts::Narrow(v) => Starts::Narrow(v.clone()),
            Starts::Wide(v) => Starts::Wide(v.clone()),
        };
        proof {
            assert(starts@ =~= self.starts@);
        }
        LineIndex { starts, total_len: self.total_len }
    }
}

impl LineIndex {
    #[verifier::type_invariant]
    spec fn bounded(&self) -> bool {
        &&& self.starts is Narrow <==> self.total_len <= u32::MAX
        &&& forall|i: int| 0 <= i < self.starts@.len() ==> #[trigger] self.starts@[i] <= self.total_len
    }

    /// Indexes the lines of `bytes`.
    pub fn build(bytes: &[u8]) -> (r: LineIndex)
        ensures
            r@ == line_table(bytes@),
    {
        let never = || -> (r: bool)
            ensures
                !r,
            { false };
        match Self::build_cancellable(bytes, never) {
            Some(index) => index,
            None => LineIndex { starts: Starts::for_text(0), total_len: 0 },
        }
    }

    /// Indexes the lines of `bytes`, giving up when `should_cancel` answers
    /// `true`. The callback is asked once at the start, and then at the first line
    /// feed after each further [`CHECK_INTERVAL`] bytes, and not any more once it
    /// has answered `true`.
    pub fn build_cancellable<F: FnMut() -> bool>(bytes: &[u8], should_cancel: F) -> (r: Option<
        LineIndex,
    >)
        requires
            call_requires(should_cancel, ()),
        ensures
            r matches Some(index) ==> index@ == line_table(bytes@),
            consulted(should_cancel, line_checks(bytes@), r is None),
    {
        let mut ask = Asker::new(should_cancel);
        let ghost before = ask;
        let r = Self::build_asking(bytes, &mut ask);
        proof {
            lemma_consulted(before, ask, line_checks(bytes@), r is None);
        }
        r
    }

    /// [`LineIndex::build_cancellable`] with a callback that is asked elsewhere too.
    pub fn build_asking<F: FnMut() -> bool>(bytes: &[u8], ask: &mut Asker<F>) -> (r: Option<
        LineIndex,
    >)
        requires
            call_requires(old(ask).callback(), ()),
        ensures
            r matches Some(index) ==> index@ == line_table(bytes@),
            asked_at(*old(ask), *final(ask), line_checks(bytes@), r is None),
    {
        let ghost before = *ask;
        let ghost n = bytes@.len();
        let stop = ask.ask(0);
        proof {
            lemma_asked_once(before, *ask, 0, stop);
            if stop {
                lemma_checks_prefix(bytes@, 0, n);
                lemma_stopped(before, *ask, seq![0int], line_checks(bytes@));
            }
        }
        if stop {
            return None;
        }
        let mut starts = Starts::for_text(bytes.len());
        if bytes.len() == 0 {
            let index = LineIndex { starts, total_len: 0 };
            proof {
                assert(index@ =~= line_table(bytes@));
            }
            return Some(index);
        }
        starts.push(0);
        let mut next: usize = CHECK_INTERVAL;
        let mut at: usize = 0;
        proof {
            assert(is_line_start(bytes@, 0));
            assert(starts_below(bytes@, 0) =~= Seq::<int>::empty());
            assert(starts_below(bytes@, 1) =~= seq![0int]);
            assert(starts@ =~= seq![0int]);
        }
        while at < bytes.len()
            invariant
                n == bytes@.len(),
                at <= n,
                before == *old(ask),
                call_requires(before.callback(), ()),
                asked_at(before, *ask, checks_below(bytes@, at as nat), false),
                next == next_check(bytes@, at as nat) || next == usize::MAX && next_check(
                    bytes@,
                    at as nat,
                ) >= usize::MAX,
                starts is Narrow <==> n <= u32::MAX,
                starts@ == starts_below(
                    bytes@,
                    if at < n {
                        (at + 1) as nat
                    } else {
                        n
                    },
                ),
            decreases n - at,
        {
            let rest = slice_subrange(bytes, at, bytes.len());
            match memchr::memchr(0x0a, rest) {
                None => {
                    proof {
                        assert forall|p: int| at <= p < n implies #[trigger] bytes@[p] != 0x0a by {
                            assert(rest@[p - at] == bytes@[p]);
                        }
                        assert forall|p: int| at + 1 <= p < n implies !is_line_start(bytes@, p) by {
                            assert(rest@[p - 1 - at] == bytes@[p - 1]);
                        }
                        lemma_starts_skip(bytes@, (at + 1) as nat, n);
                        lemma_checks_skip(bytes@, at as nat, n);
                    }
                    at = bytes.len();
                },
                Some(k) => {
                    let pos: usize = at + k;
                    let ghost so_far = checks_below(bytes@, pos as nat);
                    proof {
                        assert(rest@[k as int] == bytes@[pos as int]);
                        assert forall|p: int| at <= p < pos implies #[trigger] bytes@[p] != 0x0a by {
                            assert(rest@[p - at] == bytes@[p]);
                        }
                        lemma_checks_skip(bytes@, at as nat, pos as nat);
                    }
                    if pos >= next {
                        let ghost earlier = *ask;
                        let stop = ask.ask(pos);
                        proof {
                            lemma_asked_once(earlier, *ask, pos as int, stop);
                            lemma_asked_on(
                                before,
                                earlier,
                                *ask,
                                so_far,
                                seq![pos as int],
                                stop,
                            );
                            let now = checks_below(bytes@, (pos + 1) as nat);
                            assert(so_far + seq![pos as int] =~= now);
                            if stop {
                                lemma_checks_prefix(bytes@, (pos + 1) as nat, n);
                                lemma_stopped(before, *ask, now, line_checks(bytes@));
                            }
                        }
                        if stop {
                            return None;
                        }
                        next = pos.saturating_add(CHECK_INTERVAL);
                    }
                    proof {
                        assert forall|p: int| at + 1 <= p < pos + 1 implies !is_line_start(
                            bytes@,
                            p,
                        ) by {
                            assert(rest@[p - 1 - at] == bytes@[p - 1]);
                        }
                        lemma_starts_skip(bytes@, (at + 1) as nat, (pos + 1) as nat);
                    }
                    if pos + 1 < bytes.len() {
                        starts.push(pos + 1);
                        proof {
                            assert(is_line_start(bytes@, pos + 1));
                        }
                    }
                    at = pos + 1;
                },
            }
        }
        proof {
            lemma_starts_below(bytes@, n);
        }
        let index = LineIndex { starts, total_len: bytes.len() };
        proof {
            assert(index@ =~= line_table(bytes@));
        }
        Some(index)
    }

    /// Number of lines: none for an empty text; a final line feed adds none.
    pub fn len(&self) -> (r: usize)
        ensures
            r == self@.starts.len(),
    {
        self.starts.len()
    }

    pub fn is_empty(&self) -> (r: bool)
        ensures
            r == (self@.starts.len() == 0),
    {
        self.starts.len() == 0
    }

    /// The byte range of line `ix`, its terminator included.
    pub fn span(&self, ix: usize) -> (r: Range<usize>)
        requires
            ix < self@.starts.len(),
        ensures
            r.start == self@.start(ix as int),
            r.end == self@.end(ix as int),
    {
        proof {
            use_type_invariant(self);
        }
        let start = self.starts.at(ix);
        let end = if ix < self.starts.len() - 1 {
            self.starts.at(ix + 1)
        } else {
            self.total_len
        };
        start..end
    }

    /// Heap memory held by the index, by its capacity: at least the offsets of the
    /// lines, four bytes each in a text below 4 GiB and eight bytes each above.
    pub fn heap_bytes(&self) -> (r: usize)
        ensures
            offset_bytes(self@) * self@.starts.len() <= r <= isize::MAX,
            r as int % offset_bytes(self@) == 0,
    {
        proof {
            use_type_invariant(self);
            broadcast use vstd::layout::layout_of_primitives;
        }
        match &self.starts {
            Starts::Narrow(v) => {
                let r: usize = vec_capacity(v) * 4;
                assert(r as int % 4 == 0);
                r
            },
            Starts::Wide(v) => {
                let r: usize = vec_capacity(v) * 8;
                assert(r as int % 8 == 0);
                r
            },
        }
    }
}

/// How many bytes the index spends on a line.
pub open spec fn offset_bytes(t: LineTable) -> int {
    if t.total <= u32::MAX {
        4
    } else {
        8
    }
}

} // verus!
