//! Single-pass JSON pretty printer without a document tree.
//!
//! The printer only tracks whether it is inside a string, whether the previous
//! byte was an escape, and how deep the nesting is. It does not validate: any
//! byte sequence is accepted.
use crate::body::cancel::{
    asked_at, consulted, lemma_asked_on, lemma_asked_once, lemma_consulted, lemma_not_asked,
    lemma_stopped, Asker,
};
use vstd::prelude::*;

verus! {

/// Number of bytes after which the cancellation callback is consulted again.
pub const CHECK_INTERVAL: usize = 1048576;

/// What the printer remembers between two bytes.
pub struct Printer {
    pub depth: nat,
    pub in_str: bool,
    pub escaped: bool,
    /// The closer of a container that was just opened and holds nothing yet.
    pub pending: Option<u8>,
}

/// The five bytes that count as white space outside strings.
pub open spec fn is_blank(b: u8) -> bool {
    b == 0x20 || b == 0x09 || b == 0x0a || b == 0x0c || b == 0x0d
}

/// The state before the first byte.
pub open spec fn fresh_printer() -> Printer {
    Printer { depth: 0, in_str: false, escaped: false, pending: None }
}

/// A line break followed by two spaces per nesting level.
pub open spec fn line_break(depth: nat) -> Seq<u8> {
    seq![0x0au8] + Seq::new(2 * depth, |i: int| 0x20u8)
}

/// The printer right before it prints the significant byte `b`: a pending
/// container is opened unless `b` closes it.
pub open spec fn settle(st: Printer, b: u8) -> Printer {
    match st.pending {
        Some(closer) => if b == closer {
            Printer { pending: None, ..st }
        } else {
            Printer { pending: None, depth: st.depth + 1, ..st }
        },
        None => st,
    }
}

/// The state after byte `b`.
pub open spec fn feed(st: Printer, b: u8) -> Printer {
    if st.in_str {
        if st.escaped {
            Printer { escaped: false, ..st }
        } else if b == 0x5c {
            Printer { escaped: true, ..st }
        } else if b == 0x22 {
            Printer { in_str: false, ..st }
        } else {
            st
        }
    } else if is_blank(b) {
        st
    } else if st.pending == Some(b) {
        Printer { pending: None, ..st }
    } else {
        let s = settle(st, b);
        if b == 0x22 {
            Printer { in_str: true, ..s }
        } else if b == 0x7b {
            Printer { pending: Some(0x7du8), ..s }
        } else if b == 0x5b {
            Printer { pending: Some(0x5du8), ..s }
        } else if b == 0x7d || b == 0x5d {
            Printer { depth: if s.depth > 0 { (s.depth - 1) as nat } else { 0 }, ..s }
        } else {
            s
        }
    }
}

/// What is printed for byte `b`.
pub open spec fn emit(st: Printer, b: u8) -> Seq<u8> {
    if st.in_str {
        seq![b]
    } else if is_blank(b) {
        Seq::empty()
    } else if st.pending == Some(b) {
        seq![b]
    } else {
        let s = settle(st, b);
        let lead = if st.pending is Some { line_break(s.depth) } else { Seq::<u8>::empty() };
        if b == 0x7d || b == 0x5d {
            lead + line_break(if s.depth > 0 { (s.depth - 1) as nat } else { 0 }) + seq![b]
        } else if b == 0x2c {
            lead + seq![b] + line_break(s.depth)
        } else if b == 0x3a {
            lead + seq![b, 0x20u8]
        } else {
            lead + seq![b]
        }
    }
}

/// The state after all of `input`.
pub open spec fn state_after(input: Seq<u8>) -> Printer
    decreases input.len(),
{
    if input.len() == 0 {
        fresh_printer()
    } else {
        feed(state_after(input.drop_last()), input.last())
    }
}

/// The pretty-printed form of `input`.
pub open spec fn pretty(input: Seq<u8>) -> Seq<u8>
    decreases input.len(),
{
    if input.len() == 0 {
        Seq::empty()
    } else {
        pretty(input.drop_last()) + emit(state_after(input.drop_last()), input.last())
    }
}

/// The bytes of `input` that are not white space between tokens.
pub open spec fn significant(input: Seq<u8>) -> Seq<u8>
    decreases input.len(),
{
    if input.len() == 0 {
        Seq::empty()
    } else {
        let head = significant(input.drop_last());
        if state_after(input.drop_last()).in_str || !is_blank(input.last()) {
            head.push(input.last())
        } else {
            head
        }
    }
}

spec fn all_blank(s: Seq<u8>) -> bool {
    forall|i: int| 0 <= i < s.len() ==> is_blank(#[trigger] s[i])
}

/// White space printed before the significant byte `b`.
spec fn lead_of(st: Printer, b: u8) -> Seq<u8> {
    if st.in_str || st.pending == Some(b) {
        Seq::empty()
    } else {
        let s = settle(st, b);
        let lead = if st.pending is Some { line_break(s.depth) } else { Seq::<u8>::empty() };
        if b == 0x7d || b == 0x5d {
            lead + line_break(if s.depth > 0 { (s.depth - 1) as nat } else { 0 })
        } else {
            lead
        }
    }
}

/// White space printed after the significant byte `b`.
spec fn tail_of(st: Printer, b: u8) -> Seq<u8> {
    if st.in_str || st.pending == Some(b) {
        Seq::empty()
    } else if b == 0x2c {
        line_break(settle(st, b).depth)
    } else if b == 0x3a {
        seq![0x20u8]
    } else {
        Seq::empty()
    }
}

proof fn lemma_emit_shape(st: Printer, b: u8)
    requires
        st.in_str || !is_blank(b),
    ensures
        emit(st, b) == lead_of(st, b) + seq![b] + tail_of(st, b),
        all_blank(lead_of(st, b)),
        all_blank(tail_of(st, b)),
        st.in_str ==> lead_of(st, b).len() == 0,
        tail_of(st, b).len() > 0 ==> !feed(st, b).in_str,
{
    assert(emit(st, b) =~= lead_of(st, b) + seq![b] + tail_of(st, b));
}

proof fn lemma_blanks_are_skipped(p: Seq<u8>, w: Seq<u8>)
    requires
        all_blank(w),
        w.len() > 0 ==> !state_after(p).in_str,
    ensures
        state_after(p + w) == state_after(p),
        pretty(p + w) == pretty(p),
        significant(p + w) == significant(p),
    decreases w.len(),
{
    if w.len() == 0 {
        assert(p + w =~= p);
    } else {
        lemma_blanks_are_skipped(p, w.drop_last());
        assert((p + w).drop_last() =~= p + w.drop_last());
        assert(is_blank(w[w.len() - 1]));
        assert(pretty(p + w) =~= pretty(p));
    }
}

/// What a printed prefix does when it is read back.
proof fn lemma_reprint(x: Seq<u8>)
    ensures
        state_after(pretty(x)) == state_after(x),
        pretty(pretty(x)) == pretty(x),
        significant(pretty(x)) == significant(x),
    decreases x.len(),
{
    if x.len() > 0 {
        let head = x.drop_last();
        let b = x.last();
        let st = state_after(head);
        let p = pretty(head);
        lemma_reprint(head);
        if st.in_str || !is_blank(b) {
            let lead = lead_of(st, b);
            let tail = tail_of(st, b);
            lemma_emit_shape(st, b);
            lemma_blanks_are_skipped(p, lead);
            let q = (p + lead).push(b);
            assert(q.drop_last() =~= p + lead);
            lemma_blanks_are_skipped(q, tail);
            assert(p + emit(st, b) =~= q + tail);
            assert(pretty(x) =~= q + tail);
        } else {
            assert(pretty(x) =~= p);
        }
    }
}

/// Printing twice gives the same text as printing once.
pub proof fn pretty_is_idempotent(input: Seq<u8>)
    ensures
        pretty(pretty(input)) == pretty(input),
{
    lemma_reprint(input);
}

/// Printing changes nothing but the white space between tokens: every other
/// byte is kept, in order.
pub proof fn pretty_keeps_content(input: Seq<u8>)
    ensures
        significant(pretty(input)) == significant(input),
{
    lemma_reprint(input);
}

fn is_blank_byte(b: u8) -> (r: bool)
    ensures
        r == is_blank(b),
{
    b == 0x20 || b == 0x09 || b == 0x0a || b == 0x0c || b == 0x0d
}

fn newline(out: &mut Vec<u8>, depth: usize)
    ensures
        final(out)@ == old(out)@ + line_break(depth as nat),
{
    out.push(0x0a);
    for k in 0..depth
        invariant
            out@ == old(out)@ + seq![0x0au8] + Seq::new((2 * k) as nat, |i: int| 0x20u8),
    {
        out.push(0x20);
        out.push(0x20);
    }
    proof {
        assert(out@ =~= old(out)@ + line_break(depth as nat));
    }
}

/// The running state of the printer.
struct Cursor {
    depth: usize,
    in_str: bool,
    escaped: bool,
    /// Set right after `{` / `[`: an empty container stays on one line.
    pending_open: Option<u8>,
}

impl View for Cursor {
    type V = Printer;

    closed spec fn view(&self) -> Printer {
        Printer {
            depth: self.depth as nat,
            in_str: self.in_str,
            escaped: self.escaped,
            pending: self.pending_open,
        }
    }
}

fn print_byte(out: &mut Vec<u8>, cur: &mut Cursor, b: u8)
    requires
        old(cur).depth < usize::MAX,
    ensures
        final(cur)@ == feed(old(cur)@, b),
        final(out)@ == old(out)@ + emit(old(cur)@, b),
        final(cur).depth <= old(cur).depth + 1,
{
    if cur.in_str {
        out.push(b);
        if cur.escaped {
            cur.escaped = false;
        } else if b == 0x5c {
            cur.escaped = true;
        } else if b == 0x22 {
            cur.in_str = false;
        }
        return;
    }
    if is_blank_byte(b) {
        proof {
            assert(out@ =~= old(out)@ + emit(old(cur)@, b));
        }
        return;
    }
    if let Some(closer) = cur.pending_open {
        cur.pending_open = None;
        if b == closer {
            out.push(b);
            return;
        }
        cur.depth = cur.depth + 1;
        newline(out, cur.depth);
    }
    print_token(out, cur, b);
    proof {
        assert(out@ =~= old(out)@ + emit(old(cur)@, b));
    }
}

fn print_token(out: &mut Vec<u8>, cur: &mut Cursor, b: u8)
    requires
        !old(cur).in_str,
        !is_blank(b),
        old(cur).pending_open is None,
    ensures
        final(cur)@ == feed(old(cur)@, b),
        final(out)@ == old(out)@ + emit(old(cur)@, b),
        final(cur).depth <= old(cur).depth,
{
    if b == 0x22 {
        cur.in_str = true;
        out.push(b);
    } else if b == 0x7b {
        out.push(b);
        cur.pending_open = Some(0x7d);
    } else if b == 0x5b {
        out.push(b);
        cur.pending_open = Some(0x5d);
    } else if b == 0x7d || b == 0x5d {
        if cur.depth > 0 {
            cur.depth = cur.depth - 1;
        }
        newline(out, cur.depth);
        out.push(b);
    } else if b == 0x2c {
        out.push(b);
        newline(out, cur.depth);
    } else if b == 0x3a {
        out.push(b);
        out.push(0x20);
    } else {
        out.push(b);
    }
    proof {
        assert(out@ =~= old(out)@ + emit(old(cur)@, b));
    }
}

/// Pretty-prints JSON text.
pub fn pretty_json(input: &[u8]) -> (out: Vec<u8>)
    ensures
        out@ == pretty(input@),
{
    let never = || -> (r: bool)
        ensures
            !r,
        { false };
    match pretty_json_cancellable(input, never) {
        Some(out) => out,
        None => Vec::new(),
    }
}

/// Where the printer asks whether to go on: at the first byte, and then every
/// [`CHECK_INTERVAL`] bytes, among the first `n`.
pub open spec fn check_offsets(n: nat) -> Seq<int> {
    Seq::new(((n + CHECK_INTERVAL - 1) / CHECK_INTERVAL as int) as nat, |k: int| k * CHECK_INTERVAL)
}

proof fn lemma_check_offsets(n: nat)
    ensures
        n % CHECK_INTERVAL as nat == 0 ==> check_offsets(n + 1) == check_offsets(n).push(n as int)
            && check_offsets(n).len() * CHECK_INTERVAL == n,
        n % CHECK_INTERVAL as nat != 0 ==> check_offsets(n + 1) == check_offsets(n)
            && check_offsets(n).len() * CHECK_INTERVAL > n,
        check_offsets(n).len() * CHECK_INTERVAL < n + CHECK_INTERVAL,
{
    if n % CHECK_INTERVAL as nat == 0 {
        assert(check_offsets(n + 1) =~= check_offsets(n).push(n as int));
    } else {
        assert(check_offsets(n + 1) =~= check_offsets(n));
    }
}

/// The first questions of the printer do not depend on how much text follows.
proof fn lemma_check_offsets_prefix(m: nat, n: nat)
    requires
        m <= n,
    ensures
        check_offsets(m).len() <= check_offsets(n).len(),
        check_offsets(m) == check_offsets(n).take(check_offsets(m).len() as int),
{
    assert(check_offsets(m) =~= check_offsets(n).take(check_offsets(m).len() as int));
}

/// Pretty-prints JSON text, giving up when `should_cancel` answers `true`. The
/// callback is asked at the first byte and then every [`CHECK_INTERVAL`] bytes, and
/// not any more once it has answered `true`.
pub fn pretty_json_cancellable<F: FnMut() -> bool>(
    input: &[u8],
    should_cancel: F,
) -> (out: Option<Vec<u8>>)
    requires
        call_requires(should_cancel, ()),
    ensures
        out matches Some(v) ==> v@ == pretty(input@),
        consulted(should_cancel, check_offsets(input@.len()), out is None),
        input@.len() == 0 ==> out is Some,
{
    let mut ask = Asker::new(should_cancel);
    let ghost before = ask;
    let out = pretty_json_asking(input, &mut ask);
    proof {
        lemma_consulted(before, ask, check_offsets(input@.len()), out is None);
    }
    out
}

/// [`pretty_json_cancellable`] with a callback that is asked elsewhere too.
pub fn pretty_json_asking<F: FnMut() -> bool>(input: &[u8], ask: &mut Asker<F>) -> (out: Option<
    Vec<u8>,
>)
    requires
        call_requires(old(ask).callback(), ()),
    ensures
        out matches Some(v) ==> v@ == pretty(input@),
        asked_at(*old(ask), *final(ask), check_offsets(input@.len()), out is None),
        input@.len() == 0 ==> out is Some,
{
    let ghost before = *ask;
    let ghost n = input@.len();
    let mut out: Vec<u8> = Vec::with_capacity(input.len());
    let mut cur = Cursor { depth: 0, in_str: false, escaped: false, pending_open: None };
    let mut next_check: usize = 0;
    let mut i: usize = 0;
    proof {
        assert(input@.take(0) =~= Seq::<u8>::empty());
        assert(check_offsets(0) =~= Seq::<int>::empty());
        lemma_not_asked(before);
    }
    while i < input.len()
        invariant
            n == input@.len(),
            i <= n,
            cur.depth <= i,
            before == *old(ask),
            call_requires(before.callback(), ()),
            asked_at(before, *ask, check_offsets(i as nat), false),
            next_check == check_offsets(i as nat).len() * CHECK_INTERVAL || next_check == usize::MAX
                && check_offsets(i as nat).len() * CHECK_INTERVAL >= usize::MAX,
            cur@ == state_after(input@.take(i as int)),
            out@ == pretty(input@.take(i as int)),
        decreases input@.len() - i,
    {
        proof {
            lemma_check_offsets(i as nat);
        }
        if i >= next_check {
            let ghost earlier = *ask;
            let stop = ask.ask(i);
            proof {
                let so_far = check_offsets(i as nat);
                lemma_asked_once(earlier, *ask, i as int, stop);
                lemma_asked_on(before, earlier, *ask, so_far, seq![i as int], stop);
                assert(so_far + seq![i as int] =~= check_offsets((i + 1) as nat));
                if stop {
                    lemma_check_offsets_prefix((i + 1) as nat, n);
                    lemma_stopped(before, *ask, check_offsets((i + 1) as nat), check_offsets(n));
                }
            }
            if stop {
                return None;
            }
            next_check = i.saturating_add(CHECK_INTERVAL);
        }
        proof {
            assert(input@.take(i + 1).drop_last() =~= input@.take(i as int));
        }
        print_byte(&mut out, &mut cur, input[i]);
        i = i + 1;
    }
    proof {
        assert(input@.take(i as int) =~= input@);
    }
    Some(out)
}

} // verus!
