//! Where a response body goes: into memory up to a threshold, and on to disk
//! beyond it.
use crate::http::buffer::{
    allocatable, buffer_bytes, buffer_slice, bytes_of, bytes_slice, held_bytes,
};
use crate::model::Duration;
use bytes::{Bytes, BytesMut};
use vstd::prelude::*;

verus! {

/// How much of a body on disk is kept in memory as well.
pub const HEAD_BYTES: usize = 1048576;

/// Largest body that stays in memory.
pub const MAX_BODY_BYTES: u64 = 67108864;

/// Milliseconds between two reports of progress.
pub const PROGRESS_INTERVAL: u64 = 33;

pub open spec fn min_int(a: int, b: int) -> int {
    if a < b {
        a
    } else {
        b
    }
}

/// The head of a body that is kept in memory.
pub open spec fn head_of(received: Seq<u8>) -> Seq<u8> {
    received.take(min_int(received.len() as int, HEAD_BYTES as int))
}

/// A stored response body.
#[derive(Debug, PartialEq, Eq)]
pub enum BodyStore {
    /// All of it is in memory.
    Memory(Bytes),
    /// It is in a file; its head is in memory.
    Spilled { file: String, len: u64, head: Vec<u8> },
}

pub enum BodyView {
    Memory(Seq<u8>),
    Spilled { file: Seq<char>, len: nat, head: Seq<u8> },
}

impl View for BodyStore {
    type V = BodyView;

    open spec fn view(&self) -> BodyView {
        match *self {
            BodyStore::Memory(b) => BodyView::Memory(held_bytes(b)),
            BodyStore::Spilled { file, len, head } => BodyView::Spilled {
                file: file@,
                len: len as nat,
                head: head@,
            },
        }
    }
}

impl BodyView {
    /// The bytes that can be read without the file.
    pub open spec fn available(self) -> Seq<u8> {
        match self {
            BodyView::Memory(b) => b,
            BodyView::Spilled { head, .. } => head,
        }
    }

    pub open spec fn total(self) -> nat {
        match self {
            BodyView::Memory(b) => b.len(),
            BodyView::Spilled { len, .. } => len,
        }
    }
}

impl BodyStore {
    pub fn in_memory(bytes: Vec<u8>) -> (r: BodyStore)
        ensures
            r@ == BodyView::Memory(bytes@),
    {
        BodyStore::Memory(bytes_of(bytes))
    }

    pub fn len(&self) -> (r: u64)
        ensures
            r == self@.total(),
    {
        match self {
            BodyStore::Memory(b) => bytes_slice(b).len() as u64,
            BodyStore::Spilled { len, .. } => *len,
        }
    }

    pub fn is_empty(&self) -> (r: bool)
        ensures
            r == (self@.total() == 0),
    {
        self.len() == 0
    }

    pub fn is_spilled(&self) -> (r: bool)
        ensures
            r == (self@ is Spilled),
    {
        match self {
            BodyStore::Memory(_) => false,
            BodyStore::Spilled { .. } => true,
        }
    }

    /// All bytes, where they are in memory.
    pub fn memory(&self) -> (r: Option<&[u8]>)
        ensures
            match r {
                Some(b) => self@ == BodyView::Memory(b@),
                None => self@ is Spilled,
            },
    {
        match self {
            BodyStore::Memory(b) => Some(bytes_slice(b)),
            BodyStore::Spilled { .. } => None,
        }
    }

    /// The first `n` bytes, as far as they are in memory.
    pub fn head(&self, n: usize) -> (r: &[u8])
        ensures
            r@ == self@.available().take(min_int(self@.available().len() as int, n as int)),
    {
        let bytes: &[u8] = match self {
            BodyStore::Memory(b) => bytes_slice(b),
            BodyStore::Spilled { head, .. } => head.as_slice(),
        };
        let k = if bytes.len() < n {
            bytes.len()
        } else {
            n
        };
        let r = vstd::slice::slice_subrange(bytes, 0, k);
        proof {
            assert(r@ =~= bytes@.take(k as int));
        }
        r
    }

    /// The file that holds the body, where it is on disk.
    pub fn path(&self) -> (r: Option<&str>)
        ensures
            match r {
                Some(p) => self@ matches BodyView::Spilled { file, .. } && file == p@,
                None => self@ is Memory,
            },
    {
        match self {
            BodyStore::Memory(_) => None,
            BodyStore::Spilled { file, .. } => Some(file.as_str()),
        }
    }
}

/// A body while it is being received.
pub enum Sink {
    Memory(BytesMut),
    Disk { head: Vec<u8>, len: u64 },
}

/// What has to be done with the file for one chunk.
pub enum SinkAction {
    /// Nothing: the chunk is in memory.
    Keep,
    /// Create the file, write these bytes to it, then the chunk.
    Spill(BytesMut),
    /// Write the chunk to the file.
    Append,
}

/// What an action adds to the file.
pub open spec fn written(action: SinkAction, chunk: Seq<u8>) -> Seq<u8> {
    match action {
        SinkAction::Keep => Seq::empty(),
        SinkAction::Spill(buffered) => buffer_bytes(buffered) + chunk,
        SinkAction::Append => chunk,
    }
}

impl Sink {
    /// Whether the sink stands where it should after `received`, with `on_disk` in
    /// the file: all in memory up to the threshold, all on disk beyond it.
    pub open spec fn holds(self, received: Seq<u8>, on_disk: Seq<u8>, threshold: nat) -> bool {
        match self {
            Sink::Memory(buf) => buffer_bytes(buf) == received && received.len() <= threshold
                && on_disk == Seq::<u8>::empty(),
            Sink::Disk { head, len } => len == received.len() && received.len() > threshold
                && head@ == head_of(received) && on_disk == received,
        }
    }

    /// How many bytes have been received.
    pub open spec fn spec_len(self) -> nat {
        match self {
            Sink::Memory(buf) => buffer_bytes(buf).len(),
            Sink::Disk { len, .. } => len as nat,
        }
    }

    /// An empty sink for a body of the length `expected`, where that is known.
    pub fn with_capacity(expected: Option<u64>, threshold: u64) -> (r: Sink)
        requires
            allocatable(threshold as int),
        ensures
            r.holds(Seq::<u8>::empty(), Seq::<u8>::empty(), threshold as nat),
    {
        let wanted = match expected {
            Some(n) => if n < threshold {
                n
            } else {
                threshold
            },
            None => 0,
        };
        Sink::Memory(BytesMut::with_capacity(wanted as usize))
    }

    pub fn len(&self) -> (r: u64)
        ensures
            r == self.spec_len(),
    {
        match self {
            Sink::Memory(buf) => buffer_slice(buf).len() as u64,
            Sink::Disk { len, .. } => *len,
        }
    }

    /// Takes in one chunk, and says what has to be done with the file.
    pub fn push(&mut self, chunk: &[u8], threshold: u64) -> (r: SinkAction)
        requires
            allocatable(threshold as int),
            old(self).spec_len() + chunk@.len() <= u64::MAX,
            old(self).spec_len() + chunk@.len() <= usize::MAX || (*old(self)) is Disk,
        ensures
            final(self).spec_len() == old(self).spec_len() + chunk@.len(),
            r is Spill <==> (*old(self)) is Memory && (*final(self)) is Disk,
            r is Append <==> (*old(self)) is Disk,
            (*old(self)) is Memory ==> ((*final(self)) is Memory <==> old(self).spec_len() + chunk@.len()
                <= threshold),
            (*old(self)) is Disk ==> (*final(self)) is Disk,
            forall|received: Seq<u8>, on_disk: Seq<u8>|
                old(self).holds(received, on_disk, threshold as nat) ==>
                    #[trigger] final(self).holds(
                    received + chunk@,
                    on_disk + written(r, chunk@),
                    threshold as nat,
                ),
    {
        let ghost before = *self;
        let mut buffered = BytesMut::new();
        match self {
            Sink::Memory(buf) => {
                if (buffer_slice(buf).len() + chunk.len()) as u64 <= threshold {
                    buf.extend_from_slice(chunk);
                    proof {
                        assert forall|received: Seq<u8>, on_disk: Seq<u8>|
                            before.holds(received, on_disk, threshold as nat) implies
                            #[trigger] self.holds(
                            received + chunk@,
                            on_disk + Seq::<u8>::empty(),
                            threshold as nat,
                        ) by {
                            assert(on_disk + Seq::<u8>::empty() =~= Seq::<u8>::empty());
                        }
                    }
                    return SinkAction::Keep;
                }
                std::mem::swap(&mut buffered, buf);
            },
            Sink::Disk { head, len } => {
                grow_head(head, chunk);
                *len = *len + chunk.len() as u64;
                proof {
                    assert forall|received: Seq<u8>, on_disk: Seq<u8>|
                        before.holds(received, on_disk, threshold as nat) implies #[trigger] self.holds(
                        received + chunk@,
                        on_disk + chunk@,
                        threshold as nat,
                    ) by {
                        lemma_head_grows(received, chunk@);
                    }
                }
                return SinkAction::Append;
            },
        }
        let ghost kept = buffer_bytes(buffered);
        let so_far = buffer_slice(&buffered);
        let mut head: Vec<u8> = Vec::new();
        let k = if so_far.len() < HEAD_BYTES {
            so_far.len()
        } else {
            HEAD_BYTES
        };
        append_slice(&mut head, so_far, k);
        proof {
            assert(head@ =~= head_of(kept));
        }
        grow_head(&mut head, chunk);
        let len = so_far.len() as u64 + chunk.len() as u64;
        *self = Sink::Disk { head, len };
        proof {
            lemma_head_grows(kept, chunk@);
            assert forall|received: Seq<u8>, on_disk: Seq<u8>|
                before.holds(received, on_disk, threshold as nat) implies #[trigger] self.holds(
                received + chunk@,
                on_disk + (kept + chunk@),
                threshold as nat,
            ) by {
                assert(on_disk + (kept + chunk@) =~= received + chunk@);
            }
        }
        SinkAction::Spill(buffered)
    }

    /// The stored body; `file` names the file of a body on disk.
    pub fn finish(self, file: &str) -> (r: BodyStore)
        ensures
            r@.total() == self.spec_len(),
            match self {
                Sink::Memory(buf) => r@ == BodyView::Memory(buffer_bytes(buf)),
                Sink::Disk { head, len } => r@ == (BodyView::Spilled {
                    file: file@,
                    len: len as nat,
                    head: head@,
                }),
            },
    {
        match self {
            Sink::Memory(buf) => BodyStore::Memory(buf.freeze()),
            Sink::Disk { head, len } => BodyStore::Spilled { file: file.to_owned(), len, head },
        }
    }
}

/// A finished body holds what was received: up to the threshold all of it is in
/// memory, beyond it all of it is in the file and its head in memory.
pub proof fn finished_body_is_complete(
    sink: Sink,
    received: Seq<u8>,
    on_disk: Seq<u8>,
    threshold: nat,
)
    requires
        sink.holds(received, on_disk, threshold),
    ensures
        sink.spec_len() == received.len(),
        received.len() <= threshold <==> sink is Memory,
        sink matches Sink::Memory(buf) ==> buffer_bytes(buf) == received,
        sink matches Sink::Disk { head, .. } ==> on_disk == received && head@ == head_of(received),
{
}

proof fn lemma_head_grows(received: Seq<u8>, chunk: Seq<u8>)
    ensures
        head_of(received + chunk) == head_of(received) + chunk.take(
            min_int(chunk.len() as int, HEAD_BYTES - head_of(received).len()),
        ),
{
    let h = head_of(received);
    let k = min_int(chunk.len() as int, HEAD_BYTES - h.len());
    assert(head_of(received + chunk) =~= h + chunk.take(k));
}

fn append_slice(out: &mut Vec<u8>, bytes: &[u8], n: usize)
    requires
        n <= bytes@.len(),
    ensures
        final(out)@ == old(out)@ + bytes@.take(n as int),
{
    let mut i: usize = 0;
    proof {
        assert(out@ =~= old(out)@ + bytes@.take(0));
    }
    while i < n
        invariant
            i <= n <= bytes@.len(),
            out@ == old(out)@ + bytes@.take(i as int),
        decreases n - i,
    {
        out.push(bytes[i]);
        i = i + 1;
        proof {
            assert(out@ =~= old(out)@ + bytes@.take(i as int));
        }
    }
}

fn grow_head(head: &mut Vec<u8>, chunk: &[u8])
    ensures
        old(head)@.len() <= HEAD_BYTES ==> final(head)@ == old(head)@ + chunk@.take(
            min_int(chunk@.len() as int, HEAD_BYTES - old(head)@.len()),
        ),
        old(head)@.len() > HEAD_BYTES ==> final(head)@ == old(head)@,
{
    if head.len() <= HEAD_BYTES {
        let room = HEAD_BYTES - head.len();
        let k = if chunk.len() < room {
            chunk.len()
        } else {
            room
        };
        append_slice(head, chunk, k);
    }
}

/// How far a response has been received.
#[derive(Debug, Clone, Copy, PartialEq, Eq, Structural)]
pub struct Progress {
    pub received: u64,
    pub total: Option<u64>,
    pub elapsed: Duration,
}

/// Whether it is time for another report of progress.
pub fn report_due(since_last: Duration) -> (r: bool)
    requires
        since_last.wf(),
    ensures
        r == (since_last.total_nanos() >= PROGRESS_INTERVAL * 1_000_000),
{
    since_last.secs > 0 || since_last.nanos >= 33_000_000
}

} // verus!
