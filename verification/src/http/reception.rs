//! A response while it arrives, step by step.
use crate::http::buffer::allocatable;
use crate::http::received::{content_type_in, header_texts, meta_of, raw_view};
use crate::http::sink::{
    head_of, report_due, written, BodyStore, BodyView, Progress, Sink, SinkAction,
    PROGRESS_INTERVAL,
};
use crate::model::{Duration, ResponseMeta};
use crate::strings::opt_text;
use crate::url::pairs_view;
use vstd::prelude::*;

verus! {

/// A response that is under way. Times are counted from when the request was
/// sent.
pub struct Reception {
    pub status: u16,
    pub reason: Option<String>,
    pub headers: Vec<(String, Vec<u8>)>,
    /// The length that the server gave, where it gave one.
    pub total: Option<u64>,
    pub sink: Sink,
    /// The body is kept in memory up to this length.
    pub threshold: u64,
    /// When progress was last reported.
    pub last_report: Duration,
}

/// What is to be done about one chunk.
pub struct Step {
    pub file: SinkAction,
    /// The progress to report, where a report is due.
    pub report: Option<Progress>,
}

/// A response that has arrived.
#[derive(Debug)]
pub struct HttpResponse {
    pub meta: ResponseMeta,
    pub body: BodyStore,
}

impl Reception {
    pub open spec fn wf(self) -> bool {
        allocatable(self.threshold as int) && self.last_report.wf()
    }

    /// Whether `received` has arrived so far, with `on_disk` in the file.
    pub open spec fn holds(self, received: Seq<u8>, on_disk: Seq<u8>) -> bool {
        self.sink.holds(received, on_disk, self.threshold as nat)
    }

    /// Starts to receive a response whose head arrived at `now`.
    pub fn new(
        status: u16,
        reason: Option<String>,
        headers: Vec<(String, Vec<u8>)>,
        total: Option<u64>,
        threshold: u64,
        now: Duration,
    ) -> (r: Reception)
        requires
            allocatable(threshold as int),
            now.wf(),
        ensures
            r.wf(),
            r.holds(Seq::empty(), Seq::empty()),
            r.status == status,
            r.reason == reason,
            r.headers == headers,
            r.total == total,
            r.threshold == threshold,
            r.last_report == now,
    {
        Reception {
            status,
            reason,
            headers,
            total,
            sink: Sink::with_capacity(total, threshold),
            threshold,
            last_report: now,
        }
    }

    /// Takes in a chunk that arrived at `now`.
    pub fn chunk(&mut self, chunk: &[u8], now: Duration) -> (r: Step)
        requires
            old(self).wf(),
            now.wf(),
            old(self).sink.spec_len() + chunk@.len() <= u64::MAX,
            old(self).sink.spec_len() + chunk@.len() <= usize::MAX || old(self).sink is Disk,
        ensures
            final(self).wf(),
            final(self).sink.spec_len() == old(self).sink.spec_len() + chunk@.len(),
            forall|received: Seq<u8>, on_disk: Seq<u8>|
                old(self).holds(received, on_disk) ==> #[trigger] final(self).holds(
                    received + chunk@,
                    on_disk + written(r.file, chunk@),
                ),
            r.file is Spill <==> old(self).sink is Memory && final(self).sink is Disk,
            r.file is Append <==> old(self).sink is Disk,
            old(self).sink is Memory ==> (final(self).sink is Memory
                <==> final(self).sink.spec_len() <= old(self).threshold),
            old(self).sink is Disk ==> final(self).sink is Disk,
            r.report is Some <==> now.total_nanos() - old(self).last_report.total_nanos()
                >= PROGRESS_INTERVAL * 1_000_000,
            r.report matches Some(p) ==> p.received == final(self).sink.spec_len() && p.total
                == old(self).total && p.elapsed == now,
            final(self).last_report == (if r.report is Some {
                now
            } else {
                old(self).last_report
            }),
            final(self).status == old(self).status,
            final(self).reason == old(self).reason,
            final(self).headers == old(self).headers,
            final(self).total == old(self).total,
            final(self).threshold == old(self).threshold,
    {
        let file = self.sink.push(chunk, self.threshold);
        let report = if report_due(now.since(self.last_report)) {
            self.last_report = now;
            Some(Progress { received: self.sink.len(), total: self.total, elapsed: now })
        } else {
            None
        };
        Step { file, report }
    }

    /// The response that ended at `now`, with the last report of progress; `file`
    /// names the file of a body on disk.
    pub fn finish(self, file: &str, now: Duration) -> (r: (Progress, HttpResponse))
        ensures
            r.0.received == self.sink.spec_len(),
            r.0.total == self.total,
            r.0.elapsed == now,
            r.1.meta.status == self.status,
            r.1.meta.status_text@ == (match self.reason {
                Some(text) => text@,
                None => Seq::<char>::empty(),
            }),
            pairs_view(r.1.meta.headers@) == header_texts(raw_view(self.headers@)),
            opt_text(r.1.meta.content_type) == content_type_in(raw_view(self.headers@)),
            r.1.meta.duration == now,
            r.1.meta.body_len == self.sink.spec_len(),
            r.1.body@ == finished(self.sink, file@),
    {
        let received = self.sink.len();
        let progress = Progress { received, total: self.total, elapsed: now };
        let reason = match &self.reason {
            Some(text) => Some(text.as_str()),
            None => None,
        };
        let meta = meta_of(self.status, reason, self.headers, now, received);
        let body = self.sink.finish(file);
        (progress, HttpResponse { meta, body })
    }
}

/// The stored body that a sink comes to; `file` names the file of a body on disk.
pub open spec fn finished(sink: Sink, file: Seq<char>) -> BodyView {
    match sink {
        Sink::Memory(buf) => BodyView::Memory(crate::http::buffer::buffer_bytes(buf)),
        Sink::Disk { head, len } => BodyView::Spilled { file, len: len as nat, head: head@ },
    }
}

/// A response that was received whole is stored whole: in memory up to the
/// threshold, and beyond it in the file, with its head in memory.
pub proof fn whole_body_is_stored(
    r: Reception,
    received: Seq<u8>,
    on_disk: Seq<u8>,
    file: Seq<char>,
)
    requires
        r.holds(received, on_disk),
    ensures
        finished(r.sink, file).total() == received.len(),
        received.len() <= r.threshold ==> finished(r.sink, file) == BodyView::Memory(received),
        received.len() > r.threshold ==> on_disk == received && finished(r.sink, file)
            == (BodyView::Spilled { file, len: received.len(), head: head_of(received) }),
{
}

} // verus!
