//! Changes to documents that wait to be written. Of several changes to one
//! document only the last is written, and a batch of them is written at once.
use crate::strings::{same_text, views};
use vstd::prelude::*;

verus! {

/// How long changes are gathered before they are written, in milliseconds.
pub const COALESCE_MS: u64 = 500;

#[derive(Debug, PartialEq, Eq)]
pub enum Change {
    Write(Vec<u8>),
    Delete,
}

/// A document and what it is to hold; without content, it is to be deleted.
pub struct ChangeView {
    pub file: Seq<char>,
    pub content: Option<Seq<u8>>,
}

#[derive(Debug, PartialEq, Eq)]
pub struct Pending {
    pub file: String,
    pub change: Change,
}

impl View for Pending {
    type V = ChangeView;

    open spec fn view(&self) -> ChangeView {
        ChangeView {
            file: self.file@,
            content: match self.change {
                Change::Write(bytes) => Some(bytes@),
                Change::Delete => None,
            },
        }
    }
}

/// Whether no document occurs twice.
pub open spec fn once_each(changes: Seq<ChangeView>) -> bool {
    forall|i: int, j: int|
        0 <= i < j < changes.len() ==> (#[trigger] changes[i]).file != (#[trigger] changes[j]).file
}

/// Where a document occurs in `changes`; their number where it does not.
pub open spec fn place_of(changes: Seq<ChangeView>, file: Seq<char>) -> int
    decreases changes.len(),
{
    if changes.len() == 0 || changes[0].file == file {
        0
    } else {
        1 + place_of(changes.skip(1), file)
    }
}

/// `changes` with one more: it takes the place of an earlier one to its document.
pub open spec fn coalesced(changes: Seq<ChangeView>, change: ChangeView) -> Seq<ChangeView> {
    let at = place_of(changes, change.file);
    if at < changes.len() {
        changes.update(at, change)
    } else {
        changes.push(change)
    }
}

/// Many changes, coalesced one after the other.
pub open spec fn coalesced_all(changes: Seq<ChangeView>) -> Seq<ChangeView>
    decreases changes.len(),
{
    if changes.len() == 0 {
        Seq::empty()
    } else {
        coalesced(coalesced_all(changes.drop_last()), changes.last())
    }
}

/// The documents after a change.
pub open spec fn changed(
    files: Map<Seq<char>, Seq<u8>>,
    change: ChangeView,
) -> Map<Seq<char>, Seq<u8>> {
    match change.content {
        Some(bytes) => files.insert(change.file, bytes),
        None => files.remove(change.file),
    }
}

/// The documents after many changes, made one after the other.
pub open spec fn changed_all(
    files: Map<Seq<char>, Seq<u8>>,
    changes: Seq<ChangeView>,
) -> Map<Seq<char>, Seq<u8>>
    decreases changes.len(),
{
    if changes.len() == 0 {
        files
    } else {
        changed(changed_all(files, changes.drop_last()), changes.last())
    }
}

#[derive(Debug)]
pub struct WriteQueue {
    pending: Vec<Pending>,
}

impl View for WriteQueue {
    type V = Seq<ChangeView>;

    closed spec fn view(&self) -> Seq<ChangeView> {
        views(self.pending@)
    }
}

impl WriteQueue {
    pub fn new() -> (r: WriteQueue)
        ensures
            r@ == Seq::<ChangeView>::empty(),
    {
        let r = WriteQueue { pending: Vec::new() };
        proof {
            assert(r@ =~= Seq::<ChangeView>::empty());
        }
        r
    }

    pub fn is_empty(&self) -> (r: bool)
        ensures
            r == (self@.len() == 0),
    {
        self.pending.len() == 0
    }

    fn place(&self, file: &str) -> (r: usize)
        ensures
            r == place_of(self@, file@),
            r <= self@.len(),
    {
        let ghost all = self@;
        let mut i: usize = 0;
        proof {
            assert(all.skip(0) =~= all);
        }
        while i < self.pending.len()
            invariant
                i <= self.pending@.len(),
                all == self@,
                all.len() == self.pending@.len(),
                place_of(all, file@) == i + place_of(all.skip(i as int), file@),
            decreases self.pending@.len() - i,
        {
            proof {
                assert(all.skip(i as int)[0] == self.pending@[i as int]@);
                assert(all.skip(i as int).skip(1) =~= all.skip(i + 1));
            }
            if same_text(self.pending[i].file.as_str(), file) {
                return i;
            }
            i = i + 1;
        }
        i
    }

    /// Adds a change. It takes the place of one to the same document that still
    /// waits.
    pub fn push(&mut self, file: &str, change: Change)
        ensures
            final(self)@ == coalesced(
                old(self)@,
                ChangeView {
                    file: file@,
                    content: match change {
                        Change::Write(bytes) => Some(bytes@),
                        Change::Delete => None,
                    },
                },
            ),
            once_each(old(self)@) ==> once_each(final(self)@),
    {
        let ghost before = self@;
        let at = self.place(file);
        let entry = Pending { file: file.to_owned(), change };
        let ghost view = entry@;
        if at < self.pending.len() {
            self.pending.set(at, entry);
            proof {
                assert(self@ =~= before.update(at as int, view));
            }
        } else {
            self.pending.push(entry);
            proof {
                assert(self@ =~= before.push(view));
            }
        }
        proof {
            if once_each(before) {
                lemma_stays_once_each(before, view);
            }
        }
    }

    /// Hands the changes out, in the order in which their documents first changed.
    pub fn take(&mut self) -> (r: Vec<Pending>)
        ensures
            views(r@) == old(self)@,
            final(self)@ == Seq::<ChangeView>::empty(),
    {
        let mut out: Vec<Pending> = Vec::new();
        std::mem::swap(&mut out, &mut self.pending);
        proof {
            assert(self@ =~= Seq::<ChangeView>::empty());
        }
        out
    }
}

proof fn lemma_place(changes: Seq<ChangeView>, file: Seq<char>)
    ensures
        0 <= place_of(changes, file) <= changes.len(),
        place_of(changes, file) < changes.len() ==> changes[place_of(changes, file)].file == file,
        forall|i: int|
            0 <= i < place_of(changes, file) ==> (#[trigger] changes[i]).file != file,
    decreases changes.len(),
{
    if changes.len() > 0 && changes[0].file != file {
        let tail = changes.skip(1);
        lemma_place(tail, file);
        assert forall|i: int| 0 <= i < place_of(changes, file) implies (
        #[trigger] changes[i]).file != file by {
            if i > 0 {
                assert(tail[i - 1] == changes[i]);
            }
        }
        if place_of(tail, file) < tail.len() {
            assert(tail[place_of(tail, file)] == changes[place_of(changes, file)]);
        }
    }
}

proof fn lemma_stays_once_each(changes: Seq<ChangeView>, change: ChangeView)
    requires
        once_each(changes),
    ensures
        once_each(coalesced(changes, change)),
{
    lemma_place(changes, change.file);
    let at = place_of(changes, change.file);
    let after = coalesced(changes, change);
    assert forall|i: int, j: int| 0 <= i < j < after.len() implies (#[trigger] after[i]).file != (
    #[trigger] after[j]).file by {
        if at < changes.len() {
            assert(after[i].file == changes[i].file && after[j].file == changes[j].file);
        }
    }
}

/// A change to a document that occurs nowhere in `changes` can be made before them.
proof fn lemma_swap(
    files: Map<Seq<char>, Seq<u8>>,
    changes: Seq<ChangeView>,
    change: ChangeView,
)
    requires
        forall|i: int| 0 <= i < changes.len() ==> (#[trigger] changes[i]).file != change.file,
    ensures
        changed_all(changed(files, change), changes) == changed(
            changed_all(files, changes),
            change,
        ),
    decreases changes.len(),
{
    if changes.len() > 0 {
        lemma_swap(files, changes.drop_last(), change);
        let last = changes.last();
        let before = changed_all(files, changes.drop_last());
        assert(changes[changes.len() - 1].file != change.file);
        assert(changed(changed(before, change), last) =~= changed(changed(before, last), change));
    }
}

proof fn lemma_changed_split(
    files: Map<Seq<char>, Seq<u8>>,
    changes: Seq<ChangeView>,
    at: int,
)
    requires
        0 <= at <= changes.len(),
    ensures
        changed_all(files, changes) == changed_all(
            changed_all(files, changes.take(at)),
            changes.skip(at),
        ),
    decreases changes.len(),
{
    if at == changes.len() {
        assert(changes.take(at) =~= changes);
    } else {
        lemma_changed_split(files, changes.drop_last(), at);
        assert(changes.drop_last().take(at) =~= changes.take(at));
        assert(changes.drop_last().skip(at) =~= changes.skip(at).drop_last());
    }
}

/// A change that takes the place of an earlier one leads to the same documents as
/// if both were made.
pub proof fn coalescing_keeps_the_outcome(
    files: Map<Seq<char>, Seq<u8>>,
    changes: Seq<ChangeView>,
    change: ChangeView,
)
    requires
        once_each(changes),
    ensures
        changed_all(files, coalesced(changes, change)) == changed(
            changed_all(files, changes),
            change,
        ),
{
    lemma_place(changes, change.file);
    let at = place_of(changes, change.file);
    let after = coalesced(changes, change);
    if at < changes.len() {
        let head = changed_all(files, changes.take(at));
        let rest = changes.skip(at + 1);
        assert forall|i: int| 0 <= i < rest.len() implies (#[trigger] rest[i]).file
            != change.file by {
            assert(rest[i] == changes[at + 1 + i]);
        }
        lemma_changed_split(files, changes, at + 1);
        lemma_changed_split(files, after, at + 1);
        assert(after.skip(at + 1) =~= rest);
        assert(changes.take(at + 1).drop_last() =~= changes.take(at));
        assert(after.take(at + 1).drop_last() =~= changes.take(at));
        let earlier = changes[at];
        assert(changed(changed(head, earlier), change) =~= changed(head, change));
        lemma_swap(changed(head, earlier), rest, change);
    } else {
        assert(after.drop_last() =~= changes);
    }
}

/// Whatever is changed, the queue leads to the same documents as the changes do,
/// with at most one write for each document.
pub proof fn no_change_is_lost(files: Map<Seq<char>, Seq<u8>>, changes: Seq<ChangeView>)
    ensures
        once_each(coalesced_all(changes)),
        changed_all(files, coalesced_all(changes)) == changed_all(files, changes),
        coalesced_all(changes).len() <= changes.len(),
    decreases changes.len(),
{
    if changes.len() > 0 {
        let head = changes.drop_last();
        no_change_is_lost(files, head);
        lemma_place(coalesced_all(head), changes.last().file);
        lemma_stays_once_each(coalesced_all(head), changes.last());
        coalescing_keeps_the_outcome(files, coalesced_all(head), changes.last());
    }
}

} // verus!
