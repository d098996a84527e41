//! A callback that may call a long step off, with a record of how often, where and
//! with which answers it was asked.
use vstd::prelude::*;

verus! {

/// One question: how far the step had come, and whether it was to stop there.
pub struct Answer {
    pub at: int,
    pub stop: bool,
}

/// A callback and the record of its answers. It is called through the record only.
pub struct Asker<F: FnMut() -> bool> {
    callback: F,
    log: Ghost<Seq<Answer>>,
}

/// Whether the answers are those of questions at `places`, in turn: each was asked
/// and denied, or the last answer stopped the rest.
pub open spec fn went(places: Seq<int>, answers: Seq<Answer>, stopped: bool) -> bool {
    &&& answers.len() <= places.len()
    &&& forall|i: int| 0 <= i < answers.len() ==> (#[trigger] answers[i]).at == places[i]
    &&& if stopped {
        &&& answers.len() > 0
        &&& answers.last().stop
        &&& forall|i: int| 0 <= i < answers.len() - 1 ==> !(#[trigger] answers[i]).stop
    } else {
        &&& answers.len() == places.len()
        &&& forall|i: int| 0 <= i < answers.len() ==> !(#[trigger] answers[i]).stop
    }
}

/// Whether each answer is one that the callback gives.
pub open spec fn given_by<F: FnMut() -> bool>(callback: F, answers: Seq<Answer>) -> bool {
    forall|i: int| 0 <= i < answers.len() ==> call_ensures(callback, (), (#[trigger] answers[i]).stop)
}

/// Whether a callback was asked at `places`, in turn, until it answered `true`, and
/// nowhere else. It answered `true` exactly where `stopped` says so.
pub open spec fn consulted<F: FnMut() -> bool>(callback: F, places: Seq<int>, stopped: bool) -> bool {
    exists|answers: Seq<Answer>| #[trigger]
        went(places, answers, stopped) && given_by(callback, answers)
}

/// Whether the record of `after` is that of `before` and what came of asking at
/// `places`, in turn, until the answer was `true`.
pub open spec fn asked_at<F: FnMut() -> bool>(
    before: Asker<F>,
    after: Asker<F>,
    places: Seq<int>,
    stopped: bool,
) -> bool {
    let new = after.log().skip(before.log().len() as int);
    &&& after.callback() == before.callback()
    &&& after.log() == before.log() + new
    &&& went(places, new, stopped)
    &&& given_by(before.callback(), new)
}

impl<F: FnMut() -> bool> Asker<F> {
    pub closed spec fn callback(self) -> F {
        self.callback
    }

    /// The answers so far.
    pub closed spec fn log(self) -> Seq<Answer> {
        self.log@
    }

    pub fn new(callback: F) -> (r: Asker<F>)
        ensures
            r.callback() == callback,
            r.log() == Seq::<Answer>::empty(),
    {
        Asker { callback, log: Ghost(Seq::empty()) }
    }

    /// Asks, `at` bytes into a step, whether it is to stop.
    pub fn ask(&mut self, at: usize) -> (r: bool)
        requires
            call_requires(old(self).callback(), ()),
        ensures
            final(self).callback() == old(self).callback(),
            final(self).log() == old(self).log().push(Answer { at: at as int, stop: r }),
            call_ensures(old(self).callback(), (), r),
    {
        let r = (self.callback)();
        self.log = Ghost(self.log@.push(Answer { at: at as int, stop: r }));
        r
    }
}

/// One question.
pub(crate) proof fn lemma_asked_once<F: FnMut() -> bool>(
    before: Asker<F>,
    after: Asker<F>,
    at: int,
    stop: bool,
)
    requires
        after.callback() == before.callback(),
        after.log() == before.log().push(Answer { at, stop }),
        call_ensures(before.callback(), (), stop),
    ensures
        asked_at(before, after, seq![at], stop),
{
    assert(after.log().skip(before.log().len() as int) =~= seq![Answer { at, stop }]);
    assert(after.log() =~= before.log() + seq![Answer { at, stop }]);
}

/// No question.
pub(crate) proof fn lemma_not_asked<F: FnMut() -> bool>(before: Asker<F>)
    ensures
        asked_at(before, before, Seq::empty(), false),
{
    assert(before.log().skip(before.log().len() as int) =~= Seq::<Answer>::empty());
    assert(before.log() =~= before.log() + Seq::<Answer>::empty());
}

/// Questions after questions that were all denied.
pub(crate) proof fn lemma_asked_on<F: FnMut() -> bool>(
    a: Asker<F>,
    b: Asker<F>,
    c: Asker<F>,
    first: Seq<int>,
    second: Seq<int>,
    stopped: bool,
)
    requires
        asked_at(a, b, first, false),
        asked_at(b, c, second, stopped),
    ensures
        asked_at(a, c, first + second, stopped),
{
    let x = b.log().skip(a.log().len() as int);
    let y = c.log().skip(b.log().len() as int);
    let z = c.log().skip(a.log().len() as int);
    assert(z =~= x + y);
    assert(c.log() =~= a.log() + z);
    assert forall|i: int| 0 <= i < z.len() implies (#[trigger] z[i]).at == (first + second)[i] by {
        if i < x.len() {
            assert(z[i] == x[i]);
        } else {
            assert(z[i] == y[i - x.len()]);
        }
    }
    assert forall|i: int| 0 <= i < z.len() implies call_ensures(
        a.callback(),
        (),
        (#[trigger] z[i]).stop,
    ) by {
        if i < x.len() {
            assert(z[i] == x[i]);
        } else {
            assert(z[i] == y[i - x.len()]);
        }
    }
    let denied = if stopped { z.len() - 1 } else { z.len() as int };
    assert forall|i: int| 0 <= i < denied implies !(#[trigger] z[i]).stop by {
        if i < x.len() {
            assert(z[i] == x[i]);
        } else {
            assert(z[i] == y[i - x.len()]);
        }
    }
    if stopped {
        assert(z.last() == y.last());
    }
}

/// After a stop, nothing more is asked.
pub(crate) proof fn lemma_stopped<F: FnMut() -> bool>(
    a: Asker<F>,
    b: Asker<F>,
    places: Seq<int>,
    all: Seq<int>,
)
    requires
        asked_at(a, b, places, true),
        places.len() <= all.len(),
        places == all.take(places.len() as int),
    ensures
        asked_at(a, b, all, true),
{
    let new = b.log().skip(a.log().len() as int);
    assert forall|i: int| 0 <= i < new.len() implies (#[trigger] new[i]).at == all[i] by {
        assert(places[i] == all[i]);
    }
}

/// What an asker that was new records is what its callback was asked.
pub(crate) proof fn lemma_consulted<F: FnMut() -> bool>(
    before: Asker<F>,
    after: Asker<F>,
    places: Seq<int>,
    stopped: bool,
)
    requires
        asked_at(before, after, places, stopped),
    ensures
        consulted(before.callback(), places, stopped),
{
    let new = after.log().skip(before.log().len() as int);
    assert(went(places, new, stopped) && given_by(before.callback(), new));
}

} // verus!
