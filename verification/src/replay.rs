//! A shared core driven by an in-memory source: a vector of values pulled
//! front to back, exactly once each.
//!
//! Every cursor replays the same sequence — the vector — from the beginning,
//! while the ledger retains only what the slowest live cursor still needs.

use vstd::prelude::*;

use crate::engine::ReadOutcome;
use crate::engine::SharedCore;

verus! {

/// A shared core together with its source: the values of a vector, produced
/// in order on demand.  `pulled` counts how many the core has consumed.
pub struct Replay<T> {
    shared: SharedCore<T>,
    vals: Vec<T>,
    pulled: usize,
}

impl<T: Copy> Replay<T> {
    /// The full source sequence that every cursor replays.
    pub closed spec fn source(self) -> Seq<T> {
        self.vals@
    }

    /// The shared core holding the ledger and the cursors.
    pub closed spec fn engine(self) -> SharedCore<T> {
        self.shared
    }

    /// How many values have been pulled out of the source so far.
    pub closed spec fn pulled(self) -> usize {
        self.pulled
    }

    /// Whether `id` is a live cursor.
    pub open spec fn live(self, id: usize) -> bool {
        self.engine().live(id)
    }

    /// The next position cursor `id` will read.
    pub open spec fn pos(self, id: usize) -> usize {
        self.engine().pos(id)
    }

    /// Everything cursor `id` has read so far.
    pub open spec fn reads(self, id: usize) -> Seq<T> {
        self.engine().reads(id)
    }

    /// The lowest position still retained; a cursor below it reads stale.
    pub open spec fn retained_from(self) -> usize {
        self.engine().retained_from()
    }

    /// Whether the source has been drained to its end.
    pub open spec fn finished(self) -> bool {
        self.engine().finished()
    }

    /// Well-formedness: the core is well-formed, what it has produced is
    /// exactly the prefix of the source pulled so far, and the source's end
    /// is signalled exactly once everything was pulled.
    pub open spec fn wf(self) -> bool {
        &&& self.engine().wf()
        &&& self.engine().produced() == self.source().take(self.pulled() as int)
        &&& self.pulled() <= self.source().len()
        &&& (self.finished() ==> self.pulled() == self.source().len())
    }

    /// Wrap a source vector, returning the shared view and its root cursor,
    /// which stands at position zero with nothing pulled yet.
    pub fn new(vals: Vec<T>) -> (r: (Replay<T>, usize))
        ensures
            r.0.wf(),
            r.0.source() == vals@,
            r.0.pulled() == 0,
            !r.0.finished(),
            r.0.live(r.1),
            r.0.pos(r.1) == 0,
            r.0.engine().num_live() == 1,
            r.0.engine().pull_count() == 0,
    {
        let (core, id) = SharedCore::new();
        let r = Replay { shared: core, vals, pulled: 0 };
        proof {
            assert(r.engine().produced() =~= r.source().take(0));
            assert(Map::<usize, usize>::empty().dom().insert(id).len() == 1);
            assert(r.engine().cursors().dom() =~= Map::<usize, usize>::empty().dom().insert(id));
        }
        (r, id)
    }

    /// A new cursor replaying the sequence from position zero.
    pub fn clone_cursor(&mut self) -> (id: usize)
        requires
            old(self).wf(),
        ensures
            final(self).wf(),
            !old(self).live(id),
            final(self).live(id),
            final(self).pos(id) == 0,
            final(self).source() == old(self).source(),
            final(self).pulled() == old(self).pulled(),
            final(self).finished() == old(self).finished(),
            final(self).engine().cursors() == old(self).engine().cursors().insert(id, 0),
            final(self).engine().pull_count() == old(self).engine().pull_count(),
            final(self).retained_from() == old(self).retained_from(),
    {
        self.shared.clone_cursor()
    }

    /// Drop cursor `id`; every other cursor is untouched and reads on
    /// unchanged, whatever position the released cursor stood at.
    pub fn release(&mut self, id: usize)
        requires
            old(self).wf(),
            old(self).live(id),
        ensures
            final(self).wf(),
            final(self).engine().cursors() == old(self).engine().cursors().remove(id),
            final(self).source() == old(self).source(),
            final(self).pulled() == old(self).pulled(),
            final(self).finished() == old(self).finished(),
            final(self).engine().pull_count() == old(self).engine().pull_count(),
            forall|k: usize|
                old(self).live(k) && k != id ==> final(self).live(k) && final(self).pos(k)
                    == old(self).pos(k),
    {
        self.shared.release(id)
    }

    /// One read step for cursor `id`: the value at its position (pulled from
    /// the source at most once, however many cursors read it), the permanent
    /// end of the sequence, or a stale answer for an already-evicted
    /// position.
    pub fn next(&mut self, id: usize) -> (r: ReadOutcome<T>)
        requires
            old(self).wf(),
            old(self).live(id),
        ensures
            final(self).wf(),
            final(self).source() == old(self).source(),
            final(self).engine().cursors().dom() == old(self).engine().cursors().dom(),
            final(self).finished() ==> old(self).finished() || r is EndOfSequence,
            forall|k: usize|
                old(self).live(k) && k != id ==> final(self).pos(k) == old(self).pos(k),
            forall|k: usize|
                #[trigger] old(self).live(k) && old(self).retained_from() <= old(self).pos(k)
                    ==> final(self).retained_from() <= final(self).pos(k),
            !(r is NeedPull),
            (r is StaleRead) <==> old(self).pos(id) < old(self).retained_from(),
            (r is Value) <==> (old(self).retained_from() <= old(self).pos(id)
                && old(self).pos(id) < old(self).source().len()),
            (r is EndOfSequence) <==> (old(self).retained_from() <= old(self).pos(id)
                && old(self).pos(id) == old(self).source().len()),
            r matches ReadOutcome::Value(v) ==> v == old(self).source()[old(self).pos(id) as int]
                && final(self).pos(id) == old(self).pos(id) + 1,
            r is EndOfSequence ==> final(self).finished() && final(self).pos(id) == old(
                self,
            ).pos(id),
            r is StaleRead ==> *final(self) == *old(self),
    {
        let ghost pre = *self;
        let step = self.shared.try_read(id);
        match step {
            ReadOutcome::NeedPull => {
                if self.pulled < self.vals.len() {
                    let v = self.vals[self.pulled];
                    self.pulled = self.pulled + 1;
                    proof {
                        assert(pre.source().take(pre.pulled() + 1) =~= pre.source().take(
                            pre.pulled() as int,
                        ).push(pre.source()[pre.pulled() as int]));
                    }
                    self.shared.deliver(id, Some(v));
                    ReadOutcome::Value(v)
                } else {
                    self.shared.deliver(id, None);
                    ReadOutcome::EndOfSequence
                }
            },
            ReadOutcome::Value(v) => {
                proof {
                    assert(v == pre.source()[pre.pos(id) as int]);
                }
                ReadOutcome::Value(v)
            },
            ReadOutcome::EndOfSequence => ReadOutcome::EndOfSequence,
            ReadOutcome::StaleRead => ReadOutcome::StaleRead,
        }
    }

    /// Whether `id` is a live cursor.
    pub fn is_live(&self, id: usize) -> (b: bool)
        ensures
            b == self.live(id),
    {
        self.shared.is_live(id)
    }

    /// The next position cursor `id` will read.
    pub fn position(&self, id: usize) -> (p: usize)
        requires
            self.live(id),
        ensures
            p == self.pos(id),
    {
        self.shared.position(id)
    }

    /// How many values the ledger currently retains.
    pub fn retained_count(&self) -> (n: usize)
        ensures
            n == self.engine().retained().len(),
    {
        self.shared.retained_count()
    }

    /// The number of live cursors.
    pub fn live_count(&self) -> (n: usize)
        ensures
            n == self.engine().num_live(),
    {
        self.shared.live_count()
    }
}

/// Replay equality: any two cursors that have drained the shared view to its
/// end have each read exactly the source sequence — element for element the
/// same, however their reads interleaved.
pub proof fn lemma_replay_equality<T: Copy>(s: Replay<T>, a: usize, b: usize)
    requires
        s.wf(),
        s.live(a),
        s.live(b),
        s.pos(a) == s.source().len(),
        s.pos(b) == s.source().len(),
    ensures
        s.reads(a) == s.source(),
        s.reads(b) == s.source(),
        s.reads(a) == s.reads(b),
{
    assert(s.engine().produced().len() <= s.source().len());
    assert(s.pos(a) <= s.engine().produced().len());
    assert(s.engine().produced() =~= s.source());
    assert(s.reads(a) =~= s.source());
    assert(s.reads(b) =~= s.source());
}

/// Concurrent consistency, linearized: a cursor that has taken `k` values
/// reads exactly the first `k` values of the source — the same as any cursor
/// of any other view over an equal source, in particular a single fresh
/// reference drain.
pub proof fn lemma_concurrent_consistency<T: Copy>(
    s1: Replay<T>,
    s2: Replay<T>,
    a: usize,
    b: usize,
    k: usize,
)
    requires
        s1.wf(),
        s2.wf(),
        s1.source() == s2.source(),
        s1.live(a),
        s2.live(b),
        s1.pos(a) == k,
        s2.pos(b) == k,
    ensures
        s1.reads(a) == s1.source().take(k as int),
        s1.reads(a) == s2.reads(b),
{
    assert(s1.pos(a) <= s1.engine().produced().len());
    assert(s2.pos(b) <= s2.engine().produced().len());
    assert(s1.reads(a) =~= s1.source().take(k as int));
    assert(s2.reads(b) =~= s2.source().take(k as int));
}

} // verus!
