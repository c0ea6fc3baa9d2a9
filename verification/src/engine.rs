//! The shared core: the ledger of produced-but-not-yet-drained values and the
//! registry of live cursors.
//!
//! Values enter through [`SharedCore::deliver`], one per position, in
//! production order; a ghost history records every value ever produced.  The
//! ledger retains the suffix of that history that some live cursor may still
//! read, and evicts a value once every live cursor has moved past it (low
//! water mark eviction).  A cursor that asks for a position that was already
//! evicted gets a distinct stale answer, never a wrong value.

use vstd::prelude::*;

use crate::slab_store::slab_contains;
use crate::slab_store::slab_get;
use crate::slab_store::slab_insert;
use crate::slab_store::slab_len;
use crate::slab_store::slab_map;
use crate::slab_store::slab_new;
use crate::slab_store::slab_pairs;
use crate::slab_store::slab_remove;
use crate::slab_store::slab_set;

verus! {

/// What a cursor finds at its current position.
#[derive(Debug, Clone, Copy, PartialEq, Eq)]
pub enum ReadOutcome<T> {
    /// The value at the cursor's position; the cursor has advanced past it.
    Value(T),
    /// The position is one past the history and the source is not exhausted:
    /// the caller must pull the source once and hand the result to `deliver`.
    NeedPull,
    /// The source is exhausted and the cursor has read every value; permanent.
    EndOfSequence,
    /// The position was already evicted: every value there is gone for good.
    StaleRead,
}

/// The ledger and cursor registry shared by every cursor of one root.
///
/// `buf` holds the values at positions `base .. base + buf.len()`; everything
/// below `base` has been evicted.  `slots` maps each live cursor to the next
/// position it will read.  `hist` is the ghost history of all produced values
/// and `pulls` the ghost count of source pulls recorded by `deliver`.
pub struct SharedCore<T> {
    buf: Vec<T>,
    base: usize,
    slots: slab::Slab<usize>,
    done: bool,
    hist: Ghost<Seq<T>>,
    pulls: Ghost<nat>,
}

impl<T: Copy> SharedCore<T> {
    /// Every value ever produced, in production order.
    pub closed spec fn produced(self) -> Seq<T> {
        self.hist@
    }

    /// The live cursors: each cursor id mapped to the next position it reads.
    pub closed spec fn cursors(self) -> Map<usize, usize> {
        slab_map(self.slots)
    }

    /// The lowest position still retained; everything below it was evicted.
    pub closed spec fn retained_from(self) -> usize {
        self.base
    }

    /// The retained values, one per position from `retained_from` on.
    pub closed spec fn retained(self) -> Seq<T> {
        self.buf@
    }

    /// Whether the source has signalled end of sequence; terminal.
    pub closed spec fn finished(self) -> bool {
        self.done
    }

    /// How many times the source has been pulled on this core's behalf.
    pub closed spec fn pull_count(self) -> nat {
        self.pulls@
    }

    /// Whether `id` is a live cursor of this core.
    pub open spec fn live(self, id: usize) -> bool {
        self.cursors().dom().contains(id)
    }

    /// The next position cursor `id` will read.
    pub open spec fn pos(self, id: usize) -> usize {
        self.cursors()[id]
    }

    /// The number of live cursors.
    pub open spec fn num_live(self) -> nat {
        self.cursors().dom().len()
    }

    /// Whether any cursor is live.
    pub open spec fn has_live(self) -> bool {
        exists|k: usize| self.live(k)
    }

    /// Everything cursor `id` has read so far: the history up to its position.
    pub open spec fn reads(self, id: usize) -> Seq<T> {
        self.produced().take(self.pos(id) as int)
    }

    /// The ledger is exactly the suffix of the history from `retained_from`
    /// on, cursor positions never pass the history, and every pull either
    /// produced a position or was the single terminal probe.
    pub open spec fn consistent(self) -> bool {
        &&& self.cursors().dom().finite()
        &&& self.produced().len() <= usize::MAX
        &&& self.retained_from() + self.retained().len() == self.produced().len()
        &&& self.retained() == self.produced().skip(self.retained_from() as int)
        &&& forall|k: usize| #[trigger] self.live(k) ==> self.pos(k) <= self.produced().len()
        &&& self.pull_count() == self.produced().len() + (if self.finished() {
            1nat
        } else {
            0nat
        })
    }

    /// Well-formedness: `consistent`, and eviction never outran the cursors:
    /// while any cursor is live, the slowest one is at or below
    /// `retained_from`, so each value is evicted only once every live cursor
    /// is past it.
    pub open spec fn wf(self) -> bool {
        &&& self.consistent()
        &&& (self.has_live() ==> exists|k: usize|
            self.live(k) && self.pos(k) <= self.retained_from())
    }

    /// A fresh core with one root cursor at position zero and nothing pulled.
    pub fn new() -> (r: (SharedCore<T>, usize))
        ensures
            r.0.wf(),
            r.0.produced() == Seq::<T>::empty(),
            !r.0.finished(),
            r.0.pull_count() == 0,
            r.0.retained_from() == 0,
            r.0.cursors() == Map::<usize, usize>::empty().insert(r.1, 0),
            r.0.live(r.1),
            r.0.pos(r.1) == 0,
    {
        let mut slots = slab_new();
        proof {
            assert(slab_map(slots) =~= Map::<usize, usize>::empty());
        }
        let id = slab_insert(&mut slots, 0);
        let core = SharedCore {
            buf: Vec::new(),
            base: 0,
            slots,
            done: false,
            hist: Ghost(Seq::empty()),
            pulls: Ghost(0nat),
        };
        proof {
            assert(core.live(id) && core.pos(id) <= core.retained_from());
            assert(core.retained() =~= core.produced().skip(0));
        }
        (core, id)
    }

    /// A new cursor sharing this core, starting at position zero so that it
    /// replays the sequence from the beginning.
    pub fn clone_cursor(&mut self) -> (id: usize)
        requires
            old(self).wf(),
        ensures
            final(self).wf(),
            !old(self).live(id),
            final(self).cursors() == old(self).cursors().insert(id, 0),
            final(self).live(id),
            final(self).pos(id) == 0,
            final(self).produced() == old(self).produced(),
            final(self).finished() == old(self).finished(),
            final(self).pull_count() == old(self).pull_count(),
            final(self).retained_from() == old(self).retained_from(),
            final(self).retained() == old(self).retained(),
    {
        let ghost pre = *self;
        let id = slab_insert(&mut self.slots, 0);
        proof {
            assert(self.live(id) && self.pos(id) <= self.retained_from());
            assert forall|k: usize| #[trigger] self.live(k) implies self.pos(k)
                <= self.produced().len() by {
                if k != id {
                    assert(pre.live(k));
                }
            }
        }
        id
    }

    /// Evict every ledger entry that no live cursor can still ask for: all
    /// those below the position of the slowest live cursor, or all of them
    /// when no cursor is live.
    fn evict(&mut self)
        requires
            old(self).consistent(),
        ensures
            final(self).wf(),
            final(self).cursors() == old(self).cursors(),
            final(self).produced() == old(self).produced(),
            final(self).finished() == old(self).finished(),
            final(self).pull_count() == old(self).pull_count(),
            final(self).retained_from() >= old(self).retained_from(),
            forall|k: usize|
                #[trigger] old(self).live(k) && old(self).retained_from() <= old(self).pos(k)
                    ==> final(self).retained_from() <= final(self).pos(k),
            !final(self).has_live() ==> final(self).retained().len() == 0,
    {
        let ghost pre = *self;
        let pairs = slab_pairs(&self.slots);
        if pairs.len() == 0 {
            proof {
                assert forall|k: usize| !(#[trigger] pre.live(k)) by {
                    if pre.live(k) {
                        let i0 = choose|i0: int|
                            0 <= i0 < pairs@.len() && (#[trigger] pairs@[i0]).0 == k;
                    }
                }
            }
            let n = self.buf.len();
            self.base = self.base + n;
            self.buf.clear();
            proof {
                assert(self.retained() =~= self.produced().skip(self.retained_from() as int));
                assert forall|k: usize| !(#[trigger] self.live(k)) by {
                    assert(!pre.live(k));
                }
            }
        } else {
            let mut m: usize = pairs[0].1;
            let mut i: usize = 1;
            while i < pairs.len()
                invariant
                    1 <= i <= pairs@.len(),
                    exists|j: int| 0 <= j < pairs@.len() && (#[trigger] pairs@[j]).1 == m,
                    forall|j: int| 0 <= j < i ==> (#[trigger] pairs@[j]).1 >= m,
                decreases pairs@.len() - i,
            {
                if pairs[i].1 < m {
                    m = pairs[i].1;
                }
                i = i + 1;
            }
            let ghost w = choose|j: int| 0 <= j < pairs@.len() && (#[trigger] pairs@[j]).1 == m;
            proof {
                assert(slab_map(self.slots).contains_pair(pairs@[w].0, pairs@[w].1));
                assert(pre.live(pairs@[w].0) && pre.pos(pairs@[w].0) == m);
                assert forall|k: usize| #[trigger] pre.live(k) implies pre.pos(k) >= m by {
                    let i0 = choose|i0: int|
                        0 <= i0 < pairs@.len() && (#[trigger] pairs@[i0]).0 == k;
                    assert(slab_map(self.slots).contains_pair(pairs@[i0].0, pairs@[i0].1));
                    assert(pairs@[i0].1 >= m);
                }
                assert(m <= pre.produced().len());
            }
            if self.base < m {
                let steps = m - self.base;
                let tail = self.buf.split_off(steps);
                self.buf = tail;
                self.base = m;
                proof {
                    assert(self.retained() =~= self.produced().skip(m as int));
                }
            }
            proof {
                assert(self.live(pairs@[w].0) && self.pos(pairs@[w].0) == m);
                assert(self.pos(pairs@[w].0) <= self.retained_from());
                assert forall|k: usize| #[trigger] self.live(k) implies self.pos(k)
                    <= self.produced().len() by {
                    assert(pre.live(k));
                }
                assert forall|k: usize|
                    pre.live(k) && pre.retained_from() <= pre.pos(k) implies self.retained_from()
                    <= self.pos(k) by {
                    assert(pre.pos(k) >= m);
                    assert(self.pos(k) == pre.pos(k));
                }
            }
        }
    }

    /// Drop cursor `id`: its position no longer holds any value back, so the
    /// ledger may shrink; every other cursor is untouched and reads on
    /// unchanged.
    pub fn release(&mut self, id: usize)
        requires
            old(self).wf(),
            old(self).live(id),
        ensures
            final(self).wf(),
            final(self).cursors() == old(self).cursors().remove(id),
            final(self).produced() == old(self).produced(),
            final(self).finished() == old(self).finished(),
            final(self).pull_count() == old(self).pull_count(),
            final(self).retained_from() >= old(self).retained_from(),
            forall|k: usize|
                #[trigger] old(self).live(k) && k != id && old(self).retained_from() <= old(
                    self,
                ).pos(k) ==> final(self).retained_from() <= final(self).pos(k),
            !final(self).has_live() ==> final(self).retained().len() == 0,
    {
        let ghost pre = *self;
        slab_remove(&mut self.slots, id);
        let ghost mid = *self;
        proof {
            assert forall|k: usize| #[trigger] self.live(k) implies self.pos(k)
                <= self.produced().len() by {
                assert(pre.live(k));
            }
        }
        self.evict();
        proof {
            assert forall|k: usize|
                pre.live(k) && k != id && pre.retained_from() <= pre.pos(k)
                    implies self.retained_from() <= self.pos(k) by {
                assert(mid.live(k) && mid.retained_from() <= mid.pos(k));
            }
        }
    }

    /// One read step for cursor `id`.  A hit advances the cursor and returns
    /// the value at its position; a position past the history asks the caller
    /// to pull (or reports the permanent end); a position below
    /// `retained_from` was evicted and is reported stale, never served wrong.
    pub fn try_read(&mut self, id: usize) -> (r: ReadOutcome<T>)
        requires
            old(self).wf(),
            old(self).live(id),
        ensures
            final(self).wf(),
            final(self).produced() == old(self).produced(),
            final(self).finished() == old(self).finished(),
            final(self).pull_count() == old(self).pull_count(),
            final(self).cursors().dom() == old(self).cursors().dom(),
            final(self).retained_from() >= old(self).retained_from(),
            forall|k: usize|
                old(self).live(k) && k != id ==> final(self).pos(k) == old(self).pos(k),
            forall|k: usize|
                #[trigger] old(self).live(k) && old(self).retained_from() <= old(self).pos(k)
                    ==> final(self).retained_from() <= final(self).pos(k),
            (r is StaleRead) <==> old(self).pos(id) < old(self).retained_from(),
            (r is Value) <==> (old(self).retained_from() <= old(self).pos(id)
                && old(self).pos(id) < old(self).produced().len()),
            (r is NeedPull) <==> (old(self).pos(id) == old(self).produced().len()
                && !old(self).finished()),
            (r is EndOfSequence) <==> (old(self).pos(id) == old(self).produced().len()
                && old(self).finished()),
            r matches ReadOutcome::Value(v) ==> v == old(self).produced()[old(self).pos(id) as int]
                && final(self).cursors() == old(self).cursors().insert(
                id,
                (old(self).pos(id) + 1) as usize,
            ),
            !(r is Value) ==> *final(self) == *old(self),
        {
        let ghost pre = *self;
        let p = slab_get(&self.slots, id);
        if p < self.base {
            ReadOutcome::StaleRead
        } else {
            let produced_len = self.base + self.buf.len();
            if p < produced_len {
                let idx = p - self.base;
                let v = self.buf[idx];
                slab_set(&mut self.slots, id, p + 1);
                let ghost mid = *self;
                proof {
                    assert forall|k: usize| #[trigger] self.live(k) implies self.pos(k)
                        <= self.produced().len() by {
                        if k != id {
                            assert(pre.live(k));
                        }
                    }
                }
                self.evict();
                proof {
                    assert(self.cursors().dom() =~= pre.cursors().dom());
                    assert(v == pre.produced()[pre.pos(id) as int]);
                    assert forall|k: usize|
                        pre.live(k) && pre.retained_from() <= pre.pos(k)
                            implies self.retained_from() <= self.pos(k) by {
                        assert(mid.live(k) && mid.retained_from() <= mid.pos(k));
                    }
                }
                ReadOutcome::Value(v)
            } else if self.done {
                ReadOutcome::EndOfSequence
            } else {
                ReadOutcome::NeedPull
            }
        }
    }

    /// Record the outcome of one pull of the source, made on behalf of cursor
    /// `id`, which stood at the first not-yet-produced position.  A value is
    /// appended to the history (the cursor consumes it at once); end of
    /// sequence is recorded permanently.  Either way exactly one pull is
    /// accounted.
    pub fn deliver(&mut self, id: usize, item: Option<T>) -> (r: Option<T>)
        requires
            old(self).wf(),
            old(self).live(id),
            old(self).pos(id) == old(self).produced().len(),
            !old(self).finished(),
            item is Some ==> old(self).produced().len() < usize::MAX,
        ensures
            final(self).wf(),
            r == item,
            final(self).cursors().dom() == old(self).cursors().dom(),
            final(self).pull_count() == old(self).pull_count() + 1,
            final(self).retained_from() >= old(self).retained_from(),
            forall|k: usize|
                old(self).live(k) && k != id ==> final(self).pos(k) == old(self).pos(k),
            forall|k: usize|
                #[trigger] old(self).live(k) && old(self).retained_from() <= old(self).pos(k)
                    ==> final(self).retained_from() <= final(self).pos(k),
            item matches Some(v) ==> final(self).produced() == old(self).produced().push(v)
                && final(self).pos(id) == old(self).pos(id) + 1
                && !final(self).finished(),
            item is None ==> final(self).produced() == old(self).produced()
                && final(self).finished()
                && final(self).cursors() == old(self).cursors(),
    {
        let ghost pre = *self;
        match item {
            Some(v) => {
                let p = slab_get(&self.slots, id);
                self.buf.push(v);
                self.hist = Ghost(self.hist@.push(v));
                self.pulls = Ghost(self.pulls@ + 1);
                slab_set(&mut self.slots, id, p + 1);
                let ghost mid = *self;
                proof {
                    assert(self.retained() =~= self.produced().skip(
                        self.retained_from() as int,
                    ));
                    assert forall|k: usize| #[trigger] self.live(k) implies self.pos(k)
                        <= self.produced().len() by {
                        if k != id {
                            assert(pre.live(k));
                        }
                    }
                }
                self.evict();
                proof {
                    assert(self.cursors().dom() =~= pre.cursors().dom());
                    assert forall|k: usize|
                        pre.live(k) && pre.retained_from() <= pre.pos(k)
                            implies self.retained_from() <= self.pos(k) by {
                        assert(mid.live(k) && mid.retained_from() <= mid.pos(k));
                    }
                }
                Some(v)
            },
            None => {
                self.done = true;
                self.pulls = Ghost(self.pulls@ + 1);
                proof {
                    assert forall|k: usize| #[trigger] self.live(k) implies self.pos(k)
                        <= self.produced().len() by {
                        assert(pre.live(k));
                    }
                    if self.has_live() {
                        let kw = choose|k: usize| self.live(k);
                        assert(pre.live(kw));
                        let k0 = choose|k: usize| pre.live(k) && pre.pos(k) <= pre.retained_from();
                        assert(self.live(k0) && self.pos(k0) <= self.retained_from());
                    }
                }
                None
            },
        }
    }

    /// Whether `id` is a live cursor.
    pub fn is_live(&self, id: usize) -> (b: bool)
        ensures
            b == self.live(id),
    {
        slab_contains(&self.slots, id)
    }

    /// The next position cursor `id` will read.
    pub fn position(&self, id: usize) -> (p: usize)
        requires
            self.live(id),
        ensures
            p == self.pos(id),
    {
        slab_get(&self.slots, id)
    }

    /// The number of live cursors.
    pub fn live_count(&self) -> (n: usize)
        ensures
            n == self.num_live(),
    {
        slab_len(&self.slots)
    }

    /// How many values the ledger currently retains.
    pub fn retained_count(&self) -> (n: usize)
        ensures
            n == self.retained().len(),
    {
        self.buf.len()
    }

    /// How many positions have been produced so far.
    pub fn produced_count(&self) -> (n: usize)
        requires
            self.wf(),
        ensures
            n == self.produced().len(),
    {
        self.base + self.buf.len()
    }

    /// Whether the source has signalled end of sequence.
    pub fn is_finished(&self) -> (b: bool)
        ensures
            b == self.finished(),
    {
        self.done
    }
}

/// Single production: every pull of the source either produced a position or
/// was the single terminal pull that found the sequence ended — however many
/// cursors exist and however their reads interleave.
pub proof fn lemma_single_production<T: Copy>(c: SharedCore<T>)
    requires
        c.wf(),
    ensures
        !c.finished() ==> c.pull_count() == c.produced().len(),
        c.finished() ==> c.pull_count() == c.produced().len() + 1,
{
}

/// Release safety: dropping one cursor — at whatever position it stood —
/// leaves every remaining cursor live, at its position, with its past reads
/// exactly what they were; `release` ensures the two premises relating the
/// states before and after.
pub proof fn lemma_release_keeps_reads<T: Copy>(
    before: SharedCore<T>,
    after: SharedCore<T>,
    id: usize,
    k: usize,
)
    requires
        before.live(k),
        k != id,
        after.cursors() == before.cursors().remove(id),
        after.produced() == before.produced(),
    ensures
        after.live(k),
        after.pos(k) == before.pos(k),
        after.reads(k) == before.reads(k),
{
}

/// Bounded memory: when every live cursor is within `window` positions of the
/// newest produced one, the ledger retains at most `window` values, however
/// long the sequence has run.
pub proof fn lemma_bounded_memory<T: Copy>(c: SharedCore<T>, window: usize)
    requires
        c.wf(),
        c.has_live(),
        forall|k: usize| #[trigger] c.live(k) ==> c.pos(k) + window >= c.produced().len(),
    ensures
        c.retained().len() <= window,
{
    let k0 = choose|k: usize| c.live(k) && c.pos(k) <= c.retained_from();
    assert(c.pos(k0) + window >= c.produced().len());
}

} // verus!
