//! A fixed-capacity ring queue for one producer and one consumer.
//!
//! The queue is a bounded circular buffer over `capacity_slots` storage
//! slots, driven by two cursors: `read_index`, advanced only by reads, and
//! `write_index`, advanced only by writes.  One slot is always left empty
//! (the sentinel), so the cursors alone distinguish a full queue from an
//! empty one: the queue is empty exactly when the cursors are equal, and
//! full exactly when the write cursor is one step (circularly) behind the
//! read cursor.  All operations are non-blocking: a write to a full queue
//! is rejected with `false`, a read from an empty queue returns `None`,
//! and retry policy belongs to the caller.

use vstd::prelude::*;
use vstd::pervasive::VecAdditionalExecFns;

verus! {

/// A bounded ring queue over `capacity_slots` slots, of which
/// `capacity_slots - 1` can hold live elements at once.
///
/// Slots in the circular half-open range `[read_index, write_index)` hold
/// live elements; every other slot is vacant.  The abstract view of the
/// queue (`self@`) is the sequence of live elements, oldest first.
pub struct Spsc<T> {
    storage: Vec<Option<T>>,
    size: usize,
    read_index: usize,
    write_index: usize,
}

impl<T> Spsc<T> {
    /// Total number of storage slots, including the sentinel slot.
    pub closed spec fn slots(self) -> int {
        self.size as int
    }

    /// Greatest number of elements the queue can hold at once:
    /// one slot is kept vacant to tell a full queue from an empty one.
    pub open spec fn cap(self) -> int {
        self.slots() - 1
    }

    /// Whether storage slot `j` lies in the circular half-open range
    /// `[read_index, write_index)`, i.e. holds a live element.
    spec fn is_live(self, j: int) -> bool {
        if self.write_index >= self.read_index {
            self.read_index <= j < self.write_index
        } else {
            j < self.write_index || self.read_index <= j < self.size
        }
    }

    /// The storage index of the `k`-th oldest live element.
    spec fn slot_of(self, k: int) -> int {
        if self.read_index + k < self.size {
            self.read_index + k
        } else {
            self.read_index + k - self.size
        }
    }

    /// Number of live elements: the circular distance from the read
    /// cursor to the write cursor.
    spec fn live_len(self) -> int {
        if self.write_index >= self.read_index {
            self.write_index - self.read_index
        } else {
            self.size - self.read_index + self.write_index
        }
    }

    /// Well-formedness: both cursors point into storage, storage spans
    /// exactly `capacity_slots >= 2` slots, and a slot holds an element
    /// exactly when it is live.  Constructors establish this and every
    /// operation preserves it.
    pub closed spec fn wf(self) -> bool {
        &&& self.size >= 2
        &&& self.storage@.len() == self.size
        &&& self.read_index < self.size
        &&& self.write_index < self.size
        &&& forall|j: int|
            0 <= j < self.storage@.len() ==> ((#[trigger] self.storage@[j]) is Some <==> self.is_live(j))
    }

    /// Creates an empty queue over `size` slots (usable capacity
    /// `size - 1`).  Fewer than two slots cannot tell full from empty,
    /// so such a queue cannot be built.
    pub fn new(size: usize) -> (q: Self)
        requires
            size >= 2,
        ensures
            q.wf(),
            q@ =~= Seq::<T>::empty(),
            q.slots() == size,
    {
        let mut storage: Vec<Option<T>> = Vec::new();
        let mut i: usize = 0;
        while i < size
            invariant
                i <= size,
                storage@.len() == i,
                forall|j: int| 0 <= j < i ==> (#[trigger] storage@[j]) is None,
            decreases size - i,
        {
            storage.push(None);
            i += 1;
        }
        Spsc { storage, size, read_index: 0, write_index: 0 }
    }

    /// Enqueues `record` at the back of the queue, unless the queue is
    /// full.  Returns whether the value was stored: `true` exactly when
    /// the queue had room (fewer than `cap()` live elements), in which
    /// case the view grows by `record` at the back; a full queue is left
    /// untouched and the value is dropped with the return of `false`.
    pub fn write(&mut self, record: T) -> (ok: bool)
        requires
            old(self).wf(),
        ensures
            final(self).wf(),
            final(self).slots() == old(self).slots(),
            ok == (old(self)@.len() < old(self).cap()),
            ok ==> final(self)@ =~= old(self)@.push(record),
            !ok ==> *final(self) == *old(self),
    {
        let current_write = self.write_index;
        let next_record = (current_write + 1) % self.size;
        proof {
            lemma_wrap_step(current_write as int, self.size as int);
        }
        if next_record != self.read_index {
            self.storage.set(current_write, Some(record));
            self.write_index = next_record;
            proof {
                let prev = *old(self);
                assert(self.live_len() == prev.live_len() + 1);
                assert(prev.slot_of(prev.live_len()) == current_write);
                assert forall|j: int| 0 <= j < self.size implies self.is_live(j) == (
                prev.is_live(j) || j == current_write) by {}
                assert forall|k: int| 0 <= k <= prev.live_len() implies self.slot_of(k)
                    == prev.slot_of(k) by {}
                assert forall|k: int| 0 <= k < prev.live_len() implies prev.slot_of(k)
                    != current_write && prev.is_live(prev.slot_of(k)) by {}
                assert(self@ =~= prev@.push(record));
            }
            true
        } else {
            proof {
                assert(old(self).live_len() == old(self).cap());
            }
            false
        }
    }

    /// Enqueues the given values in order, one `write` at a time, until
    /// the queue fills: the first `writes_accepted(..)` of them are
    /// appended to the view and the rest are dropped silently.  The batch
    /// is not atomic; it is equivalent to a loop of `write` calls.
    pub fn write_all(&mut self, records: Vec<T>)
        requires
            old(self).wf(),
        ensures
            final(self).wf(),
            final(self).slots() == old(self).slots(),
            final(self)@ =~= old(self)@ + records@.take(
                writes_accepted(old(self)@.len() as int, old(self).cap(), records@.len() as int),
            ),
    {
        let ghost accepted = writes_accepted(
            old(self)@.len() as int,
            old(self).cap(),
            records@.len() as int,
        );
        let mut records = records;
        let ghost all = records@;
        let n: usize = records.len();
        proof {
            assert(all.len() == n);
        }
        let mut i: usize = 0;
        while records.len() > 0
            invariant
                self.wf(),
                self.slots() == old(self).slots(),
                accepted == writes_accepted(old(self)@.len() as int, old(self).cap(), all.len() as int),
                all.len() <= usize::MAX,
                i + records@.len() == all.len(),
                records@ =~= all.skip(i as int),
                self@ =~= old(self)@ + all.take(if i <= accepted {
                    i as int
                } else {
                    accepted
                }),
            decreases records@.len(),
        {
            let value = records.remove(0);
            proof {
                assert(value == all[i as int]);
            }
            let ghost before = self@;
            self.write(value);
            proof {
                if i < accepted {
                    assert(before.len() < self.cap());
                    assert(all.take(i + 1) =~= all.take(i as int).push(all[i as int]));
                } else {
                    assert(before.len() == self.cap());
                }
            }
            i += 1;
        }
        proof {
            assert(all.take(if i <= accepted {
                i as int
            } else {
                accepted
            }) =~= all.take(accepted));
        }
    }

    /// Dequeues the oldest element.  Returns `Some` of the front of the
    /// view exactly when the queue is non-empty, removing it; an empty
    /// queue is left untouched and yields `None`.
    pub fn read(&mut self) -> (r: Option<T>)
        requires
            old(self).wf(),
        ensures
            final(self).wf(),
            final(self).slots() == old(self).slots(),
            old(self)@.len() == 0 ==> r is None && *final(self) == *old(self),
            old(self)@.len() > 0 ==> r == Some(old(self)@[0]) && final(self)@ =~= old(
                self,
            )@.subrange(1, old(self)@.len() as int),
    {
        let current_read = self.read_index;
        if current_read == self.write_index {
            None
        } else {
            let next_record = (current_read + 1) % self.size;
            proof {
                lemma_wrap_step(current_read as int, self.size as int);
            }
            let record = self.storage[current_read].take();
            self.read_index = next_record;
            proof {
                self.lemma_advance_read(*old(self), current_read as int);
            }
            record
        }
    }

    /// Drains the queue by reading until it is empty, returning the
    /// obtained elements in the order they were written.  The batch is
    /// not atomic; it is equivalent to a loop of `read` calls.
    pub fn read_all(&mut self) -> (records: Vec<T>)
        requires
            old(self).wf(),
        ensures
            final(self).wf(),
            final(self).slots() == old(self).slots(),
            records@ =~= old(self)@,
            final(self)@.len() == 0,
    {
        let mut frames: Vec<T> = Vec::with_capacity(32);
        loop
            invariant
                self.wf(),
                self.slots() == old(self).slots(),
                frames@ + self@ =~= old(self)@,
            decreases self@.len(),
        {
            let ghost before = self@;
            match self.read() {
                Some(frame) => {
                    proof {
                        assert(frames@.push(frame) + before.subrange(1, before.len() as int)
                            =~= frames@ + before);
                    }
                    frames.push(frame);
                },
                None => {
                    proof {
                        assert(frames@ + self@ =~= frames@);
                    }
                    return frames;
                },
            }
        }
    }

    /// Discards the oldest element without returning it: the companion
    /// of `front_ptr` for inspect-then-drop.  The queue must not be
    /// empty; callers confirm that first (for instance through
    /// `front_ptr` or `is_empty`).
    pub fn pop_front(&mut self)
        requires
            old(self).wf(),
            old(self)@.len() > 0,
        ensures
            final(self).wf(),
            final(self).slots() == old(self).slots(),
            final(self)@ =~= old(self)@.subrange(1, old(self)@.len() as int),
    {
        let current_read = self.read_index;
        let next_record = (current_read + 1) % self.size;
        proof {
            lemma_wrap_step(current_read as int, self.size as int);
        }
        self.storage.set(current_read, None);
        self.read_index = next_record;
        proof {
            self.lemma_advance_read(*old(self), current_read as int);
        }
    }

    /// After the read cursor of a well-formed, non-empty queue `prev` is
    /// stepped past slot `r` (which was emptied), the queue is again
    /// well-formed and its view is `prev`'s with the front removed.
    proof fn lemma_advance_read(self, prev: Self, r: int)
        requires
            prev.wf(),
            prev.live_len() > 0,
            r == prev.read_index,
            self.size == prev.size,
            self.write_index == prev.write_index,
            self.read_index == if r + 1 == prev.size {
                0int
            } else {
                r + 1
            },
            self.storage@ =~= prev.storage@.update(r, None::<T>),
        ensures
            self.wf(),
            self@ =~= prev@.subrange(1, prev@.len() as int),
    {
        assert(self.live_len() == prev.live_len() - 1);
        assert forall|j: int| 0 <= j < self.size implies self.is_live(j) == (prev.is_live(j) && j
            != r) by {}
        assert forall|k: int| 0 <= k < self.live_len() implies self.slot_of(k) == prev.slot_of(
            k + 1,
        ) && self.slot_of(k) != r by {}
        assert forall|k: int| 0 <= k < prev.live_len() implies prev.is_live(
            #[trigger] prev.slot_of(k),
        ) by {}
        assert(self@ =~= prev@.subrange(1, prev@.len() as int));
    }

    /// Loans out the oldest element without removing it.  Returns a
    /// mutable reference to the front of the view exactly when the queue
    /// is non-empty: the caller may inspect or overwrite the element in
    /// place, and the queue afterwards holds whatever the caller left
    /// there, still at the front.  An empty queue is left untouched and
    /// yields `None`.
    pub fn front_ptr(&mut self) -> (r: Option<&mut T>)
        requires
            old(self).wf(),
        ensures
            old(self)@.len() == 0 ==> r is None && *final(self) == *old(self),
            old(self)@.len() > 0 ==> match r {
                Some(p) => {
                    &&& *p == old(self)@[0]
                    &&& final(self).wf()
                    &&& final(self).slots() == old(self).slots()
                    &&& final(self)@ =~= old(self)@.update(0, *final(p))
                },
                None => false,
            },
    {
        let current_read = self.read_index;
        if current_read == self.write_index {
            None
        } else {
            proof {
                let prev = *old(self);
                let r_i = current_read as int;
                assert(prev.slot_of(0) == r_i);
                assert(prev.is_live(r_i));
                assert forall|k: int| 0 <= k < prev.live_len() && k != 0 implies prev.slot_of(k)
                    != r_i && prev.is_live(#[trigger] prev.slot_of(k)) by {}
            }
            let slot = &mut self.storage[current_read];
            match slot {
                Some(p) => Some(p),
                None => {
                    proof {
                        assert(false);
                    }
                    None
                },
            }
        }
    }

    /// Whether the queue holds no element: the two cursors coincide.
    pub fn is_empty(&self) -> (r: bool)
        requires
            self.wf(),
        ensures
            r == (self@.len() == 0),
    {
        self.read_index == self.write_index
    }

    /// Whether the queue holds `cap()` elements, so that the next write
    /// would be rejected: the write cursor is one circular step behind
    /// the read cursor.
    pub fn is_full(&self) -> (r: bool)
        requires
            self.wf(),
        ensures
            r == (self@.len() == self.cap()),
    {
        let next_record = (self.write_index + 1) % self.size;
        proof {
            lemma_wrap_step(self.write_index as int, self.size as int);
        }
        next_record == self.read_index
    }

    /// Number of elements held: the circular distance from the read
    /// cursor to the write cursor.  (In concurrent use this is only a
    /// momentary snapshot; here it is exact.)
    pub fn size_guess(&self) -> (r: usize)
        requires
            self.wf(),
        ensures
            r == self@.len(),
    {
        let read_index = self.read_index;
        let write_index = self.write_index;
        if write_index >= read_index {
            write_index - read_index
        } else {
            self.size - read_index + write_index
        }
    }

    /// Greatest number of elements the queue can hold at once.
    pub fn capacity(&self) -> (r: usize)
        requires
            self.wf(),
        ensures
            r == self.cap(),
    {
        self.size - 1
    }
}

/// Capacity law: a well-formed queue never holds more than `cap()`
/// elements, so by the contract of `write`, each of the first
/// `capacity_slots - 1` consecutive writes into a fresh queue succeeds
/// (the view is still below the bound) and the next one, with no
/// interleaved read, is rejected (the view has reached it).
pub proof fn lemma_capacity_bound<T>(q: Spsc<T>)
    requires
        q.wf(),
    ensures
        q@.len() <= q.cap(),
{
}

/// Empty/full mutual exclusivity: a well-formed queue (which always has
/// at least two slots, hence `cap() >= 1`) is never empty and full at
/// once, so `is_empty` and `is_full` never both return true.
pub proof fn lemma_empty_full_exclusive<T>(q: Spsc<T>)
    requires
        q.wf(),
    ensures
        !(q@.len() == 0 && q@.len() == q.cap()),
{
}

/// Round trip: writing `v` into an empty queue succeeds, and a read with
/// no other read intervening returns exactly `v` and leaves the queue
/// empty again — stated over the views that the contracts of `write`
/// (which appends `v`) and `read` (which removes and returns the front)
/// speak of.
pub proof fn lemma_round_trip<T>(q: Spsc<T>, v: T)
    requires
        q.wf(),
        q@.len() == 0,
    ensures
        q@.len() < q.cap(),
        q@.push(v)[0] == v,
        q@.push(v).subrange(1, q@.push(v).len() as int) =~= q@,
{
}

/// Drain completeness and FIFO order: writing `vs.len() <= cap()` values
/// into an empty queue accepts all of them, so the view that `write_all`
/// leaves — and that `read_all` then returns before leaving the queue
/// empty — is exactly `vs`, in write order.
pub proof fn lemma_drain_complete<T>(q: Spsc<T>, vs: Seq<T>)
    requires
        q.wf(),
        q@.len() == 0,
        vs.len() <= q.cap(),
    ensures
        q@ + vs.take(writes_accepted(q@.len() as int, q.cap(), vs.len() as int)) =~= vs,
{
}

/// Peek/pop consistency: the element `front_ptr` exposes is `q@[0]`, the
/// same element a `read` would have returned; putting it back unchanged
/// leaves the queue exactly as it was, and a `pop_front` then discards
/// that very element, reaching the same state a `read` would have left.
pub proof fn lemma_peek_pop_consistent<T>(q: Spsc<T>)
    requires
        q.wf(),
        q@.len() > 0,
    ensures
        q@.update(0, q@[0]) =~= q@,
        q@.update(0, q@[0])[0] == q@[0],
        q@.update(0, q@[0]).subrange(1, q@.len() as int) =~= q@.subrange(1, q@.len() as int),
{
}

/// How many of `n` values written in one batch a queue with `len` live
/// elements and usable capacity `cap` accepts: all of them if they fit,
/// otherwise only as many as fill the queue.
pub open spec fn writes_accepted(len: int, cap: int, n: int) -> int {
    if n <= cap - len {
        n
    } else {
        cap - len
    }
}

/// One circular step: for a cursor `x` inside `[0, size)`, advancing by
/// one modulo `size` lands on `x + 1`, or wraps to `0` from the last slot.
proof fn lemma_wrap_step(x: int, size: int)
    requires
        0 < size,
        0 <= x < size,
    ensures
        (x + 1) % size == if x + 1 == size { 0int } else { x + 1 },
{
    if x + 1 == size {
        vstd::arithmetic::div_mod::lemma_mod_self_0(size);
    } else {
        vstd::arithmetic::div_mod::lemma_small_mod((x + 1) as nat, size as nat);
    }
}

impl<T> View for Spsc<T> {
    type V = Seq<T>;

    /// The live elements, oldest first.
    closed spec fn view(&self) -> Seq<T> {
        Seq::new(self.live_len() as nat, |k: int| self.storage@[self.slot_of(k)]->Some_0)
    }
}

} // verus!
