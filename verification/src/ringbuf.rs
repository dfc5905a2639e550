//! A ring buffer of fixed capacity for one consumer.

use vstd::prelude::*;

verus! {

/// The number of slots of a ring buffer. One slot always stays free.
pub const RINGBUF_LENGTH: usize = 10_000;

/// The slot after `i`.
pub open spec fn ring_succ(i: int) -> int {
    if i + 1 == RINGBUF_LENGTH {
        0
    } else {
        i + 1
    }
}

/// How many slots lie from `from` up to, and not including, `to`.
pub open spec fn ring_len(from: int, to: int) -> int {
    if to >= from {
        to - from
    } else {
        to + RINGBUF_LENGTH - from
    }
}

/// The slot `j` places after `from`.
pub open spec fn ring_at(from: int, j: int) -> int {
    if from + j < RINGBUF_LENGTH {
        from + j
    } else {
        from + j - RINGBUF_LENGTH
    }
}

/// A first-in-first-out buffer in a ring of slots. It is empty where the
/// read index is the write index, and full where the slot after the write
/// index is the read index.
pub struct RingBuffer<T> {
    buffer: Vec<Option<T>>,
    readidx: usize,
    writeidx: usize,
}

impl<T> RingBuffer<T> {
    /// The index of the slot that is read next.
    pub closed spec fn read_index(&self) -> int {
        self.readidx as int
    }

    /// The index of the slot that is written next.
    pub closed spec fn write_index(&self) -> int {
        self.writeidx as int
    }

    /// What the slots hold.
    pub closed spec fn slots(&self) -> Seq<Option<T>> {
        self.buffer@
    }

    /// The items in the buffer, oldest first.
    pub open spec fn view(&self) -> Seq<T> {
        Seq::new(
            ring_len(self.read_index(), self.write_index()) as nat,
            |j: int| self.slots()[ring_at(self.read_index(), j)].unwrap(),
        )
    }

    /// The invariant of a ring buffer: both indexes are inside the ring,
    /// and every slot from the read index up to the write index holds an
    /// item.
    pub open spec fn wf(&self) -> bool {
        &&& self.slots().len() == RINGBUF_LENGTH
        &&& 0 <= self.read_index() < RINGBUF_LENGTH
        &&& 0 <= self.write_index() < RINGBUF_LENGTH
        &&& forall|j: int|
            0 <= j < ring_len(self.read_index(), self.write_index()) ==> (#[trigger] self.slots()[ring_at(
                self.read_index(),
                j,
            )]) is Some
    }

    pub open spec fn is_empty(&self) -> bool {
        self.read_index() == self.write_index()
    }

    pub open spec fn is_full(&self) -> bool {
        ring_succ(self.write_index()) == self.read_index()
    }

    pub fn new() -> (r: RingBuffer<T>)
        ensures
            r.wf(),
            r@ == Seq::<T>::empty(),
            r.is_empty(),
    {
        let mut buffer: Vec<Option<T>> = Vec::new();
        let mut i: usize = 0;
        while i < RINGBUF_LENGTH
            invariant
                i <= RINGBUF_LENGTH,
                buffer@.len() == i,
            decreases RINGBUF_LENGTH - i,
        {
            buffer.push(None);
            i += 1;
        }
        let r = RingBuffer { buffer, readidx: 0, writeidx: 0 };
        assert(r@ =~= Seq::<T>::empty());
        r
    }

    /// The number of items in the buffer.
    pub fn len(&self) -> (r: usize)
        requires
            self.wf(),
        ensures
            r == self@.len(),
            r == 0 <==> self.is_empty(),
            r == RINGBUF_LENGTH - 1 <==> self.is_full(),
    {
        if self.writeidx >= self.readidx {
            self.writeidx - self.readidx
        } else {
            self.writeidx + RINGBUF_LENGTH - self.readidx
        }
    }

    /// Takes the oldest item out, if there is one.
    pub fn get(&mut self) -> (r: Option<&T>)
        requires
            old(self).wf(),
        ensures
            final(self).wf(),
            final(self).write_index() == old(self).write_index(),
            final(self).slots() == old(self).slots(),
            match r {
                Some(item) => {
                    &&& !old(self).is_empty()
                    &&& *item == old(self)@[0]
                    &&& final(self).read_index() == ring_succ(old(self).read_index())
                    &&& final(self)@ == old(self)@.subrange(1, old(self)@.len() as int)
                },
                None => old(self).is_empty() && final(self).read_index() == old(self).read_index(),
            },
    {
        let wix: usize = self.writeidx;
        let rix: usize = self.readidx;
        if rix == wix {
            return None;
        }
        let new_rix: usize = (rix + 1) % RINGBUF_LENGTH;
        self.readidx = new_rix;
        proof {
            assert(self.slots()[ring_at(rix as int, 0)] is Some);
            assert forall|j: int| 0 <= j < ring_len(new_rix as int, wix as int) implies (#[trigger] self.slots()[ring_at(
                new_rix as int,
                j,
            )]) is Some by {
                assert(ring_at(new_rix as int, j) == ring_at(rix as int, j + 1));
            }
            assert(self@ =~= old(self)@.subrange(1, old(self)@.len() as int)) by {
                assert forall|j: int| 0 <= j < self@.len() implies self@[j] == old(self)@[j + 1] by {
                    assert(ring_at(new_rix as int, j) == ring_at(rix as int, j + 1));
                }
            }
        }
        match &self.buffer[rix] {
            Some(item) => Some(item),
            None => None,
        }
    }

    /// Puts `val` in as the newest item. The buffer must not be full: a
    /// full buffer would be waited on for ever, since nobody else can take
    /// an item out meanwhile.
    pub fn put(&mut self, val: T)
        requires
            old(self).wf(),
            !old(self).is_full(),
        ensures
            final(self).wf(),
            final(self).read_index() == old(self).read_index(),
            final(self).write_index() == ring_succ(old(self).write_index()),
            final(self)@ == old(self)@.push(val),
    {
        let wix: usize = self.writeidx;
        let new_wix: usize = (wix + 1) % RINGBUF_LENGTH;
        self.writeidx = new_wix;
        self.buffer[wix] = Some(val);
        proof {
            let rix = self.readidx as int;
            assert forall|j: int| 0 <= j < ring_len(rix, new_wix as int) implies (#[trigger] self.slots()[ring_at(
                rix,
                j,
            )]) is Some by {
                if ring_at(rix, j) != wix {
                    assert(old(self).slots()[ring_at(rix, j)] is Some);
                }
            }
            assert(self@ =~= old(self)@.push(val));
        }
    }
}

} // verus!
