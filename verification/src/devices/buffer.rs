//! Aligned packet buffers with a read offset.

use vstd::prelude::*;

verus! {

/// Why a buffer could not be made.
#[derive(Debug, Copy, Clone, PartialEq, Eq, Structural)]
pub enum Error {
    /// The alignment is not a power of two, or the padded size is beyond
    /// what one allocation can hold.
    LayoutError,
}

/// `align` is a power of two.
pub open spec fn is_power_of_two(align: usize) -> bool {
    align > 0 && align & ((align - 1) as usize) == 0
}

/// `size` rounded up to the next multiple of `align`.
pub open spec fn round_up(size: int, align: int) -> int {
    if size % align == 0 {
        size
    } else {
        size - size % align + align
    }
}

/// The sizes and alignments for which `Buffer::new` makes a buffer: the
/// padded size and one alignment of slack fit in an allocation.
pub open spec fn layout_ok(size: usize, align: usize) -> bool {
    is_power_of_two(align) && round_up(size as int, align as int) + align <= isize::MAX
}

/// A byte region of fixed length whose first byte lies at a multiple of its
/// alignment, with a read offset that only moves forward.
pub struct Buffer {
    data: Vec<u8>,
    start: usize,
    capacity: usize,
    size: usize,
    position: usize,
    address: u64,
    align: usize,
}

/// The address at which the storage of `data` begins. Calls `Vec::as_ptr`.
/// An address differs from run to run; what holds of every one is that the
/// pointer of a vector is never null, and that the storage of a vector
/// that holds bytes is one allocation, which does not wrap round the
/// address space.
#[verifier::external_body]
fn storage_address(data: &Vec<u8>) -> (r: u64)
    ensures
        data@.len() > 0 ==> r != 0 && r + data@.len() <= usize::MAX,
{
    data.as_ptr() as u64
}

proof fn lemma_align_up(base: u64, a: u64, r: u64, s: u64, sum: u64)
    by (bit_vector)
    requires
        a > 0,
        a & ((a - 1) as u64) == 0,
        r == base & ((a - 1) as u64),
        r < a ==> s == ((a - r) as u64) & ((a - 1) as u64),
        sum == (if base + s > 0xffff_ffff_ffff_ffffu64 {
            (base + s - 0x1_0000_0000_0000_0000) as u64
        } else {
            (base + s) as u64
        }),
    ensures
        r < a,
        s < a,
        sum & ((a - 1) as u64) == 0,
{
}

proof fn lemma_align_low(base: u64, a: u64)
    by (bit_vector)
    requires
        a > 0,
    ensures
        base & ((a - 1) as u64) < a,
{
}

impl Buffer {
    /// The length of the region, a multiple of the alignment.
    pub closed spec fn capacity(&self) -> nat {
        self.capacity as nat
    }

    /// The size that was asked for.
    pub closed spec fn size(&self) -> nat {
        self.size as nat
    }

    /// The read offset.
    pub closed spec fn position(&self) -> nat {
        self.position as nat
    }

    /// The alignment that was asked for.
    pub closed spec fn alignment(&self) -> nat {
        self.align as nat
    }

    /// The address of the first byte of the region.
    pub closed spec fn address(&self) -> u64 {
        self.address
    }

    /// All bytes of the region, whatever the read offset.
    pub closed spec fn region(&self) -> Seq<u8> {
        self.data@.subrange(self.start as int, self.start + self.capacity)
    }

    /// The bytes from the read offset to the end of the region.
    pub open spec fn view(&self) -> Seq<u8> {
        self.region().subrange(self.position() as int, self.capacity() as int)
    }

    /// The bytes from the read offset to the end of the size asked for:
    /// what a device is given to send.
    pub open spec fn payload(&self) -> Seq<u8> {
        self.region().subrange(self.position() as int, self.size() as int)
    }

    /// The invariant of every buffer: the region lies inside its storage and
    /// starts at a multiple of the alignment, and neither the size asked for
    /// nor the read offset passes its end.
    pub closed spec fn wf(&self) -> bool {
        &&& is_power_of_two(self.align)
        &&& self.start + self.capacity <= self.data@.len()
        &&& self.capacity == round_up(self.size as int, self.align as int)
        &&& self.position <= self.capacity
        &&& self.data@.len() <= usize::MAX
        &&& self.address & ((self.align - 1) as u64) == 0
        &&& self.address != 0
        &&& self.address + self.capacity <= usize::MAX
    }

    pub proof fn lemma_wf(&self)
        requires
            self.wf(),
        ensures
            self.region().len() == self.capacity(),
            self@.len() == self.capacity() - self.position(),
            self.position() <= self.capacity(),
            self.size() <= self.capacity(),
            self.capacity() == round_up(self.size() as int, self.alignment() as int),
            self.alignment() > 0,
            self.address() & ((self.alignment() - 1) as u64) == 0,
            self.address() != 0,
            self.address() + self.capacity() <= usize::MAX,
    {
    }

    /// Makes a zero-filled buffer of `size` bytes, padded to a multiple of
    /// `align`, with the read offset at its first byte. Its address is not
    /// null and a multiple of `align`, and it stays what it is for as long
    /// as the buffer lives.
    pub fn new(size: usize, align: usize) -> (r: Result<Buffer, Error>)
        ensures
            r.is_ok() <==> layout_ok(size, align),
            r matches Ok(b) ==> {
                &&& b.wf()
                &&& b.size() == size
                &&& b.alignment() == align
                &&& b.position() == 0
                &&& b.capacity() == round_up(size as int, align as int)
                &&& b.region() == Seq::new(b.capacity(), |i: int| 0u8)
                &&& b.address() != 0
                &&& b.address() & ((align - 1) as u64) == 0
                &&& b.address() + b.capacity() <= usize::MAX
            },
    {
        if align == 0 || align & (align - 1) != 0 {
            return Err(Error::LayoutError);
        }
        let limit: usize = (usize::MAX >> 1) as usize;
        assert(limit == isize::MAX) by {
            assert((0xffff_ffffusize >> 1) == 0x7fff_ffffusize) by (bit_vector);
            assert((0xffff_ffff_ffff_ffffu64 >> 1) == 0x7fff_ffff_ffff_ffffu64) by (bit_vector);
        }
        if align > limit {
            return Err(Error::LayoutError);
        }
        let rem: usize = size % align;
        let pad: usize = if rem == 0 {
            0
        } else {
            align - rem
        };
        if size > limit - align || pad > limit - align - size {
            return Err(Error::LayoutError);
        }
        let capacity: usize = size + pad;
        let data: Vec<u8> = vec![0u8; capacity + align];
        let a: u64 = align as u64;
        let base: u64 = storage_address(&data);
        let r: u64 = base & (a - 1);
        proof {
            assert(a & ((a - 1) as u64) == 0) by (bit_vector)
                requires
                    a == align as u64,
                    align > 0,
                    align & ((align - 1) as usize) == 0,
            ;
            lemma_align_low(base, a);
        }
        let s: u64 = (a - r) & (a - 1);
        proof {
            lemma_align_low((a - r) as u64, a);
        }
        let address: u64 = base + s;
        proof {
            lemma_align_up(base, a, r, s, address);
        }
        let b = Buffer { data, start: s as usize, capacity, size, position: 0, address, align };
        assert(b.region() =~= Seq::new(b.capacity(), |i: int| 0u8));
        Ok(b)
    }

    /// Moves the read offset forward by `delta` bytes.
    pub fn slide_position(&mut self, delta: usize)
        requires
            old(self).wf(),
            old(self).position() + delta <= old(self).capacity(),
        ensures
            final(self).wf(),
            final(self).position() == old(self).position() + delta,
            final(self).region() == old(self).region(),
            final(self).size() == old(self).size(),
            final(self).capacity() == old(self).capacity(),
            final(self).alignment() == old(self).alignment(),
            final(self).address() == old(self).address(),
            final(self)@ == old(self)@.subrange(delta as int, old(self)@.len() as int),
    {
        self.position = self.position + delta;
        assert(self@ =~= old(self)@.subrange(delta as int, old(self)@.len() as int));
    }

    /// The address of the first byte of the region.
    pub fn get_address(&self) -> (r: u64)
        ensures
            r == self.address(),
    {
        self.address
    }

    /// The size that was asked for.
    pub fn get_size(&self) -> (r: usize)
        ensures
            r == self.size(),
    {
        self.size
    }

    /// The read offset.
    pub fn get_position(&self) -> (r: usize)
        ensures
            r == self.position(),
    {
        self.position
    }

    /// The length of the region.
    pub fn get_capacity(&self) -> (r: usize)
        ensures
            r == self.capacity(),
    {
        self.capacity
    }

    /// The bytes from the read offset to the end of the region.
    pub fn slice(&self) -> (r: &[u8])
        requires
            self.wf(),
        ensures
            r@ == self@,
    {
        let from: usize = self.start + self.position;
        let to: usize = self.start + self.capacity;
        let r = vstd::slice::slice_subrange(self.data.as_slice(), from, to);
        assert(r@ =~= self@);
        r
    }

    /// Stores `bytes` at `offset` bytes past the first byte of the region,
    /// whatever the read offset. This is where a device writes.
    pub fn store(&mut self, offset: usize, bytes: &[u8])
        requires
            old(self).wf(),
            offset + bytes@.len() <= old(self).capacity(),
        ensures
            final(self).wf(),
            final(self).position() == old(self).position(),
            final(self).size() == old(self).size(),
            final(self).capacity() == old(self).capacity(),
            final(self).alignment() == old(self).alignment(),
            final(self).address() == old(self).address(),
            final(self).region() == old(self).region().subrange(0, offset as int) + bytes@ + old(
                self,
            ).region().subrange(offset + bytes@.len(), old(self).capacity() as int),
    {
        let first: usize = self.start + offset;
        let n: usize = bytes.len();
        let mut i: usize = 0;
        while i < n
            invariant
                i <= n,
                n == bytes@.len(),
                first == self.start + offset,
                first + n <= self.start + self.capacity,
                self.wf(),
                self.start == old(self).start,
                self.capacity == old(self).capacity,
                self.size == old(self).size,
                self.position == old(self).position,
                self.align == old(self).align,
                self.address == old(self).address,
                self.data@.len() == old(self).data@.len(),
                forall|j: int|
                    0 <= j < self.data@.len() && !(first <= j < first + i) ==> self.data@[j] == old(self).data@[j],
                forall|j: int| 0 <= j < i ==> self.data@[first + j] == bytes@[j],
            decreases n - i,
        {
            self.data[first + i] = bytes[i];
            i += 1;
        }
        assert(self.region() =~= old(self).region().subrange(0, offset as int) + bytes@ + old(
            self,
        ).region().subrange(offset + bytes@.len(), old(self).capacity() as int));
    }

    /// Stores `bytes` at `offset` bytes past the read offset.
    pub fn write(&mut self, offset: usize, bytes: &[u8])
        requires
            old(self).wf(),
            offset + bytes@.len() <= old(self)@.len(),
        ensures
            final(self).wf(),
            final(self).position() == old(self).position(),
            final(self).size() == old(self).size(),
            final(self).capacity() == old(self).capacity(),
            final(self).alignment() == old(self).alignment(),
            final(self).address() == old(self).address(),
            final(self)@ == old(self)@.subrange(0, offset as int) + bytes@ + old(self)@.subrange(
                offset + bytes@.len(),
                old(self)@.len() as int,
            ),
            final(self).region().subrange(0, old(self).position() as int) == old(self).region().subrange(
                0,
                old(self).position() as int,
            ),
    {
        let at: usize = self.position + offset;
        self.store(at, bytes);
        assert(self@ =~= old(self)@.subrange(0, offset as int) + bytes@ + old(self)@.subrange(
            offset + bytes@.len(),
            old(self)@.len() as int,
        ));
        assert(self.region().subrange(0, old(self).position() as int) =~= old(self).region().subrange(
            0,
            old(self).position() as int,
        ));
    }
}

} // verus!
