//! What the packet-processing stages ask of a network interface.

use vstd::prelude::*;
use crate::devices::buffer;
use crate::devices::buffer::Buffer;
use crate::net::ethernet::MacAddress;

verus! {

/// Why an interface could not move a frame.
#[derive(Debug, Copy, Clone, PartialEq, Eq, Structural)]
pub enum Error {
    /// The frame was not queued for transmission.
    TransmitError,
    /// No frame could be received.
    ReceiveError,
}

/// A network interface: it has an index, a driver name and a link-layer
/// address, hands out buffers for frames to send, and sends them.
pub trait Netif {
    /// The invariant of the interface.
    spec fn wf(&self) -> bool;

    /// The index of the interface.
    spec fn id(&self) -> usize;

    /// The link-layer address of the interface.
    spec fn macaddress(&self) -> MacAddress;

    /// The number of bytes that the driver puts in front of every frame.
    spec fn header_len(&self) -> nat;

    /// The frames that were handed to the device for transmission, oldest
    /// first.
    spec fn transmitted(&self) -> Seq<Seq<u8>>;

    /// Whether the device has room for one more frame.
    spec fn can_xmit(&self) -> bool;

    /// Whether a buffer for a frame of `size` bytes can be made.
    spec fn can_allocate(&self, size: usize) -> bool;

    /// Makes a buffer for a frame of `size` bytes. The driver's own header
    /// is filled in and the read offset stands behind it, at the place of
    /// the frame's first byte.
    fn pre_xmit(&self, size: usize) -> (r: Result<Buffer, buffer::Error>)
        requires
            self.wf(),
        ensures
            r is Ok <==> self.can_allocate(size),
            r matches Ok(b) ==> {
                &&& b.wf()
                &&& b.size() == size + self.header_len()
                &&& b.position() == self.header_len()
                &&& b.region() == Seq::new(b.capacity(), |i: int| 0u8)
            },
    ;

    /// Hands a buffer made by `pre_xmit` to the device for transmission.
    fn xmit(&mut self, buffer: Buffer) -> (r: Result<(), Error>)
        requires
            old(self).wf(),
            buffer.wf(),
            buffer.size() <= u32::MAX,
        ensures
            final(self).wf(),
            final(self).id() == old(self).id(),
            final(self).macaddress() == old(self).macaddress(),
            final(self).header_len() == old(self).header_len(),
            forall|size: usize| final(self).can_allocate(size) == old(self).can_allocate(size),
            r is Ok <==> old(self).can_xmit(),
            r is Err ==> r == Err::<(), Error>(Error::TransmitError),
            final(self).transmitted() == (if r is Ok {
                old(self).transmitted().push(buffer.payload())
            } else {
                old(self).transmitted()
            }),
    ;

    /// A hook for drivers that are polled; interrupt-driven ones do nothing.
    fn recv(&self)
    ;

    fn get_id(&self) -> (r: usize)
        ensures
            r == self.id(),
    ;

    fn get_macaddress(&self) -> (r: &MacAddress)
        ensures
            *r == self.macaddress(),
    ;

    fn get_drivername(&self) -> (r: &'static str)
    ;
}

} // verus!
