//! The packet-processing stages and the tables they consult.

pub mod arp;
pub mod ethernet;
pub mod fib;
pub mod ipv4;
pub mod ipv6;
pub mod order;

use vstd::prelude::*;
use crate::devices::buffer::Buffer;
use crate::devices::netif::Netif;
use crate::net::ethernet::MacAddress;
use crate::net::fib::ForwardingTables;

verus! {

/// A received frame as plain values: the index of the interface it came in
/// on, and its bytes from the Ethernet header on.
pub struct FrameView {
    pub netif: usize,
    pub bytes: Seq<u8>,
}

/// A frame to send and the index of the interface to send it on.
pub struct TransmitRequest {
    pub netif: usize,
    pub frame: Vec<u8>,
}

/// A frame to send as plain values.
pub struct RequestView {
    pub netif: usize,
    pub bytes: Seq<u8>,
}

impl TransmitRequest {
    pub open spec fn view(&self) -> RequestView {
        RequestView { netif: self.netif, bytes: self.frame@ }
    }
}

/// The frames of a batch as plain values.
pub open spec fn frames_of(batch: Seq<DataFromNetif>) -> Seq<FrameView> {
    Seq::new(batch.len(), |j: int| batch[j].frame())
}

/// The requests of a list as plain values.
pub open spec fn requests_of(requests: Seq<TransmitRequest>) -> Seq<RequestView> {
    Seq::new(requests.len(), |j: int| requests[j]@)
}

/// The link-layer addresses of the interfaces, by index.
pub open spec fn interface_macs<N: Netif>(netifs: Seq<N>) -> Seq<MacAddress> {
    Seq::new(netifs.len(), |i: int| netifs[i].macaddress())
}

/// The 16-bit word `k` of `b`, most significant byte first; a missing last
/// byte counts as zero.
pub open spec fn checksum_word(b: Seq<u8>, k: int) -> nat {
    (b[2 * k] * 256 + (if 2 * k + 1 < b.len() {
        b[2 * k + 1] as int
    } else {
        0
    })) as nat
}

/// The sum of the first `n` words of `b`.
pub open spec fn checksum_words(b: Seq<u8>, n: nat) -> nat
    decreases n,
{
    if n == 0 {
        0
    } else {
        checksum_words(b, (n - 1) as nat) + checksum_word(b, n - 1)
    }
}

/// The sum of all words of `b`.
pub open spec fn checksum_total(b: Seq<u8>) -> nat {
    checksum_words(b, ((b.len() + 1) / 2) as nat)
}

/// A sum brought into 16 bits with end-around carry: 0 stays 0, and every
/// other sum becomes the value from 1 to 0xffff that it is congruent to
/// modulo 0xffff.
pub open spec fn ones_fold(x: nat) -> nat {
    if x == 0 {
        0
    } else {
        (((x - 1) % 0xffff) + 1) as nat
    }
}

/// The Internet checksum of `b` on top of the sum `initial`: the
/// complement of the folded sum.
pub open spec fn internet_checksum(initial: nat, b: Seq<u8>) -> u16 {
    (0xffff - ones_fold(initial + checksum_total(b))) as u16
}

/// Whether `b`, which holds its checksum, checks on top of the sum
/// `initial`: the folded sum is all ones.
pub open spec fn checksum_valid(initial: nat, b: Seq<u8>) -> bool {
    ones_fold(initial + checksum_total(b)) == 0xffff
}

proof fn lemma_fold_step(x: u32)
    by (bit_vector)
    ensures
        x == (x >> 16) * 0x1_0000 + (x & 0xffff),
        (x >> 16) <= 0xffff,
        (x & 0xffff) <= 0xffff,
{
}

proof fn lemma_word_bytes(c: u16)
    by (bit_vector)
    ensures
        ((c >> 8) as u8) as int * 256 + ((c & 0xff) as u8) as int == c,
{
}

/// What setting the word `k`, which was zero, does to the sum.
proof fn lemma_checksum_words_set(b: Seq<u8>, k: int, hi: u8, lo: u8, n: nat)
    requires
        0 <= k,
        2 * k + 1 < b.len(),
        b[2 * k] == 0,
        b[2 * k + 1] == 0,
        2 * n <= b.len() + 1,
    ensures
        checksum_words(b.update(2 * k, hi).update(2 * k + 1, lo), n) == checksum_words(b, n) + (if k < n {
            hi * 256 + lo
        } else {
            0
        }),
    decreases n,
{
    if n > 0 {
        lemma_checksum_words_set(b, k, hi, lo, (n - 1) as nat);
    }
}

/// A region whose checksum field was zero checks once its checksum is
/// stored in that field, most significant byte first.
pub proof fn law_checksum_validates(initial: nat, b: Seq<u8>, at: int)
    requires
        0 <= at,
        at % 2 == 0,
        at + 1 < b.len(),
        b[at] == 0,
        b[at + 1] == 0,
    ensures
        ({
            let c = internet_checksum(initial, b);
            checksum_valid(initial, b.update(at, (c >> 8) as u8).update(at + 1, (c & 0xff) as u8))
        }),
{
    let c = internet_checksum(initial, b);
    let n = ((b.len() + 1) / 2) as nat;
    let k = at / 2;
    lemma_word_bytes(c);
    lemma_checksum_words_set(b, k, (c >> 8) as u8, (c & 0xff) as u8, n);
    let t = initial + checksum_total(b);
    let f = ones_fold(t);
    assert(c == 0xffff - f);
    let total = t + c;
    assert(initial + checksum_total(b.update(at, (c >> 8) as u8).update(at + 1, (c & 0xff) as u8)) == total);
    if t > 0 {
        let q = (t - 1) / 0xffff;
        assert(t - 1 == 0xffff * q + (t - 1) % 0xffff);
        assert(total - 1 == 0xffff * q + 0xfffe);
        assert((total - 1) % 0xffff == 0xfffe);
    }
}

/// The Internet checksum of `bytes` on top of the sum `initial`.
pub fn checksum(initial: u32, bytes: &[u8]) -> (r: u16)
    requires
        initial <= 0x7fff_ffff,
        bytes@.len() <= 0x1_0000,
    ensures
        r == internet_checksum(initial as nat, bytes@),
{
    let len: usize = bytes.len();
    let words: usize = (len + 1) / 2;
    let mut acc: u32 = initial;
    let mut i: usize = 0;
    while i < words
        invariant
            i <= words,
            len == bytes@.len(),
            words == (len + 1) / 2,
            len <= 0x1_0000,
            initial <= 0x7fff_ffff,
            acc == initial + checksum_words(bytes@, i as nat),
            checksum_words(bytes@, i as nat) <= 0xffff * i,
        decreases words - i,
    {
        let hi: u32 = bytes[2 * i] as u32;
        let lo: u32 = if 2 * i + 1 < len {
            bytes[2 * i + 1] as u32
        } else {
            0
        };
        acc = acc + (hi * 256 + lo);
        i += 1;
    }
    proof {
        lemma_fold_step(acc);
    }
    let once: u32 = (acc & 0xffff) + (acc >> 16);
    proof {
        lemma_fold_step(once);
    }
    let twice: u32 = (once & 0xffff) + (once >> 16);
    proof {
        let t = acc as nat;
        assert(once % 0xffff == t % 0xffff) by {
            assert(acc == (acc >> 16) * 0xffff + once);
        }
        assert(once == 0 <==> t == 0);
        assert(once <= 0x1_fffe);
        assert(twice % 0xffff == once % 0xffff) by {
            assert(once == (once >> 16) * 0xffff + twice);
        }
        assert((once >> 16) <= 1);
        assert(twice <= 0xffff);
        assert(twice == 0 <==> once == 0);
        assert(twice == ones_fold(t)) by {
            if t > 0 {
                assert((twice - 1) % 0xffff == twice - 1);
                assert((t - 1) % 0xffff == (twice - 1) % 0xffff) by {
                    let q = t / 0xffff;
                    let q2 = twice as int / 0xffff;
                    assert(t == 0xffff * q + t % 0xffff);
                    assert(twice == 0xffff * q2 + twice % 0xffff);
                }
            }
        }
    }
    (0xffff - twice) as u16
}

/// `frame` with the checksum `c` stored at `at`, most significant byte
/// first.
pub open spec fn with_checksum(frame: Seq<u8>, at: int, c: u16) -> Seq<u8> {
    frame.update(at, (c >> 8) as u8).update(at + 1, (c & 0xff) as u8)
}

/// The sum of the words of `bytes`.
pub fn sum_words(bytes: &[u8]) -> (r: u32)
    requires
        bytes@.len() <= 0x1_0000,
    ensures
        r == checksum_total(bytes@),
        r <= 0xffff * ((bytes@.len() + 1) / 2),
{
    let len: usize = bytes.len();
    let words: usize = (len + 1) / 2;
    let mut acc: u32 = 0;
    let mut i: usize = 0;
    while i < words
        invariant
            i <= words,
            len == bytes@.len(),
            words == (len + 1) / 2,
            len <= 0x1_0000,
            acc == checksum_words(bytes@, i as nat),
            acc <= 0xffff * i,
        decreases words - i,
    {
        let hi: u32 = bytes[2 * i] as u32;
        let lo: u32 = if 2 * i + 1 < len {
            bytes[2 * i + 1] as u32
        } else {
            0
        };
        acc = acc + (hi * 256 + lo);
        i += 1;
    }
    acc
}

/// Adds `bytes` to the end of `v`.
pub fn append(v: &mut Vec<u8>, bytes: &[u8])
    ensures
        final(v)@ == old(v)@ + bytes@,
{
    let n: usize = bytes.len();
    let mut i: usize = 0;
    while i < n
        invariant
            i <= n,
            n == bytes@.len(),
            v@ == old(v)@ + bytes@.subrange(0, i as int),
        decreases n - i,
    {
        v.push(bytes[i]);
        i += 1;
        assert(v@ =~= old(v)@ + bytes@.subrange(0, i as int));
    }
    assert(bytes@.subrange(0, n as int) =~= bytes@);
}

/// A received frame and the interface it came in on. The read offset of
/// the buffer stands at the first byte of the Ethernet header.
pub struct DataFromNetif {
    netif: usize,
    buffer: Buffer,
}

impl DataFromNetif {
    /// The index of the receiving interface.
    pub closed spec fn netif(&self) -> usize {
        self.netif
    }

    /// The buffer that holds the frame.
    pub closed spec fn buffer(&self) -> Buffer {
        self.buffer
    }

    /// The bytes of the frame, from the Ethernet header to the end of the
    /// buffer.
    pub open spec fn view(&self) -> Seq<u8> {
        self.buffer()@
    }

    pub open spec fn wf(&self) -> bool {
        self.buffer().wf()
    }

    /// The frame as plain values.
    pub open spec fn frame(&self) -> FrameView {
        FrameView { netif: self.netif(), bytes: self@ }
    }

    pub fn new(netif: usize, buffer: Buffer) -> (r: DataFromNetif)
        ensures
            r.netif() == netif,
            r.buffer() == buffer,
    {
        DataFromNetif { netif, buffer }
    }

    pub fn get_netif(&self) -> (r: usize)
        ensures
            r == self.netif(),
    {
        self.netif
    }

    pub fn get_buffer(&self) -> (r: &Buffer)
        ensures
            *r == self.buffer(),
    {
        &self.buffer
    }
}

/// A stage of the packet-processing graph. It takes a batch of received
/// frames, may change the forwarding tables, and answers with the frames
/// to send.
pub trait ProcessingNode {
    fn process<N: Netif>(&self, tables: &mut ForwardingTables, netifs: &Vec<N>, batch: Vec<DataFromNetif>) -> (requests:
        Vec<TransmitRequest>)
        requires
            old(tables).wf(),
            forall|j: int| 0 <= j < batch@.len() ==> (#[trigger] batch@[j]).wf(),
        ensures
            final(tables).wf(),
    ;
}

/// The frames of `requests` that were queued on the interface `netif`, in
/// their order: `outcome` says of each request whether it was queued.
pub open spec fn frames_queued_on(requests: Seq<RequestView>, outcome: Seq<bool>, netif: int) -> Seq<Seq<u8>>
    decreases requests.len(),
{
    if requests.len() == 0 || outcome.len() != requests.len() {
        Seq::<Seq<u8>>::empty()
    } else {
        let before = frames_queued_on(requests.drop_last(), outcome.drop_last(), netif);
        if outcome.last() && requests.last().netif == netif {
            before.push(requests.last().bytes)
        } else {
            before
        }
    }
}

/// Whether none of the first `upto` of `requests` is for the interface
/// `netif`.
pub open spec fn none_sent_on(requests: Seq<RequestView>, upto: int, netif: int) -> bool {
    forall|k: int| 0 <= k < upto ==> (#[trigger] requests[k]).netif != netif
}

/// Whether the frame of `request` is queued when it is sent on `netifs`:
/// there is an interface of its index, a buffer can be made for the frame,
/// a descriptor can hold the length of the frame and the driver's header,
/// and the device has room.
pub open spec fn frame_goes<N: Netif>(netifs: Seq<N>, request: RequestView) -> bool {
    &&& request.netif < netifs.len()
    &&& netifs[request.netif as int].can_allocate(request.bytes.len() as usize)
    &&& request.bytes.len() + netifs[request.netif as int].header_len() <= u32::MAX
    &&& netifs[request.netif as int].can_xmit()
}

/// Sends the frames of `requests`, first to last, each on its interface,
/// and says of each whether it was queued. A frame is dropped where there
/// is no interface of its index, where no buffer can be made for it, and
/// where the interface does not take it. Of the first frame for an
/// interface the state of the interface before the call decides; of a
/// later one the interface itself, after the frames before it.
pub fn transmit<N: Netif>(netifs: &mut Vec<N>, requests: Vec<TransmitRequest>) -> (outcome: Vec<bool>)
    requires
        forall|i: int| 0 <= i < old(netifs)@.len() ==> (#[trigger] old(netifs)@[i]).wf(),
    ensures
        final(netifs)@.len() == old(netifs)@.len(),
        outcome@.len() == requests@.len(),
        forall|j: int|
            0 <= j < outcome@.len() && #[trigger] outcome@[j] ==> requests@[j].netif < old(netifs)@.len() && old(
                netifs,
            )@[requests@[j].netif as int].can_allocate(requests@[j].frame@.len() as usize),
        forall|j: int|
            0 <= j < outcome@.len() && none_sent_on(requests_of(requests@), j, requests@[j].netif as int)
                ==> #[trigger] outcome@[j] == frame_goes(old(netifs)@, requests@[j]@),
        forall|i: int|
            0 <= i < final(netifs)@.len() && none_sent_on(requests_of(requests@), requests@.len() as int, i)
                ==> #[trigger] final(netifs)@[i] == old(netifs)@[i],
        forall|i: int|
            0 <= i < final(netifs)@.len() ==> {
                &&& (#[trigger] final(netifs)@[i]).wf()
                &&& final(netifs)@[i].id() == old(netifs)@[i].id()
                &&& final(netifs)@[i].macaddress() == old(netifs)@[i].macaddress()
                &&& final(netifs)@[i].header_len() == old(netifs)@[i].header_len()
                &&& final(netifs)@[i].transmitted() == old(netifs)@[i].transmitted() + frames_queued_on(
                    requests_of(requests@),
                    outcome@,
                    i,
                )
            },
{
    let ghost all = requests_of(requests@);
    let ghost count = requests@.len();
    let mut outcome: Vec<bool> = Vec::new();
    let mut rest = reversed(requests);
    proof {
        assert(all.subrange(0, 0) =~= Seq::<RequestView>::empty());
        assert forall|i: int| 0 <= i < netifs@.len() implies (#[trigger] netifs@[i]).transmitted() == old(
            netifs,
        )@[i].transmitted() + frames_queued_on(all.subrange(0, 0), outcome@, i) by {
            assert(old(netifs)@[i].transmitted() + Seq::<Seq<u8>>::empty() =~= old(netifs)@[i].transmitted());
        }
    }
    while rest.len() > 0
        invariant
            netifs@.len() == old(netifs)@.len(),
            all == requests_of(requests@),
            count == requests@.len(),
            rest@.len() + outcome@.len() == count,
            forall|j: int| 0 <= j < rest@.len() ==> #[trigger] rest@[j] == requests@[count - 1 - j],
            forall|j: int|
                0 <= j < outcome@.len() && #[trigger] outcome@[j] ==> requests@[j].netif < old(netifs)@.len() && old(
                    netifs,
                )@[requests@[j].netif as int].can_allocate(requests@[j].frame@.len() as usize),
            forall|j: int|
                0 <= j < outcome@.len() && none_sent_on(all, j, requests@[j].netif as int) ==> #[trigger] outcome@[j]
                    == frame_goes(old(netifs)@, requests@[j]@),
            forall|i: int|
                0 <= i < netifs@.len() && none_sent_on(all, outcome@.len() as int, i) ==> #[trigger] netifs@[i] == old(
                    netifs,
                )@[i],
            forall|i: int|
                0 <= i < netifs@.len() ==> {
                    &&& (#[trigger] netifs@[i]).wf()
                    &&& netifs@[i].id() == old(netifs)@[i].id()
                    &&& netifs@[i].macaddress() == old(netifs)@[i].macaddress()
                    &&& netifs@[i].header_len() == old(netifs)@[i].header_len()
                    &&& forall|size: usize| netifs@[i].can_allocate(size) == old(netifs)@[i].can_allocate(size)
                    &&& netifs@[i].transmitted() == old(netifs)@[i].transmitted() + frames_queued_on(
                        all.subrange(0, outcome@.len() as int),
                        outcome@,
                        i,
                    )
                },
        decreases rest@.len(),
    {
        let ghost k = outcome@.len() as int;
        let ghost before = netifs@;
        let ghost outcome0 = outcome@;
        match rest.pop() {
            Some(request) => {
                assert(request == requests@[k]);
                let queued = send_frame(netifs, &request);
                outcome.push(queued);
                proof {
                    assert(all.subrange(0, k + 1).drop_last() =~= all.subrange(0, k));
                    assert(outcome@.drop_last() =~= outcome0);
                    assert(all.subrange(0, k + 1).last() == request@);
                    assert(all[k] == request@);
                    assert forall|j: int|
                        0 <= j < outcome@.len() && none_sent_on(
                            all,
                            j,
                            requests@[j].netif as int,
                        ) implies #[trigger] outcome@[j] == frame_goes(old(netifs)@, requests@[j]@) by {
                        if j < k {
                            assert(outcome@[j] == outcome0[j]);
                        } else if request.netif < before.len() {
                            assert(before[request.netif as int] == old(netifs)@[request.netif as int]);
                        }
                    }
                    assert forall|i: int|
                        0 <= i < netifs@.len() && none_sent_on(all, k + 1, i) implies #[trigger] netifs@[i] == old(
                        netifs,
                    )@[i] by {
                        assert(all[k].netif != i);
                        assert(none_sent_on(all, k, i));
                        assert(netifs@[i] == before[i]);
                    }
                    assert forall|i: int| 0 <= i < netifs@.len() implies (#[trigger] netifs@[i]).transmitted() == old(
                        netifs,
                    )@[i].transmitted() + frames_queued_on(all.subrange(0, k + 1), outcome@, i) by {
                        let sent0 = frames_queued_on(all.subrange(0, k), outcome0, i);
                        assert(before[i].transmitted() == old(netifs)@[i].transmitted() + sent0);
                        if queued && request.netif == i {
                            assert(old(netifs)@[i].transmitted() + sent0.push(request.frame@) =~= (old(
                                netifs,
                            )@[i].transmitted() + sent0).push(request.frame@));
                        }
                    }
                }
            },
            None => {},
        }
    }
    assert(all.subrange(0, count as int) =~= all);
    outcome
}

/// Sends one frame on its interface and says whether it was queued. Every
/// other interface is as it was.
pub fn send_frame<N: Netif>(netifs: &mut Vec<N>, request: &TransmitRequest) -> (queued: bool)
    requires
        forall|i: int| 0 <= i < old(netifs)@.len() ==> (#[trigger] old(netifs)@[i]).wf(),
    ensures
        final(netifs)@.len() == old(netifs)@.len(),
        queued == frame_goes(old(netifs)@, request@),
        forall|i: int|
            0 <= i < final(netifs)@.len() && i != request.netif ==> #[trigger] final(netifs)@[i] == old(netifs)@[i],
        forall|i: int|
            0 <= i < final(netifs)@.len() ==> {
                &&& (#[trigger] final(netifs)@[i]).wf()
                &&& final(netifs)@[i].id() == old(netifs)@[i].id()
                &&& final(netifs)@[i].macaddress() == old(netifs)@[i].macaddress()
                &&& final(netifs)@[i].header_len() == old(netifs)@[i].header_len()
                &&& forall|size: usize| final(netifs)@[i].can_allocate(size) == old(netifs)@[i].can_allocate(size)
                &&& final(netifs)@[i].transmitted() == (if queued && i == request.netif {
                    old(netifs)@[i].transmitted().push(request.frame@)
                } else {
                    old(netifs)@[i].transmitted()
                })
            },
{
    let netif: usize = request.netif;
    if netif >= netifs.len() {
        return false;
    }
    let size: usize = request.frame.len();
    match netifs[netif].pre_xmit(size) {
        Ok(buffer) => {
            let mut buffer = buffer;
            proof {
                buffer.lemma_wf();
            }
            if buffer.get_size() > 0xffff_ffff {
                return false;
            }
            buffer.write(0, request.frame.as_slice());
            proof {
                buffer.lemma_wf();
                assert(buffer.payload() =~= request.frame@);
            }
            let ghost before = netifs@;
            let sent = netifs[netif].xmit(buffer);
            proof {
                assert forall|i: int| 0 <= i < netifs@.len() && i != netif implies netifs@[i] == before[i] by {}
            }
            sent.is_ok()
        },
        Err(_) => false,
    }
}

/// The elements of `v` in the opposite order.
pub fn reversed<T>(v: Vec<T>) -> (r: Vec<T>)
    ensures
        r@ == v@.reverse(),
{
    let mut v = v;
    let ghost all = v@;
    let mut r: Vec<T> = Vec::new();
    while v.len() > 0
        invariant
            v@.len() + r@.len() == all.len(),
            v@ == all.subrange(0, v@.len() as int),
            forall|j: int| 0 <= j < r@.len() ==> #[trigger] r@[j] == all[all.len() - 1 - j],
        decreases v@.len(),
    {
        match v.pop() {
            Some(x) => {
                r.push(x);
            },
            None => {},
        }
    }
    assert(r@ =~= all.reverse());
    r
}

} // verus!
