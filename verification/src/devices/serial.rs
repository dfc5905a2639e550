//! The serial port, a 16550-compatible UART: what is written to its
//! registers and what its status says.

use vstd::prelude::*;

verus! {

/// The first I/O port of the first serial port.
pub const COM1PORT: u16 = 0x03f8;

/// A write of one byte to an I/O port.
#[derive(Debug, Copy, Clone, PartialEq, Eq, Structural)]
pub struct PortWrite {
    pub port: u16,
    pub value: u8,
}

/// A serial port by the first of its eight I/O ports.
#[derive(Debug, Copy, Clone, PartialEq, Eq, Structural)]
pub struct SerialPort {
    pub port: u16,
}

/// The writes that set a serial port up: no interrupts, 38400 baud, eight
/// bits without parity and with one stop bit, the queues enabled and
/// cleared, and the modem lines set.
pub open spec fn init_sequence(port: u16) -> Seq<PortWrite> {
    seq![
        PortWrite { port: (port + 1) as u16, value: 0x00 },
        PortWrite { port: (port + 3) as u16, value: 0x80 },
        PortWrite { port: port, value: 0x03 },
        PortWrite { port: (port + 1) as u16, value: 0x00 },
        PortWrite { port: (port + 3) as u16, value: 0x03 },
        PortWrite { port: (port + 2) as u16, value: 0xc7 },
        PortWrite { port: (port + 4) as u16, value: 0x0b },
    ]
}

/// The writes that set the serial port at `port` up.
pub fn init_serial(port: u16) -> (r: [PortWrite; 7])
    requires
        port <= 0xfff8,
    ensures
        r@ == init_sequence(port),
{
    let r = [
        PortWrite { port: port + 1, value: 0x00 },
        PortWrite { port: port + 3, value: 0x80 },
        PortWrite { port: port, value: 0x03 },
        PortWrite { port: port + 1, value: 0x00 },
        PortWrite { port: port + 3, value: 0x03 },
        PortWrite { port: port + 2, value: 0xc7 },
        PortWrite { port: port + 4, value: 0x0b },
    ];
    assert(r@ =~= init_sequence(port));
    r
}

/// Whether a line status says that a byte has been received.
pub fn is_received(line_status: u8) -> (r: bool)
    ensures
        r == (line_status & 0x01 == 1),
{
    (line_status & 0x01) == 1
}

/// Whether a line status says that the next byte can be sent.
pub fn is_transmit_empty(line_status: u8) -> (r: bool)
    ensures
        r == (line_status & 0x20 == 0x20),
{
    (line_status & 0x20) == 0x20
}

impl SerialPort {
    /// The serial port at `port`. It is to be set up with the writes of
    /// `init_serial`.
    pub fn new(port: u16) -> (r: SerialPort)
        ensures
            r.port == port,
    {
        SerialPort { port }
    }

    /// The port of the line status.
    pub fn status_port(&self) -> (r: u16)
        requires
            self.port <= 0xfff8,
        ensures
            r == self.port + 5,
    {
        self.port + 5
    }

    /// The write that sends the byte `val`, once the line status says
    /// that it can be sent.
    pub fn write_byte(&self, val: u8) -> (r: PortWrite)
        ensures
            r == (PortWrite { port: self.port, value: val }),
    {
        PortWrite { port: self.port, value: val }
    }

    /// The writes that send the bytes of `s`, one after the other.
    pub fn write_str(&self, s: &[u8]) -> (r: Vec<PortWrite>)
        ensures
            r@ == Seq::new(s@.len(), |i: int| PortWrite { port: self.port, value: s@[i] }),
    {
        let mut writes: Vec<PortWrite> = Vec::new();
        let n: usize = s.len();
        let mut i: usize = 0;
        while i < n
            invariant
                i <= n,
                n == s@.len(),
                writes@ == Seq::new(i as nat, |j: int| PortWrite { port: self.port, value: s@[j] }),
            decreases n - i,
        {
            writes.push(self.write_byte(s[i]));
            i += 1;
            assert(writes@ =~= Seq::new(i as nat, |j: int| PortWrite { port: self.port, value: s@[j] }));
        }
        writes
    }
}

} // verus!
