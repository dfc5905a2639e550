//! The table of interrupt handlers and the handler of the timer line.

use vstd::prelude::*;
use crate::arch::x86_64::apic::{IOAPIC_LINES, IoApicWrite, disable_irq, enable_irq};
use crate::asynchronous::timer::{
    TimerRegistry, check_timerfutures_from_interrupt, timers_after, timers_waiting, timers_woken,
};
use crate::devices::virtio::VirtioDevice;
use crate::devices::virtio::net::VirtioNet;
use crate::net::DataFromNetif;

verus! {

/// What an interrupt leaves to be done.
pub enum InterruptWork {
    Nothing,
    /// Frames for the Ethernet ingress stage.
    Frames(Vec<DataFromNetif>),
    /// Tasks to wake.
    Wakeups(Vec<usize>),
    /// The network interface of this index is to be served.
    Interface(usize),
}

/// What is asked of the handler of an interrupt line.
pub trait Interruptable {
    /// The invariant of the handler.
    spec fn ready(&self) -> bool;

    /// The interrupt line that the handler serves.
    spec fn irq(&self) -> u8;

    /// Whether serving an interrupt at `now` can make `after` of this
    /// handler and leave `work` to be done.
    spec fn serves(&self, now: u64, after: &Self, work: InterruptWork) -> bool;

    fn get_irq(&self) -> (r: u8)
        ensures
            r == self.irq(),
    ;

    /// Serves an interrupt at the time `now` of the monotonic clock.
    fn interrupt_handler(&mut self, now: u64) -> (work: InterruptWork)
        requires
            old(self).ready(),
        ensures
            final(self).ready(),
            final(self).irq() == old(self).irq(),
            old(self).serves(now, final(self), work),
    ;
}

/// The handlers of the 256 interrupt lines.
pub struct IrqHandler<H: Interruptable> {
    handlers: Vec<Option<H>>,
}

impl<H: Interruptable> IrqHandler<H> {
    /// The handler of each line, if it has one.
    pub closed spec fn view(&self) -> Seq<Option<H>> {
        self.handlers@
    }

    /// The invariant of the table: every handler stands at its own line.
    pub open spec fn wf(&self) -> bool {
        &&& self@.len() == 256
        &&& forall|i: int|
            0 <= i < 256 ==> ((#[trigger] self@[i]) matches Some(h) ==> h.ready() && h.irq() == i)
    }

    pub fn new() -> (r: IrqHandler<H>)
        ensures
            r.wf(),
            forall|i: int| 0 <= i < 256 ==> (#[trigger] r@[i]) is None,
    {
        let mut handlers: Vec<Option<H>> = Vec::new();
        let mut i: usize = 0;
        while i < 256
            invariant
                i <= 256,
                handlers@.len() == i,
                forall|j: int| 0 <= j < i ==> (#[trigger] handlers@[j]) is None,
            decreases 256 - i,
        {
            handlers.push(None);
            i += 1;
        }
        IrqHandler { handlers }
    }

    /// Installs `handler` at its line. The result is the writes that route
    /// the line to its vector. A handler of a line that the I/O interrupt
    /// controller has no register for is not installed.
    pub fn set_handler(&mut self, handler: H) -> (writes: Option<[IoApicWrite; 2]>)
        requires
            old(self).wf(),
            handler.ready(),
        ensures
            final(self).wf(),
            writes is Some <==> handler.irq() < IOAPIC_LINES,
            final(self)@ == (if handler.irq() < IOAPIC_LINES {
                old(self)@.update(handler.irq() as int, Some(handler))
            } else {
                old(self)@
            }),
            writes matches Some(w) ==> w@ == seq![
                IoApicWrite { reg: (0x10 + 2 * handler.irq() + 1) as u8, value: 0 },
                IoApicWrite { reg: (0x10 + 2 * handler.irq()) as u8, value: (48 + handler.irq()) as u32 },
            ],
    {
        let irq: u8 = handler.get_irq();
        if irq >= IOAPIC_LINES {
            return None;
        }
        self.handlers[irq as usize] = Some(handler);
        Some(enable_irq(irq))
    }

    /// Removes the handler of the line `irq`. The result is the writes
    /// that mask the line, if the I/O interrupt controller has a register
    /// for it.
    pub fn unset_handler(&mut self, irq: u8) -> (writes: Option<[IoApicWrite; 2]>)
        requires
            old(self).wf(),
        ensures
            final(self).wf(),
            final(self)@ == old(self)@.update(irq as int, None),
            writes is Some <==> irq < IOAPIC_LINES,
            writes matches Some(w) ==> w@ == seq![
                IoApicWrite { reg: (0x10 + 2 * irq + 1) as u8, value: 0 },
                IoApicWrite { reg: (0x10 + 2 * irq) as u8, value: 0x1_0000u32 },
            ],
    {
        self.handlers[irq as usize] = None;
        if irq < IOAPIC_LINES {
            Some(disable_irq(irq))
        } else {
            None
        }
    }

    /// Takes the handler of the line `irq` out of the table.
    pub fn take_handler(&mut self, irq: u8) -> (r: Option<H>)
        requires
            old(self).wf(),
        ensures
            final(self).wf(),
            r == old(self)@[irq as int],
            final(self)@ == old(self)@.update(irq as int, None),
            r matches Some(h) ==> h.ready() && h.irq() == irq,
    {
        self.handlers[irq as usize].take()
    }

    /// The handler of the line `irq`.
    pub fn get_handler(&self, irq: u8) -> (r: Option<&H>)
        requires
            self.wf(),
        ensures
            match r {
                Some(h) => self@[irq as int] == Some(*h),
                None => self@[irq as int] is None,
            },
    {
        match &self.handlers[irq as usize] {
            Some(h) => Some(h),
            None => None,
        }
    }

    /// Serves an interrupt of the line `irq`: its handler runs if it has
    /// one, and nothing is done if it has none.
    pub fn irq_handler(&mut self, irq: u8, now: u64) -> (work: InterruptWork)
        requires
            old(self).wf(),
        ensures
            final(self).wf(),
            old(self)@[irq as int] is None ==> work is Nothing && final(self)@ == old(self)@,
            old(self)@[irq as int] matches Some(before) ==> final(self)@[irq as int] matches Some(after)
                && before.serves(now, &after, work),
            forall|i: int| 0 <= i < 256 && i != irq ==> final(self)@[i] == old(self)@[i],
            final(self)@[irq as int] is Some == old(self)@[irq as int] is Some,
    {
        let taken = self.handlers[irq as usize].take();
        match taken {
            Some(handler) => {
                let mut handler = handler;
                let work = handler.interrupt_handler(now);
                self.handlers[irq as usize] = Some(handler);
                work
            },
            None => {
                assert(self@ =~= old(self)@);
                InterruptWork::Nothing
            },
        }
    }
}

/// The handler of the timer line. It holds the registry of the timers.
pub struct Timer {
    pub registry: TimerRegistry,
}

impl Timer {
    pub fn new() -> (r: Timer)
        ensures
            r.registry.wf(),
            r.registry.states().len() == 0,
            r.registry.waiting().len() == 0,
    {
        Timer { registry: TimerRegistry::new() }
    }
}

impl Interruptable for Timer {
    open spec fn ready(&self) -> bool {
        self.registry.wf()
    }

    open spec fn irq(&self) -> u8 {
        0
    }

    open spec fn serves(&self, now: u64, after: &Self, work: InterruptWork) -> bool {
        &&& after.registry.states() == timers_after(self.registry.states(), self.registry.waiting(), now)
        &&& after.registry.waiting() == timers_waiting(self.registry.states(), self.registry.waiting(), now)
        &&& work matches InterruptWork::Wakeups(woken) && woken@ == timers_woken(
            self.registry.states(),
            self.registry.waiting(),
            now,
        )
    }

    fn get_irq(&self) -> (r: u8) {
        0
    }

    /// Completes the timers that have expired: the work is the tasks to
    /// wake.
    fn interrupt_handler(&mut self, now: u64) -> (work: InterruptWork) {
        InterruptWork::Wakeups(check_timerfutures_from_interrupt(&mut self.registry, now))
    }
}

/// The handler of a line where one table holds the handlers of all lines:
/// the timer's, or the mark of the network interface that the line belongs
/// to. The interfaces themselves stay together, where the stages of the
/// packet path can send on each of them.
pub enum LineHandler {
    Clock(Timer),
    Interface { index: usize, irq: u8 },
}

impl Interruptable for LineHandler {
    open spec fn ready(&self) -> bool {
        match *self {
            LineHandler::Clock(timer) => timer.ready(),
            LineHandler::Interface { index, irq } => true,
        }
    }

    open spec fn irq(&self) -> u8 {
        match *self {
            LineHandler::Clock(timer) => timer.irq(),
            LineHandler::Interface { index, irq } => irq,
        }
    }

    open spec fn serves(&self, now: u64, after: &Self, work: InterruptWork) -> bool {
        match *self {
            LineHandler::Clock(timer) => after matches LineHandler::Clock(later) && timer.serves(now, &later, work),
            LineHandler::Interface { index, irq } => *after == *self && work == InterruptWork::Interface(index),
        }
    }

    fn get_irq(&self) -> (r: u8) {
        match self {
            LineHandler::Clock(timer) => timer.get_irq(),
            LineHandler::Interface { index, irq } => *irq,
        }
    }

    /// The timer completes what has expired; the line of an interface
    /// names the interface to serve.
    fn interrupt_handler(&mut self, now: u64) -> (work: InterruptWork) {
        match self {
            LineHandler::Clock(timer) => timer.interrupt_handler(now),
            LineHandler::Interface { index, irq } => InterruptWork::Interface(*index),
        }
    }
}

impl<T: VirtioDevice> Interruptable for VirtioNet<T> {
    open spec fn ready(&self) -> bool {
        self.inv()
    }

    open spec fn irq(&self) -> u8 {
        self.device().irq_line()
    }

    open spec fn serves(&self, now: u64, after: &Self, work: InterruptWork) -> bool {
        work matches InterruptWork::Frames(batch) && (self.idle_interrupt(after, batch@) || self.served_interrupt(
            after,
            batch@,
        ))
    }

    fn get_irq(&self) -> (r: u8) {
        self.irq_line()
    }

    /// Serves the device: the work is the received frames.
    fn interrupt_handler(&mut self, now: u64) -> (work: InterruptWork) {
        InterruptWork::Frames(self.receive())
    }
}

} // verus!
