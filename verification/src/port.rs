//! The two I/O ports of the controller, the bits of its status byte, and the transport
//! that performs single port accesses.

use vstd::prelude::*;

verus! {

/// Delay before the first poll of the status port, in microseconds.
pub const SMC_MIN_WAIT: u32 = 0x10;

/// Delay before a byte is sent again after the controller did not take it.
pub const SMC_RETRY_WAIT: u32 = 0x100;

/// Ceiling of the poll delay. No poll is made with a delay this long.
pub const SMC_MAX_WAIT: u32 = 0x20000;

/// First port of the range the controller occupies.
pub const SMC_START: u16 = 0x300;

/// Number of ports in that range.
pub const SMC_RANGE: u8 = 0x20;

/// Port that takes command bytes and gives the status byte.
pub const SMC_CMD_PORT: u16 = SMC_START + 0x04;

/// Port that takes and gives key, length and data bytes.
pub const SMC_DATA_PORT: u16 = SMC_START + 0x00;

/// Number of bytes in a register key.
pub const SMC_KEY_NAME_LEN: usize = 4;

/// Number of bytes in the type tag of a register.
pub const SMC_KEY_TYPE_LEN: usize = 4;

/// Command that asks for the type descriptor of a register.
pub const SMC_GET_KEY_TYPE_CMD: u8 = 0x13;

/// Command that asks for the data of a register.
pub const SMC_READ_CMD: u8 = 0x10;

/// Command that stores data in a register.
pub const SMC_WRITE_CMD: u8 = 0x11;

/// One access to an I/O port, as the transport carried it out: the delay that preceded
/// it, the port, and the byte written or read.
#[derive(Debug, Clone, Copy, PartialEq, Eq)]
pub enum PortAccess {
    /// `value` was written to `port` after `us` microseconds.
    Out { us: u32, value: u8, port: u16 },
    /// `port` was read after `us` microseconds and gave `value`.
    In { us: u32, port: u16, value: u8 },
}

/// Transport for single bytes. An implementation waits `us` microseconds (not at all
/// when `us` is zero) and then writes or reads the port. Nothing is promised about the
/// byte a read returns: it is whatever the controller shows at that moment.
pub trait IoPortRw {
    /// Waits `us` microseconds, then writes `value` to `port`.
    fn delayed_outb(&mut self, us: u32, value: u8, port: u16);

    /// Waits `us` microseconds, then reads `port`.
    fn delayed_inb(&mut self, us: u32, port: u16) -> u8;
}

/// A transport together with the record of every access made through it. The record is
/// ghost: it costs nothing when the program runs, and nothing but the two access
/// methods adds to it.
pub struct Recorded<T: IoPortRw> {
    io_port_rw: T,
    log: Ghost<Seq<PortAccess>>,
}

impl<T: IoPortRw> Recorded<T> {
    /// Every access made so far, oldest first.
    pub closed spec fn log(&self) -> Seq<PortAccess> {
        self.log@
    }

    /// The transport as it stands. Every access may change it.
    pub closed spec fn transport(&self) -> T {
        self.io_port_rw
    }

    /// Takes a transport through which nothing has been recorded yet.
    pub fn new(io_port_rw: T) -> (recorded: Self)
        ensures
            recorded.log() == Seq::<PortAccess>::empty(),
            recorded.transport() == io_port_rw,
    {
        Recorded { io_port_rw, log: Ghost(Seq::empty()) }
    }

    /// Writes `value` to `port` after `us` microseconds.
    pub fn outb(&mut self, us: u32, value: u8, port: u16)
        ensures
            final(self).log() == old(self).log().push(PortAccess::Out { us, value, port }),
    {
        self.io_port_rw.delayed_outb(us, value, port);
        proof {
            self.log@ = self.log@.push(PortAccess::Out { us, value, port });
        }
    }

    /// Reads `port` after `us` microseconds.
    pub fn inb(&mut self, us: u32, port: u16) -> (value: u8)
        ensures
            final(self).log() == old(self).log().push(PortAccess::In { us, port, value }),
    {
        let value = self.io_port_rw.delayed_inb(us, port);
        proof {
            self.log@ = self.log@.push(PortAccess::In { us, port, value });
        }
        value
    }

    /// Gives the transport back, as the accesses made through it have left it.
    pub fn into_inner(self) -> (io_port_rw: T)
        ensures
            io_port_rw == self.transport(),
    {
        self.io_port_rw
    }
}

/// The controller has a byte ready to be read from the data port.
pub open spec fn read_ready(status: u8) -> bool {
    status & 0x01 == 0x01
}

/// The controller has taken the byte that was sent and accepts the next one.
pub open spec fn send_acked(status: u8) -> bool {
    status & 0x06 == 0x04
}

/// The controller is still busy with the byte that was sent.
pub open spec fn send_busy(status: u8) -> bool {
    status & 0x06 == 0x02
}

/// Largest number of polls one handshake makes.
pub open spec fn poll_limit() -> nat {
    13
}

/// Delay before poll number `k` of a handshake, counted from zero: the first delay is
/// `SMC_MIN_WAIT` and each later one is twice the one before.
pub open spec fn poll_delay(k: nat) -> nat
    decreases k,
{
    if k == 0 {
        SMC_MIN_WAIT as nat
    } else {
        2 * poll_delay((k - 1) as nat)
    }
}

/// No poll is made without a delay.
pub proof fn lemma_poll_delay_positive(k: nat)
    ensures
        poll_delay(k) >= SMC_MIN_WAIT,
    decreases k,
{
    if k > 0 {
        lemma_poll_delay_positive((k - 1) as nat);
    }
}

/// A later poll waits longer than an earlier one.
pub proof fn lemma_poll_delay_increases(i: nat, j: nat)
    requires
        i < j,
    ensures
        poll_delay(i) < poll_delay(j),
    decreases j,
{
    lemma_poll_delay_positive((j - 1) as nat);
    if i + 1 < j {
        lemma_poll_delay_increases(i, (j - 1) as nat);
    }
}

/// The delays below the ceiling are exactly those of the polls before `poll_limit()`.
pub proof fn lemma_poll_delay_ceiling(k: nat)
    ensures
        k < poll_limit() <==> poll_delay(k) < SMC_MAX_WAIT,
        k + 1 < poll_limit() <==> 2 * poll_delay(k) < SMC_MAX_WAIT,
{
    assert(poll_delay(12) == 0x10000 && poll_delay(13) == 0x20000) by {
        reveal_with_fuel(poll_delay, 14);
    }
    assert(poll_delay(11) == 0x8000) by {
        reveal_with_fuel(poll_delay, 12);
    }
    if k < 11 {
        lemma_poll_delay_increases(k, 11);
    } else if k == 11 {
    } else if k == 12 {
    } else if k > 13 {
        lemma_poll_delay_increases(13, k);
    }
}

} // verus!
