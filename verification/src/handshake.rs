//! Byte handshakes: sending a byte until the controller takes it, waiting until it has a
//! byte to give, and receiving that byte.

use vstd::prelude::*;
use crate::error::SmcError;
use crate::history::{
    all_succeeded, argument_result, argument_script, carries_out, in_step,
    lemma_port_traffic_add, lemma_port_traffic_push, port_traffic, send_accesses, send_result, since, wait_accesses,
    Handshake, Step,
};
use crate::port::{
    lemma_poll_delay_ceiling, poll_delay, poll_limit, read_ready, send_acked, IoPortRw,
    PortAccess, Recorded, SMC_CMD_PORT, SMC_DATA_PORT, SMC_KEY_NAME_LEN, SMC_MAX_WAIT, SMC_MIN_WAIT,
    SMC_RETRY_WAIT,
};

verus! {

/// The primitive handshakes with the controller. `history` is the ghost record of the
/// handshakes made so far, oldest first; each method appends the handshake it makes.
pub trait SmcPrimitive: Sized {
    type IoPort: IoPortRw;

    /// The handshakes made so far.
    spec fn history(&self) -> Seq<Handshake>;

    /// What holds of the state between calls: `new` establishes it and every method
    /// keeps it.
    spec fn inv(&self) -> bool;

    /// Takes the transport. No handshake has been made yet.
    fn new(io_port_rw: Self::IoPort) -> (smc: Self)
        ensures
            smc.inv(),
            smc.history() == Seq::<Handshake>::empty(),
    ;

    /// Polls the command port until the controller has a byte to give. Returns 0 when
    /// it has, and -1 when the last poll below the ceiling still did not show one.
    fn wait_read(&mut self) -> (r: i32)
        requires
            old(self).inv(),
        ensures
            final(self).inv(),
            final(self).history() == old(self).history().push(final(self).history().last()),
            final(self).history().last().step() == Step::Wait,
            final(self).history().last().valid(),
            r == (if final(self).history().last().succeeded() { 0i32 } else { -1i32 }),
    ;

    /// Sends `cmd` to `port` and polls the command port until the controller has taken
    /// it. The delay doubles from poll to poll. After a poll that shows the controller
    /// busy nothing is sent; after one that shows the byte neither taken nor in work it
    /// is sent again before the next poll. Fails, with the last status seen, when the
    /// last poll below the ceiling still does not show the byte as taken.
    fn send_byte(&mut self, cmd: u8, port: u16) -> (r: Result<i32, SmcError>)
        requires
            old(self).inv(),
        ensures
            final(self).inv(),
            final(self).history() == old(self).history().push(final(self).history().last()),
            final(self).history().last().step() == (Step::Send { value: cmd, port }),
            final(self).history().last().valid(),
            r == send_result(final(self).history().last()),
    ;

    /// Sends the four bytes of `key` to the data port in order and stops at the first
    /// that fails, which it reports with its place in the key.
    fn send_argument(
        &mut self,
        key: [u8; SMC_KEY_NAME_LEN],
    ) -> (r: Result<(), (usize, SmcError)>)
        requires
            old(self).inv(),
        ensures
            final(self).inv(),
            old(self).history().is_prefix_of(final(self).history()),
            carries_out(since(old(self).history(), final(self).history()), argument_script(key@)),
            r == argument_result(since(old(self).history(), final(self).history())),
    ;

    /// Reads one byte from the data port.
    fn recv_byte(&mut self) -> (r: Result<u8, ()>)
        requires
            old(self).inv(),
        ensures
            final(self).inv(),
            r is Ok,
            final(self).history() == old(self).history().push(Handshake::Recv { value: r->Ok_0 }),
    ;
}

/// The handshakes over a port transport `T`. Besides the record of the handshakes it
/// keeps the record of the port accesses, and `inv` says how the two agree.
pub struct DefaultSmcRw<T: IoPortRw> {
    port: Recorded<T>,
    history: Ghost<Seq<Handshake>>,
}

impl<T: IoPortRw> DefaultSmcRw<T> {
    /// Every port access made through the transport so far, oldest first.
    pub closed spec fn port_log(&self) -> Seq<PortAccess> {
        self.port.log()
    }

    /// The ports are accessed for handshakes only: what is added to the port record
    /// between two states is the traffic of the handshakes made between them, and
    /// where no handshake was made, no port was accessed.
    pub proof fn lemma_accesses_are_handshakes(&self, later: &Self)
        requires
            self.inv(),
            later.inv(),
            self.history().is_prefix_of(later.history()),
        ensures
            later.port_log() == self.port_log() + port_traffic(
                since(self.history(), later.history()),
            ),
            later.history() == self.history() ==> later.port_log() == self.port_log(),
    {
        let made = since(self.history(), later.history());
        assert(later.history() == self.history() + made);
        lemma_port_traffic_add(self.history(), made);
    }

    /// The transport as it stands. Every handshake may change it.
    pub closed spec fn transport(&self) -> T {
        self.port.transport()
    }

    /// Gives the transport back, as the handshakes made through it have left it.
    pub fn into_inner(self) -> (io_port_rw: T)
        ensures
            io_port_rw == self.transport(),
    {
        self.port.into_inner()
    }
}

impl<T: IoPortRw> SmcPrimitive for DefaultSmcRw<T> {
    type IoPort = T;

    closed spec fn history(&self) -> Seq<Handshake> {
        self.history@
    }

    /// The port accesses that were made are those of the handshakes on record.
    open spec fn inv(&self) -> bool {
        self.port_log() == port_traffic(self.history())
    }

    fn new(io_port_rw: T) -> (smc: Self)
        ensures
            smc.transport() == io_port_rw,
            smc.port_log() == Seq::<PortAccess>::empty(),
    {
        DefaultSmcRw { port: Recorded::new(io_port_rw), history: Ghost(Seq::empty()) }
    }

    fn wait_read(&mut self) -> (r: i32) {
        let mut us: u32 = SMC_MIN_WAIT;
        let ghost before = self.history@;
        let ghost log = self.port.log();
        let ghost mut polls: Seq<u8> = Seq::empty();
        while us < SMC_MAX_WAIT
            invariant
                before == old(self).history@,
                self.history@ == before,
                self.port.log() == log + wait_accesses(polls),
                log == port_traffic(before),
                us == poll_delay(polls.len()),
                polls.len() <= poll_limit(),
                forall|i: int| 0 <= i < polls.len() ==> !read_ready(#[trigger] polls[i]),
            decreases poll_limit() - polls.len(),
        {
            proof {
                lemma_poll_delay_ceiling(polls.len());
            }
            let status = self.port.inb(us, SMC_CMD_PORT);
            proof {
                assert(wait_accesses(polls.push(status)) == wait_accesses(polls).push(
                    PortAccess::In { us, port: SMC_CMD_PORT, value: status },
                ));
                polls = polls.push(status);
            }
            if status & 0x01 == 0x01 {
                proof {
                    let done = Handshake::Wait { polls };
                    self.history@ = before.push(done);
                    lemma_port_traffic_push(before, done);
                    assert(before.push(done).last() == done);
                }
                return 0;
            }
            assert(us << 1 == 2 * us) by (bit_vector)
                requires
                    us < 0x20000u32,
            ;
            us = us << 1;
        }
        proof {
            lemma_poll_delay_ceiling(polls.len());
            let done = Handshake::Wait { polls };
            self.history@ = before.push(done);
            lemma_port_traffic_push(before, done);
            assert(before.push(done).last() == done);
        }
        -1
    }

    fn send_byte(&mut self, cmd: u8, port: u16) -> (r: Result<i32, SmcError>) {
        let mut status: u8 = 0;
        let mut us: u32 = SMC_MIN_WAIT;
        let ghost before = self.history@;
        let ghost log = self.port.log();
        let ghost mut polls: Seq<u8> = Seq::empty();
        self.port.outb(0, cmd, port);
        proof {
            let first = PortAccess::Out { us: 0, value: cmd, port };
            assert(polls.len() == 0);
            assert(send_accesses(cmd, port, polls) == seq![first]);
            assert(self.port.log() == log.push(first));
            assert(log.push(first) == log + seq![first]);
        }
        while us < SMC_MAX_WAIT
            invariant_except_break
                us == poll_delay(polls.len()),
                us < SMC_MAX_WAIT,
            invariant
                before == old(self).history@,
                self.history@ == before,
                log == port_traffic(before),
                self.port.log() == log + send_accesses(cmd, port, polls),
                polls.len() <= poll_limit(),
                forall|i: int| 0 <= i < polls.len() ==> !send_acked(#[trigger] polls[i]),
            ensures
                polls.len() == poll_limit(),
                status == polls.last(),
            decreases poll_limit() - polls.len(),
        {
            proof {
                lemma_poll_delay_ceiling(polls.len());
            }
            status = self.port.inb(us, SMC_CMD_PORT);
            proof {
                assert(polls.push(status).drop_last() == polls);
                polls = polls.push(status);
            }
            if status & 0x06 == 0x04 {
                proof {
                    let done = Handshake::Send { value: cmd, port, polls };
                    self.history@ = before.push(done);
                    lemma_port_traffic_push(before, done);
                    assert(before.push(done).last() == done);
                }
                return Ok(0);
            }
            assert(us << 1 == 2 * us) by (bit_vector)
                requires
                    us < 0x20000u32,
            ;
            if us << 1 >= SMC_MAX_WAIT {
                break;
            }
            if status & 0x06 != 0x02 {
                self.port.outb(SMC_RETRY_WAIT, cmd, port);
            }
            us = us << 1;
        }
        proof {
            let done = Handshake::Send { value: cmd, port, polls };
            self.history@ = before.push(done);
            lemma_port_traffic_push(before, done);
            assert(before.push(done).last() == done);
        }
        Err(SmcError::SendByte { cmd, port, status })
    }

    fn send_argument(
        &mut self,
        key: [u8; SMC_KEY_NAME_LEN],
    ) -> (r: Result<(), (usize, SmcError)>) {
        let ghost before = self.history@;
        let mut idx: usize = 0;
        while idx < 4
            invariant
                before == old(self).history@,
                self.inv(),
                idx <= 4,
                self.history@.len() == before.len() + idx,
                before.is_prefix_of(self.history@),
                in_step(since(before, self.history@), argument_script(key@)),
                all_succeeded(since(before, self.history@)),
            decreases 4 - idx,
        {
            let ghost so_far = self.history@;
            let sent = self.send_byte(key[idx], SMC_DATA_PORT);
            proof {
                let done = self.history@.last();
                assert(since(before, self.history@) == since(before, so_far).push(done));
            }
            match sent {
                Ok(_) => {},
                Err(e) => {
                    proof {
                        let made = since(before, self.history@);
                        assert(made.drop_last() == since(before, so_far));
                    }
                    return Err((idx, e));
                },
            }
            idx = idx + 1;
        }
        proof {
            let made = since(before, self.history@);
            assert(made.drop_last().len() == 3);
            assert(forall|i: int| 0 <= i < 3 ==> made.drop_last()[i] == made[i]);
        }
        Ok(())
    }

    fn recv_byte(&mut self) -> (r: Result<u8, ()>) {
        let ghost before = self.history@;
        let ghost log = self.port.log();
        let value = self.port.inb(0, SMC_DATA_PORT);
        proof {
            let done = Handshake::Recv { value };
            self.history@ = before.push(done);
            lemma_port_traffic_push(before, done);
            assert(log.push(PortAccess::In { us: 0, port: SMC_DATA_PORT, value }) == log
                + done.accesses());
        }
        Ok(value)
    }
}

} // verus!
