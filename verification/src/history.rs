//! The ghost record of the handshakes made with the controller, and what it says about
//! the traffic on the ports.

use vstd::prelude::*;
use crate::error::SmcError;
use crate::port::{
    lemma_poll_delay_ceiling, lemma_poll_delay_positive, poll_delay, poll_limit, read_ready,
    send_acked, send_busy, PortAccess, SMC_CMD_PORT, SMC_DATA_PORT, SMC_MAX_WAIT, SMC_MIN_WAIT,
    SMC_RETRY_WAIT,
};

verus! {

/// What a handshake sets out to do.
pub enum Step {
    /// Send `value` to `port` and poll until the controller has taken it.
    Send { value: u8, port: u16 },
    /// Poll until the controller has a byte to give.
    Wait,
    /// Read one byte from the data port.
    Recv,
}

/// One handshake as it went: what was to be done and the bytes the controller answered
/// with. `polls` holds the status bytes in the order in which they were read.
pub enum Handshake {
    /// `value` was sent to `port`, and the polls for its being taken saw `polls`.
    Send { value: u8, port: u16, polls: Seq<u8> },
    /// The polls for a byte to be ready saw `polls`.
    Wait { polls: Seq<u8> },
    /// The data port gave `value`.
    Recv { value: u8 },
}

/// The polls of one handshake: at least one and at most `poll_limit()`, none but the
/// last shows the awaited status, and polling stops short of the limit only when the
/// last one shows it.
pub open spec fn polled_until(polls: Seq<u8>, awaited: spec_fn(u8) -> bool) -> bool {
    &&& 1 <= polls.len() <= poll_limit()
    &&& forall|i: int| 0 <= i < polls.len() - 1 ==> !awaited(#[trigger] polls[i])
    &&& !awaited(polls.last()) ==> polls.len() == poll_limit()
}

/// After poll number `k` showed `status`, the byte is sent again: the controller neither
/// took it nor is busy with it, and another poll is still to come.
pub open spec fn resent_after(k: nat, status: u8) -> bool {
    &&& !send_acked(status)
    &&& !send_busy(status)
    &&& k + 1 < poll_limit()
}

/// The port accesses of the polls of a wait: poll `i` reads the command port after
/// `poll_delay(i)` microseconds.
pub open spec fn wait_accesses(polls: Seq<u8>) -> Seq<PortAccess> {
    Seq::new(
        polls.len(),
        |i: int| PortAccess::In { us: poll_delay(i as nat) as u32, port: SMC_CMD_PORT, value: polls[i] },
    )
}

/// The port accesses of sending `value` to `port`: the byte is written without delay,
/// then each poll reads the command port after its delay and, where `resent_after`
/// holds, is followed by writing the byte again after `SMC_RETRY_WAIT` microseconds.
pub open spec fn send_accesses(value: u8, port: u16, polls: Seq<u8>) -> Seq<PortAccess>
    decreases polls.len(),
{
    if polls.len() == 0 {
        seq![PortAccess::Out { us: 0, value, port }]
    } else {
        let k = (polls.len() - 1) as nat;
        let poll = PortAccess::In {
            us: poll_delay(k) as u32,
            port: SMC_CMD_PORT,
            value: polls.last(),
        };
        let before = send_accesses(value, port, polls.drop_last()).push(poll);
        if resent_after(k, polls.last()) {
            before.push(PortAccess::Out { us: SMC_RETRY_WAIT, value, port })
        } else {
            before
        }
    }
}

impl Handshake {
    /// What the handshake set out to do.
    pub open spec fn step(self) -> Step {
        match self {
            Handshake::Send { value, port, polls } => Step::Send { value, port },
            Handshake::Wait { polls } => Step::Wait,
            Handshake::Recv { value } => Step::Recv,
        }
    }

    /// The handshake polled as the protocol prescribes.
    pub open spec fn valid(self) -> bool {
        match self {
            Handshake::Send { value, port, polls } => polled_until(polls, |s: u8| send_acked(s)),
            Handshake::Wait { polls } => polled_until(polls, |s: u8| read_ready(s)),
            Handshake::Recv { value } => true,
        }
    }

    /// The handshake reached what it set out to do.
    pub open spec fn succeeded(self) -> bool {
        match self {
            Handshake::Send { value, port, polls } => send_acked(polls.last()),
            Handshake::Wait { polls } => read_ready(polls.last()),
            Handshake::Recv { value } => true,
        }
    }

    /// The port accesses the handshake consists of, in order.
    pub open spec fn accesses(self) -> Seq<PortAccess> {
        match self {
            Handshake::Send { value, port, polls } => send_accesses(value, port, polls),
            Handshake::Wait { polls } => wait_accesses(polls),
            Handshake::Recv { value } => seq![
                PortAccess::In { us: 0, port: SMC_DATA_PORT, value },
            ],
        }
    }
}

/// The port accesses of a sequence of handshakes, one handshake after the other.
pub open spec fn port_traffic(history: Seq<Handshake>) -> Seq<PortAccess>
    decreases history.len(),
{
    if history.len() == 0 {
        Seq::empty()
    } else {
        port_traffic(history.drop_last()) + history.last().accesses()
    }
}

/// The traffic of a record grows by the accesses of the handshake that is appended.
pub proof fn lemma_port_traffic_push(history: Seq<Handshake>, done: Handshake)
    ensures
        port_traffic(history.push(done)) == port_traffic(history) + done.accesses(),
{
    assert(history.push(done).drop_last() == history);
}

/// The traffic of two records, one after the other, is the traffic of the first followed
/// by that of the second.
pub proof fn lemma_port_traffic_add(first: Seq<Handshake>, second: Seq<Handshake>)
    ensures
        port_traffic(first + second) == port_traffic(first) + port_traffic(second),
    decreases second.len(),
{
    if second.len() == 0 {
        assert(first + second == first);
    } else {
        lemma_port_traffic_add(first, second.drop_last());
        assert((first + second).drop_last() == first + second.drop_last());
    }
}

/// The handshakes of `after` that `before` does not have yet.
pub open spec fn since(before: Seq<Handshake>, after: Seq<Handshake>) -> Seq<Handshake> {
    after.skip(before.len() as int)
}

/// Each handshake of `done` is the one that `script` calls for at its place, and polled
/// as the protocol prescribes.
pub open spec fn in_step(done: Seq<Handshake>, script: Seq<Step>) -> bool {
    &&& done.len() <= script.len()
    &&& forall|i: int|
        0 <= i < done.len() ==> (#[trigger] done[i]).valid() && done[i].step() == script[i]
}

/// Every handshake of `done` succeeded.
pub open spec fn all_succeeded(done: Seq<Handshake>) -> bool {
    forall|i: int| 0 <= i < done.len() ==> (#[trigger] done[i]).succeeded()
}

/// `done` is a run of `script`: its handshakes are those of the script in order, none
/// but the last failed, and it ends before the script does only where the last failed.
pub open spec fn carries_out(done: Seq<Handshake>, script: Seq<Step>) -> bool {
    &&& in_step(done, script)
    &&& all_succeeded(done.drop_last())
    &&& done.len() < script.len() ==> done.len() > 0 && !done.last().succeeded()
}

/// `done` went through all of `script` without a failure.
pub open spec fn completed(done: Seq<Handshake>, script: Seq<Step>) -> bool {
    done.len() == script.len() && all_succeeded(done)
}

/// The error of a send that failed: the byte, the port and the last status seen.
pub open spec fn send_error(done: Handshake) -> SmcError
    recommends
        done is Send,
{
    match done {
        Handshake::Send { value, port, polls } => SmcError::SendByte {
            cmd: value,
            port,
            status: polls.last(),
        },
        _ => SmcError::SendByte { cmd: 0, port: 0, status: 0 },
    }
}

/// What sending a byte returns for the handshake that was made.
pub open spec fn send_result(done: Handshake) -> Result<i32, SmcError> {
    if done.succeeded() {
        Ok(0i32)
    } else {
        Err(send_error(done))
    }
}

/// The script of sending a register key: its four bytes go to the data port in order.
pub open spec fn argument_script(key: Seq<u8>) -> Seq<Step> {
    Seq::new(4, |i: int| Step::Send { value: key[i], port: SMC_DATA_PORT })
}

/// What sending a register key returns for the handshakes that were made: the place of
/// the byte that failed, with the error of its send.
pub open spec fn argument_result(done: Seq<Handshake>) -> Result<(), (usize, SmcError)> {
    if done.len() == 4 && done.last().succeeded() {
        Ok(())
    } else {
        Err(((done.len() - 1) as usize, send_error(done.last())))
    }
}

/// Step number `i` of the opening of a frame: the command goes to the command port,
/// then the four key bytes and the length go to the data port.
pub open spec fn frame_step(cmd: u8, key: Seq<u8>, len: u8, i: int) -> Step {
    if i == 0 {
        Step::Send { value: cmd, port: SMC_CMD_PORT }
    } else if i <= 4 {
        Step::Send { value: key[i - 1], port: SMC_DATA_PORT }
    } else {
        Step::Send { value: len, port: SMC_DATA_PORT }
    }
}

/// The script of a read frame for `len` data bytes: the opening, then for each data
/// byte a wait followed by a receive.
pub open spec fn read_script(cmd: u8, key: Seq<u8>, len: nat) -> Seq<Step> {
    Seq::new(
        6 + 2 * len,
        |i: int|
            if i < 6 {
                frame_step(cmd, key, len as u8, i)
            } else if (i - 6) % 2 == 0 {
                Step::Wait
            } else {
                Step::Recv
            },
    )
}

/// The script of a write frame: the opening, then each data byte is sent to the data
/// port.
pub open spec fn write_script(cmd: u8, key: Seq<u8>, data: Seq<u8>) -> Seq<Step> {
    Seq::new(
        6 + data.len(),
        |i: int|
            if i < 6 {
                frame_step(cmd, key, data.len() as u8, i)
            } else {
                Step::Send { value: data[i - 6], port: SMC_DATA_PORT }
            },
    )
}

/// The number of data bytes that a run of a read frame received.
pub open spec fn received_len(done: Seq<Handshake>) -> nat {
    if done.len() <= 6 {
        0
    } else {
        ((done.len() - 6) / 2) as nat
    }
}

/// The byte that a handshake read from the data port; zero for a handshake that read
/// none.
pub open spec fn received_byte(done: Handshake) -> u8 {
    match done {
        Handshake::Recv { value } => value,
        _ => 0,
    }
}

/// The data bytes that a run of a read frame received, in order.
pub open spec fn received(done: Seq<Handshake>) -> Seq<u8> {
    Seq::new(received_len(done), |j: int| received_byte(done[7 + 2 * j]))
}

/// The error of a run of a read frame that did not complete. It names the phase in
/// which the last handshake failed.
pub open spec fn read_error(done: Seq<Handshake>, key: [u8; 4]) -> SmcError {
    if done.len() <= 5 {
        SmcError::ReadArg { key }
    } else if done.len() == 6 {
        SmcError::ReadLen { key }
    } else {
        SmcError::ReadData { key, index: ((done.len() - 7) / 2) as usize }
    }
}

/// The error of a run of a write frame that did not complete. A data byte that was not
/// taken gives the error of its send.
pub open spec fn write_error(done: Seq<Handshake>, key: [u8; 4]) -> SmcError {
    if done.len() <= 5 {
        SmcError::WriteArg { key }
    } else if done.len() == 6 {
        SmcError::WriteLen { key }
    } else {
        send_error(done.last())
    }
}

/// The first `n` handshakes of `done`, or all of them where there are fewer.
pub open spec fn leading(done: Seq<Handshake>, n: nat) -> Seq<Handshake> {
    if done.len() <= n {
        done
    } else {
        done.take(n as int)
    }
}

/// A run in which nothing failed is carried on by `more`, handshakes that follow the
/// script from where the run stands and of which none but the last failed. The longer
/// run is a run of the script if its last handshake failed, and otherwise again a run
/// in which nothing failed.
pub proof fn lemma_carry_on(made: Seq<Handshake>, more: Seq<Handshake>, script: Seq<Step>)
    requires
        in_step(made, script),
        all_succeeded(made),
        0 < more.len(),
        made.len() + more.len() <= script.len(),
        forall|i: int|
            0 <= i < more.len() ==> (#[trigger] more[i]).valid() && more[i].step() == script[
                made.len() + i],
        all_succeeded(more.drop_last()),
    ensures
        in_step(made + more, script),
        (made + more).last() == more.last(),
        all_succeeded((made + more).drop_last()),
        more.last().succeeded() ==> all_succeeded(made + more),
        !more.last().succeeded() ==> carries_out(made + more, script),
{
    let longer = made + more;
    assert forall|i: int| 0 <= i < longer.len() implies (#[trigger] longer[i]).valid()
        && longer[i].step() == script[i] by {
        if i >= made.len() {
            assert(longer[i] == more[i - made.len()]);
        } else {
            assert(longer[i] == made[i]);
        }
    }
    assert forall|i: int| 0 <= i < longer.len() - 1 implies (#[trigger] longer.drop_last()[
        i]).succeeded() by {
        if i >= made.len() {
            assert(longer[i] == more.drop_last()[i - made.len()]);
        } else {
            assert(longer[i] == made[i]);
        }
    }
    if more.last().succeeded() {
        assert forall|i: int| 0 <= i < longer.len() implies (#[trigger] longer[i]).succeeded() by {
            if i < longer.len() - 1 {
                assert(longer[i] == longer.drop_last()[i]);
            }
        }
    }
}

/// A record stood at `before + made`, where `made` is a run of `script` in which
/// nothing failed, and has grown to `after` by handshakes that follow the script and of
/// which none but the last failed. Then what was made since `before` is `made` with
/// those handshakes: a run of the script if the last of them failed, and otherwise
/// again a run in which nothing failed.
pub proof fn lemma_run_grows(
    before: Seq<Handshake>,
    made: Seq<Handshake>,
    after: Seq<Handshake>,
    script: Seq<Step>,
)
    requires
        in_step(made, script),
        all_succeeded(made),
        (before + made).is_prefix_of(after),
        ({
            let more = since(before + made, after);
            &&& 0 < more.len()
            &&& made.len() + more.len() <= script.len()
            &&& forall|i: int|
                0 <= i < more.len() ==> (#[trigger] more[i]).valid() && more[i].step()
                    == script[made.len() + i]
            &&& all_succeeded(more.drop_last())
        }),
    ensures
        before.is_prefix_of(after),
        after == before + since(before, after),
        since(before, after) == made + since(before + made, after),
        in_step(since(before, after), script),
        after.last().succeeded() ==> all_succeeded(since(before, after)),
        !after.last().succeeded() ==> carries_out(since(before, after), script),
{
    let more = since(before + made, after);
    lemma_carry_on(made, more, script);
    assert(after == (before + made) + more);
    assert(after == before + (made + more));
    assert(since(before, after) == made + more);
}

/// The timing of an access that the protocol allows. The command port is read after a
/// delay from `SMC_MIN_WAIT` up to, but never reaching, `SMC_MAX_WAIT`. The data port is
/// read without delay. A byte is written without delay, or after `SMC_RETRY_WAIT`
/// where it is written again.
pub open spec fn well_timed(access: PortAccess) -> bool {
    match access {
        PortAccess::In { us, port, value } => if port == SMC_CMD_PORT {
            SMC_MIN_WAIT <= us < SMC_MAX_WAIT
        } else {
            port == SMC_DATA_PORT && us == 0
        },
        PortAccess::Out { us, value, port } => us == 0 || us == SMC_RETRY_WAIT,
    }
}

/// The accesses of sending a byte with no more polls than the limit are well timed, and
/// all that is written is that byte to its port.
pub proof fn lemma_send_accesses_well_timed(value: u8, port: u16, polls: Seq<u8>)
    requires
        polls.len() <= poll_limit(),
    ensures
        forall|i: int|
            0 <= i < send_accesses(value, port, polls).len() ==> {
                let access = #[trigger] send_accesses(value, port, polls)[i];
                &&& well_timed(access)
                &&& access matches PortAccess::Out { us, value: written, port: to } ==> written
                    == value && to == port
            },
    decreases polls.len(),
{
    if polls.len() > 0 {
        let k = (polls.len() - 1) as nat;
        lemma_send_accesses_well_timed(value, port, polls.drop_last());
        lemma_poll_delay_ceiling(k);
        lemma_poll_delay_positive(k);
    }
}

/// Every access of a handshake that polled as the protocol prescribes is well timed: no
/// poll waits as long as the ceiling.
pub proof fn lemma_accesses_well_timed(done: Handshake)
    requires
        done.valid(),
    ensures
        forall|i: int| 0 <= i < done.accesses().len() ==> well_timed(#[trigger] done.accesses()[i]),
{
    match done {
        Handshake::Send { value, port, polls } => {
            lemma_send_accesses_well_timed(value, port, polls);
        },
        Handshake::Wait { polls } => {
            assert forall|i: int| 0 <= i < polls.len() implies well_timed(
                #[trigger] wait_accesses(polls)[i],
            ) by {
                lemma_poll_delay_ceiling(i as nat);
                lemma_poll_delay_positive(i as nat);
            }
        },
        Handshake::Recv { value } => {},
    }
}

/// A wait ends ready exactly when the controller shows a byte ready to one of the polls
/// whose delay is below the ceiling. `status_at(us)` is the status that the controller
/// shows to a poll made after `us` microseconds.
pub proof fn lemma_wait_ready_iff_shown(polls: Seq<u8>, status_at: spec_fn(nat) -> u8)
    requires
        (Handshake::Wait { polls }).valid(),
        forall|i: int| 0 <= i < polls.len() ==> polls[i] == status_at(poll_delay(i as nat)),
    ensures
        (Handshake::Wait { polls }).succeeded() <==> exists|k: nat|
            poll_delay(k) < SMC_MAX_WAIT && read_ready(#[trigger] status_at(poll_delay(k))),
{
    let last = (polls.len() - 1) as nat;
    lemma_poll_delay_ceiling(last);
    if read_ready(polls.last()) {
        assert(poll_delay(last) < SMC_MAX_WAIT && read_ready(status_at(poll_delay(last))));
    } else {
        assert forall|k: nat| poll_delay(k) < SMC_MAX_WAIT implies !read_ready(
            #[trigger] status_at(poll_delay(k)),
        ) by {
            lemma_poll_delay_ceiling(k);
            assert(polls[k as int] == status_at(poll_delay(k)));
        }
    }
}

/// Sending a key succeeds exactly when each of its four bytes is taken. When it fails,
/// the place it reports is that of the first byte that was not taken, the error is the
/// one of sending that byte, and no later byte is sent.
pub proof fn lemma_argument_fails_at_first(done: Seq<Handshake>, key: Seq<u8>)
    requires
        key.len() == 4,
        carries_out(done, argument_script(key)),
    ensures
        match argument_result(done) {
            Ok(_) => completed(done, argument_script(key)),
            Err((place, error)) => {
                &&& place < 4
                &&& done.len() == place + 1
                &&& forall|j: int| 0 <= j < place ==> (#[trigger] done[j]).succeeded()
                &&& !done[place as int].succeeded()
                &&& done[place as int].step() == (Step::Send {
                    value: key[place as int],
                    port: SMC_DATA_PORT,
                })
                &&& error == send_error(done[place as int])
            },
        },
{
    assert forall|j: int| 0 <= j < done.len() - 1 implies (#[trigger] done[j]).succeeded() by {
        assert(done[j] == done.drop_last()[j]);
    }
}

/// A read frame that does not complete ends at its first handshake that fails, and its
/// error names the phase of that handshake. The phases come in the order argument,
/// length, data: the argument error means that the command or a key byte was not taken,
/// whatever would have followed; the length error means that the length byte was not
/// taken; and the data error means that a wait ended without a byte ready, and names
/// the place of that byte, which is the number of bytes received before it.
pub proof fn lemma_read_fails_in_phase(done: Seq<Handshake>, cmd: u8, key: [u8; 4], len: nat)
    requires
        len <= 255,
        carries_out(done, read_script(cmd, key@, len)),
        !completed(done, read_script(cmd, key@, len)),
    ensures
        done.len() > 0,
        !done.last().succeeded(),
        forall|i: int| 0 <= i < done.len() - 1 ==> (#[trigger] done[i]).succeeded(),
        match read_error(done, key) {
            SmcError::ReadArg { key: named } => {
                &&& named == key
                &&& done.len() <= 5
                &&& done.last().step() == frame_step(cmd, key@, len as u8, done.len() - 1)
            },
            SmcError::ReadLen { key: named } => {
                &&& named == key
                &&& done.len() == 6
                &&& done.last().step() == (Step::Send { value: len as u8, port: SMC_DATA_PORT })
            },
            SmcError::ReadData { key: named, index } => {
                &&& named == key
                &&& index < len
                &&& done.len() == 7 + 2 * index
                &&& done.last().step() == Step::Wait
                &&& received(done).len() == index
            },
            _ => false,
        },
{
    let script = read_script(cmd, key@, len);
    assert forall|i: int| 0 <= i < done.len() - 1 implies (#[trigger] done[i]).succeeded() by {
        assert(done[i] == done.drop_last()[i]);
    }
    let at = done.len() - 1;
    assert(done[at].step() == script[at]);
    if at >= 6 && (at - 6) % 2 != 0 {
        assert(script[at] == Step::Recv);
    }
}

/// A write frame that does not complete ends at its first handshake that fails. The
/// phases come in the order argument, length, data: the argument error means that the
/// command or a key byte was not taken, the length error that the length byte was not
/// taken, and a data byte that was not taken gives the error of sending that byte.
pub proof fn lemma_write_fails_in_phase(done: Seq<Handshake>, cmd: u8, key: [u8; 4], data: Seq<u8>)
    requires
        data.len() <= 255,
        carries_out(done, write_script(cmd, key@, data)),
        !completed(done, write_script(cmd, key@, data)),
    ensures
        done.len() > 0,
        !done.last().succeeded(),
        forall|i: int| 0 <= i < done.len() - 1 ==> (#[trigger] done[i]).succeeded(),
        match write_error(done, key) {
            SmcError::WriteArg { key: named } => {
                &&& named == key
                &&& done.len() <= 5
                &&& done.last().step() == frame_step(cmd, key@, data.len() as u8, done.len() - 1)
            },
            SmcError::WriteLen { key: named } => {
                &&& named == key
                &&& done.len() == 6
                &&& done.last().step() == (Step::Send {
                    value: data.len() as u8,
                    port: SMC_DATA_PORT,
                })
            },
            SmcError::SendByte { cmd: value, port, status } => {
                &&& done.len() > 6
                &&& done.last() matches Handshake::Send { value: sent, port: to, polls }
                &&& sent == value && value == data[done.len() - 7]
                &&& to == port && port == SMC_DATA_PORT
                &&& status == polls.last()
            },
            _ => false,
        },
{
    let script = write_script(cmd, key@, data);
    assert forall|i: int| 0 <= i < done.len() - 1 implies (#[trigger] done[i]).succeeded() by {
        assert(done[i] == done.drop_last()[i]);
    }
    let at = done.len() - 1;
    assert(done[at].step() == script[at]);
}

} // verus!
