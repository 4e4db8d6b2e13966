//! Frames: a command, a register key and a length, followed by the data bytes in one
//! direction; and the two register operations built from them.

use vstd::prelude::*;
use crate::error::SmcError;
use crate::handshake::{DefaultSmcRw, SmcPrimitive};
use crate::history::{
    all_succeeded, carries_out, completed, in_step, leading, lemma_run_grows,
    read_error, read_script, received, received_len, since, write_error, write_script, Handshake,
};
use crate::port::{
    IoPortRw, SMC_CMD_PORT, SMC_DATA_PORT, SMC_GET_KEY_TYPE_CMD, SMC_KEY_NAME_LEN, SMC_READ_CMD,
    SMC_WRITE_CMD,
};
use crate::register::{DisplayedValue, SmcData};

verus! {

/// Frames and register operations, for anything that can make the primitive handshakes.
pub trait SmcOperation: SmcPrimitive {
    /// Runs a read frame that fills `buf`. A buffer of more than 255 bytes is refused
    /// before anything is sent. Otherwise the command, the key and the length of `buf`
    /// are sent, and each byte of `buf` is waited for and received in turn. The frame
    /// ends at the first handshake that fails; the bytes received until then stay in
    /// `buf`, and the rest of `buf` is left as it was.
    fn read_smc(
        &mut self,
        cmd: u8,
        key: [u8; SMC_KEY_NAME_LEN],
        buf: &mut [u8],
    ) -> (r: Result<i32, SmcError>)
        requires
            old(self).inv(),
        ensures
            final(self).inv(),
            old(self).history().is_prefix_of(final(self).history()),
            final(buf)@.len() == old(buf)@.len(),
            old(buf)@.len() > 255 ==> {
                &&& r == Err::<i32, SmcError>(SmcError::DataLenLimit)
                &&& final(self).history() == old(self).history()
                &&& final(buf)@ == old(buf)@
            },
            old(buf)@.len() <= 255 ==> {
                let done = since(old(self).history(), final(self).history());
                let script = read_script(cmd, key@, old(buf)@.len());
                &&& carries_out(done, script)
                &&& r == (if completed(done, script) {
                    Ok::<i32, SmcError>(0i32)
                } else {
                    Err::<i32, SmcError>(read_error(done, key))
                })
                &&& final(buf)@ == received(done) + old(buf)@.skip(received_len(done) as int)
            },
    {
        let len: usize = buf.len();
        if len > 255 {
            return Err(SmcError::DataLenLimit);
        }
        let ghost before = self.history();
        let ghost script = read_script(cmd, key@, len as nat);
        let ghost mut made: Seq<Handshake> = Seq::empty();

        let sent = self.send_byte(cmd, SMC_CMD_PORT);
        proof {
            assert(since(before + made, self.history()) == seq![self.history().last()]);
            lemma_run_grows(before, made, self.history(), script);
            made = since(before, self.history());
        }
        if sent.is_err() {
            return Err(SmcError::ReadArg { key });
        }
        let sent = self.send_argument(key);
        proof {
            lemma_run_grows(before, made, self.history(), script);
            made = since(before, self.history());
        }
        if sent.is_err() {
            return Err(SmcError::ReadArg { key });
        }
        let sent = self.send_byte(len as u8, SMC_DATA_PORT);
        proof {
            assert(since(before + made, self.history()) == seq![self.history().last()]);
            lemma_run_grows(before, made, self.history(), script);
            made = since(before, self.history());
        }
        if sent.is_err() {
            return Err(SmcError::ReadLen { key });
        }
        let mut i: usize = 0;
        while i < len
            invariant
                before == old(self).history(),
                script == read_script(cmd, key@, len as nat),
                len == old(buf)@.len(),
                len == buf@.len(),
                len <= 255,
                i <= len,
                self.inv(),
                self.history() == before + made,
                made == since(before, self.history()),
                made.len() == 6 + 2 * i,
                in_step(made, script),
                all_succeeded(made),
                buf@ == received(made) + old(buf)@.skip(i as int),
            decreases len - i,
        {
            let ghost started = made;
            let ready = self.wait_read();
            proof {
                assert(since(before + made, self.history()) == seq![self.history().last()]);
                lemma_run_grows(before, made, self.history(), script);
                made = since(before, self.history());
                assert(received(made) == received(started));
            }
            if ready == -1 {
                return Err(SmcError::ReadData { key, index: i });
            }
            let got = self.recv_byte();
            let value: u8 = got.unwrap();
            proof {
                assert(since(before + made, self.history()) == seq![self.history().last()]);
                lemma_run_grows(before, made, self.history(), script);
                made = since(before, self.history());
                assert(received(made) == received(started).push(value));
            }
            buf[i] = value;
            i = i + 1;
            proof {
                assert(buf@ == received(made) + old(buf)@.skip(i as int));
            }
        }
        assert(old(buf)@.skip(len as int) == Seq::<u8>::empty());
        Ok(0)
    }

    /// Runs a write frame that sends `buf`. A buffer of more than 255 bytes is refused
    /// before anything is sent. Otherwise the command, the key and the length of `buf`
    /// are sent, and then each byte of `buf` in turn. The frame ends at the first
    /// handshake that fails; a data byte that fails gives the error of its send.
    fn write_smc(
        &mut self,
        cmd: u8,
        key: [u8; SMC_KEY_NAME_LEN],
        buf: &[u8],
    ) -> (r: Result<i32, SmcError>)
        requires
            old(self).inv(),
        ensures
            final(self).inv(),
            old(self).history().is_prefix_of(final(self).history()),
            buf@.len() > 255 ==> {
                &&& r == Err::<i32, SmcError>(SmcError::DataLenLimit)
                &&& final(self).history() == old(self).history()
            },
            buf@.len() <= 255 ==> {
                let done = since(old(self).history(), final(self).history());
                let script = write_script(cmd, key@, buf@);
                &&& carries_out(done, script)
                &&& r == (if completed(done, script) {
                    Ok::<i32, SmcError>(0i32)
                } else {
                    Err::<i32, SmcError>(write_error(done, key))
                })
            },
    {
        let len: usize = buf.len();
        if len > 255 {
            return Err(SmcError::DataLenLimit);
        }
        let ghost before = self.history();
        let ghost script = write_script(cmd, key@, buf@);
        let ghost mut made: Seq<Handshake> = Seq::empty();

        let sent = self.send_byte(cmd, SMC_CMD_PORT);
        proof {
            assert(since(before + made, self.history()) == seq![self.history().last()]);
            lemma_run_grows(before, made, self.history(), script);
            made = since(before, self.history());
        }
        if sent.is_err() {
            return Err(SmcError::WriteArg { key });
        }
        let sent = self.send_argument(key);
        proof {
            lemma_run_grows(before, made, self.history(), script);
            made = since(before, self.history());
        }
        if sent.is_err() {
            return Err(SmcError::WriteArg { key });
        }
        let sent = self.send_byte(len as u8, SMC_DATA_PORT);
        proof {
            assert(since(before + made, self.history()) == seq![self.history().last()]);
            lemma_run_grows(before, made, self.history(), script);
            made = since(before, self.history());
        }
        if sent.is_err() {
            return Err(SmcError::WriteLen { key });
        }
        let mut i: usize = 0;
        while i < len
            invariant
                before == old(self).history(),
                script == write_script(cmd, key@, buf@),
                len == buf@.len(),
                len <= 255,
                i <= len,
                self.inv(),
                self.history() == before + made,
                made == since(before, self.history()),
                made.len() == 6 + i,
                in_step(made, script),
                all_succeeded(made),
            decreases len - i,
        {
            let sent = self.send_byte(buf[i], SMC_DATA_PORT);
            proof {
                assert(since(before + made, self.history()) == seq![self.history().last()]);
                lemma_run_grows(before, made, self.history(), script);
                made = since(before, self.history());
            }
            match sent {
                Ok(_) => {},
                Err(e) => {
                    return Err(e);
                },
            }
            i = i + 1;
        }
        Ok(0)
    }

    /// Reads a register. A type query for six bytes gives the descriptor of the
    /// register; a read frame for as many bytes as the descriptor says gives its data.
    /// The failure of either frame is the failure of the operation.
    fn read(&mut self, reg: [u8; SMC_KEY_NAME_LEN]) -> (r: Result<DisplayedValue, SmcError>)
        requires
            old(self).inv(),
        ensures
            final(self).inv(),
            old(self).history().is_prefix_of(final(self).history()),
            ({
                let done = since(old(self).history(), final(self).history());
                let query = leading(done, 18);
                let query_script = read_script(SMC_GET_KEY_TYPE_CMD, reg@, 6);
                &&& carries_out(query, query_script)
                &&& !completed(query, query_script) ==> {
                    &&& done == query
                    &&& r == Err::<DisplayedValue, SmcError>(read_error(query, reg))
                }
                &&& completed(query, query_script) ==> {
                    let data_len = received(query)[0];
                    let fetch = done.skip(18);
                    let fetch_script = read_script(SMC_READ_CMD, reg@, data_len as nat);
                    &&& carries_out(fetch, fetch_script)
                    &&& !completed(fetch, fetch_script) ==> r == Err::<DisplayedValue, SmcError>(
                        read_error(fetch, reg),
                    )
                    &&& completed(fetch, fetch_script) ==> {
                        &&& r matches Ok(shown)
                        &&& shown.payload() == received(fetch)
                        &&& shown is Scalar <==> data_len == 1
                    }
                }
            }),
    {
        let ghost before = self.history();
        let mut descriptor: [u8; 6] = [0u8; 6];
        match self.read_smc(SMC_GET_KEY_TYPE_CMD, reg, &mut descriptor) {
            Ok(_) => {},
            Err(e) => {
                return Err(e);
            },
        }
        let ghost queried = self.history();
        let smc_data = SmcData::from_bytes(descriptor);
        let mut data: Vec<u8> = vec![0u8; smc_data.data_len as usize];
        let fetched = self.read_smc(SMC_READ_CMD, reg, data.as_mut_slice());
        proof {
            let query = since(before, queried);
            let fetch = since(queried, self.history());
            let done = since(before, self.history());
            assert(done == query + fetch);
            assert(leading(done, 18) == query);
            assert(done.skip(18) == fetch);
        }
        match fetched {
            Ok(_) => Ok(DisplayedValue::new(data)),
            Err(e) => Err(e),
        }
    }

    /// Writes one byte to a register. A value that does not fit in one byte is refused
    /// before anything is sent.
    fn write(&mut self, reg: [u8; SMC_KEY_NAME_LEN], val: i32) -> (r: Result<(), SmcError>)
        requires
            old(self).inv(),
        ensures
            final(self).inv(),
            old(self).history().is_prefix_of(final(self).history()),
            !(0 <= val <= 255) ==> {
                &&& r == Err::<(), SmcError>(SmcError::InvalidArg)
                &&& final(self).history() == old(self).history()
            },
            0 <= val <= 255 ==> {
                let done = since(old(self).history(), final(self).history());
                let script = write_script(SMC_WRITE_CMD, reg@, seq![val as u8]);
                &&& carries_out(done, script)
                &&& r == (if completed(done, script) {
                    Ok::<(), SmcError>(())
                } else {
                    Err::<(), SmcError>(write_error(done, reg))
                })
            },
    {
        if val < 0 || val > 255 {
            return Err(SmcError::InvalidArg);
        }
        let buf: [u8; 1] = [val as u8];
        assert(buf@ == seq![val as u8]);
        match self.write_smc(SMC_WRITE_CMD, reg, &buf) {
            Ok(_) => Ok(()),
            Err(e) => Err(e),
        }
    }
}

impl<T: IoPortRw> SmcOperation for DefaultSmcRw<T> {
}

} // verus!
