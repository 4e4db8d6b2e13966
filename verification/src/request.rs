//! What is asked of the controller: the register, named by its key, and whether it is
//! read or written.

use vstd::prelude::*;
use vstd::string::StringSliceAdditionalSpecFns;
use crate::port::SMC_KEY_NAME_LEN;

verus! {

/// Value that asks for a read where a value to write could stand.
pub const CMD_READ_ONLY: i32 = -1;

/// The key of a register: four bytes.
#[derive(Debug, Clone, Copy, PartialEq, Eq)]
pub struct Code(pub [u8; SMC_KEY_NAME_LEN]);

impl Code {
    /// Takes the key from its name. A name is a key where it is four bytes long, and
    /// its bytes are then the key.
    pub fn from_str(s: &str) -> (r: Result<Code, String>)
        ensures
            match r {
                Ok(code) => s.spec_bytes().len() == 4 && code.0@ == s.spec_bytes(),
                Err(e) => s.spec_bytes().len() != 4 && e@ == "invalid code length"@,
            },
    {
        if s.len() != 4 {
            return Err("invalid code length".to_owned());
        }
        let bytes = s.as_bytes();
        let array: [u8; SMC_KEY_NAME_LEN] = [bytes[0], bytes[1], bytes[2], bytes[3]];
        assert(array@ == s.spec_bytes());
        Ok(Code(array))
    }
}

/// What to do with a register.
#[derive(Debug, Clone, Copy, PartialEq, Eq)]
pub enum Request {
    /// Read the register.
    Read,
    /// Write this value to the register.
    Write(i32),
}

impl Request {
    /// The request that the value given with a key stands for: `CMD_READ_ONLY` asks
    /// for a read, a value from 0 to 100 is written, and anything else asks for
    /// nothing.
    pub fn from_value(val: i32) -> (r: Option<Request>)
        ensures
            val == CMD_READ_ONLY ==> r == Some(Request::Read),
            0 <= val <= 100 ==> r == Some(Request::Write(val)),
            val != CMD_READ_ONLY && !(0 <= val <= 100) ==> r is None,
    {
        if val == CMD_READ_ONLY {
            Some(Request::Read)
        } else if 0 <= val && val <= 100 {
            Some(Request::Write(val))
        } else {
            None
        }
    }
}

} // verus!
