//! The ways in which a handshake, a frame or a register operation fails.

use vstd::prelude::*;
use vstd::string::StringExecFns;
use crate::text::{
    bracketed, decimal, hexadecimal, push_bracketed, push_decimal, push_hexadecimal,
};

verus! {

/// A failure, with what is needed to tell where it happened.
#[derive(Debug, PartialEq, Eq)]
pub enum SmcError {
    /// The controller did not take the byte `cmd` sent to `port`; `status` is the last
    /// status byte that was seen.
    SendByte { cmd: u8, port: u16, status: u8 },
    /// The command or the key of a read frame was not taken.
    ReadArg { key: [u8; 4] },
    /// The length of a read frame was not taken.
    ReadLen { key: [u8; 4] },
    /// The controller had no data byte ready at position `index` of a read frame.
    ReadData { key: [u8; 4], index: usize },
    /// The command or the key of a write frame was not taken.
    WriteArg { key: [u8; 4] },
    /// The length of a write frame was not taken.
    WriteLen { key: [u8; 4] },
    /// The data of a frame is longer than its one length byte can say.
    DataLenLimit,
    /// The value to write does not fit in one byte.
    InvalidArg,
}

impl SmcError {
    /// The message of the error.
    pub open spec fn text(self) -> Seq<char> {
        match self {
            SmcError::SendByte { cmd, port, status } => "send_byte(0x"@ + hexadecimal(cmd as nat)
                + ", 0x"@ + hexadecimal(port as nat) + ") fail: 0x"@ + hexadecimal(
                status as nat,
            ),
            SmcError::ReadArg { key } => bracketed(key@) + ": read arg failed"@,
            SmcError::ReadLen { key } => bracketed(key@) + ": read len failed"@,
            SmcError::ReadData { key, index } => bracketed(key@) + ": read data "@ + decimal(
                index as nat,
            ) + " failed"@,
            SmcError::WriteArg { key } => bracketed(key@) + ": write arg failed"@,
            SmcError::WriteLen { key } => bracketed(key@) + ": write len failed"@,
            SmcError::DataLenLimit => "data len limit exceeded"@,
            SmcError::InvalidArg => "invalid arg"@,
        }
    }

    /// Writes the message of the error out.
    pub fn message(&self) -> (text: String)
        ensures
            text@ == self.text(),
    {
        let mut out = String::new();
        match self {
            SmcError::SendByte { cmd, port, status } => {
                out.append("send_byte(0x");
                push_hexadecimal(&mut out, *cmd as usize);
                out.append(", 0x");
                push_hexadecimal(&mut out, *port as usize);
                out.append(") fail: 0x");
                push_hexadecimal(&mut out, *status as usize);
            },
            SmcError::ReadArg { key } => {
                push_bracketed(&mut out, key);
                out.append(": read arg failed");
            },
            SmcError::ReadLen { key } => {
                push_bracketed(&mut out, key);
                out.append(": read len failed");
            },
            SmcError::ReadData { key, index } => {
                push_bracketed(&mut out, key);
                out.append(": read data ");
                push_decimal(&mut out, *index);
                out.append(" failed");
            },
            SmcError::WriteArg { key } => {
                push_bracketed(&mut out, key);
                out.append(": write arg failed");
            },
            SmcError::WriteLen { key } => {
                push_bracketed(&mut out, key);
                out.append(": write len failed");
            },
            SmcError::DataLenLimit => {
                out.append("data len limit exceeded");
            },
            SmcError::InvalidArg => {
                out.append("invalid arg");
            },
        }
        assert(out@ == self.text());
        out
    }
}

} // verus!
