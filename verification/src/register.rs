//! What a register holds: the descriptor that says how long and of what type its data
//! is, and the data as it is shown.

use vstd::prelude::*;
use crate::port::SMC_KEY_TYPE_LEN;
use crate::text::{bracketed, decimal, push_bracketed, push_decimal};

verus! {

/// The type descriptor of a register, as the type query returns it in six bytes.
#[derive(Debug, PartialEq, Eq)]
pub struct SmcData {
    /// Number of data bytes the register holds.
    pub data_len: u8,
    /// Tag that names the type of the data.
    pub data_type: [u8; SMC_KEY_TYPE_LEN],
    pub flags: u8,
}

impl SmcData {
    /// Takes the six bytes of a type query apart.
    pub fn from_bytes(bytes: [u8; 6]) -> (data: SmcData)
        ensures
            data.data_len == bytes[0],
            data.data_type@ == bytes@.subrange(1, 5),
            data.flags == bytes[5],
    {
        let data_type: [u8; SMC_KEY_TYPE_LEN] = [bytes[1], bytes[2], bytes[3], bytes[4]];
        assert(data_type@ == bytes@.subrange(1, 5));
        SmcData { data_len: bytes[0], data_type, flags: bytes[5] }
    }
}

/// The data of a register as it is shown: a register of one byte shows as a number,
/// any other as the sequence of its bytes.
#[derive(Debug, PartialEq, Eq)]
pub enum DisplayedValue {
    Scalar(u8),
    Bytes(Vec<u8>),
}

impl DisplayedValue {
    /// The data bytes that are shown.
    pub open spec fn payload(self) -> Seq<u8> {
        match self {
            DisplayedValue::Scalar(byte) => seq![byte],
            DisplayedValue::Bytes(bytes) => bytes@,
        }
    }

    /// The value as text: a scalar as a decimal number, a sequence as a list in square
    /// brackets.
    pub open spec fn text(self) -> Seq<char> {
        match self {
            DisplayedValue::Scalar(byte) => decimal(byte as nat),
            DisplayedValue::Bytes(bytes) => bracketed(bytes@),
        }
    }

    /// Writes the value out.
    pub fn render(&self) -> (text: String)
        ensures
            text@ == self.text(),
    {
        let mut out = String::new();
        match self {
            DisplayedValue::Scalar(byte) => {
                push_decimal(&mut out, *byte as usize);
            },
            DisplayedValue::Bytes(bytes) => {
                push_bracketed(&mut out, bytes.as_slice());
            },
        }
        assert(out@ == self.text());
        out
    }

    /// Chooses how `data` is shown by its length.
    pub fn new(data: Vec<u8>) -> (shown: DisplayedValue)
        ensures
            shown.payload() == data@,
            shown is Scalar <==> data@.len() == 1,
    {
        if data.len() == 1 {
            DisplayedValue::Scalar(data[0])
        } else {
            DisplayedValue::Bytes(data)
        }
    }
}

} // verus!
