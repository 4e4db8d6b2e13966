use smc_protocol::port::{
    SMC_CMD_PORT, SMC_DATA_PORT, SMC_GET_KEY_TYPE_CMD, SMC_KEY_NAME_LEN, SMC_KEY_TYPE_LEN,
    SMC_MAX_WAIT, SMC_MIN_WAIT, SMC_RANGE, SMC_READ_CMD, SMC_RETRY_WAIT, SMC_START, SMC_WRITE_CMD,
};
use smc_protocol::request::CMD_READ_ONLY;
use smc_protocol::text::{push_bracketed, push_decimal, push_hexadecimal};
use smc_protocol::{Code, DisplayedValue, Request, SmcData, SmcError};

#[test]
fn ports_and_commands() {
    assert_eq!(0x300, SMC_START);
    assert_eq!(0x20, SMC_RANGE);
    assert_eq!(SMC_START + 0x04, SMC_CMD_PORT);
    assert_eq!(SMC_START, SMC_DATA_PORT);
    assert_eq!(0x13, SMC_GET_KEY_TYPE_CMD);
    assert_eq!(0x10, SMC_READ_CMD);
    assert_eq!(0x11, SMC_WRITE_CMD);
    assert_eq!(16, SMC_MIN_WAIT);
    assert_eq!(256, SMC_RETRY_WAIT);
    assert_eq!(131072, SMC_MAX_WAIT);
    assert_eq!(SMC_MIN_WAIT << 13, SMC_MAX_WAIT);
    assert_eq!(4, SMC_KEY_NAME_LEN);
    assert_eq!(4, SMC_KEY_TYPE_LEN);
    assert_eq!(-1, CMD_READ_ONLY);
}

#[test]
fn code_from_a_name_of_four_bytes() {
    assert_eq!(Ok(Code([b'F', b'0', b'A', b'c'])), Code::from_str("F0Ac"));
    assert_eq!(Ok(Code([0x20, 0x20, 0x20, 0x20])), Code::from_str("    "));
    // Two letters of two bytes each.
    assert_eq!(Ok(Code([0xc3, 0xa9, 0xc3, 0xa8])), Code::from_str("\u{e9}\u{e8}"));
}

#[test]
fn code_from_a_name_of_another_length() {
    for name in ["", "F0A", "F0Acx", "\u{e9}\u{e8}\u{e9}\u{e8}"] {
        assert_eq!(Err("invalid code length".to_string()), Code::from_str(name));
    }
}

#[test]
fn request_from_the_value() {
    assert_eq!(Some(Request::Read), Request::from_value(-1));
    assert_eq!(Some(Request::Read), Request::from_value(CMD_READ_ONLY));
    assert_eq!(Some(Request::Write(0)), Request::from_value(0));
    assert_eq!(Some(Request::Write(55)), Request::from_value(55));
    assert_eq!(Some(Request::Write(100)), Request::from_value(100));
    assert_eq!(None, Request::from_value(101));
    assert_eq!(None, Request::from_value(-2));
    assert_eq!(None, Request::from_value(i32::MAX));
    assert_eq!(None, Request::from_value(i32::MIN));
}

#[test]
fn descriptor_from_its_six_bytes() {
    let data = SmcData::from_bytes([2, b'f', b'p', b'e', b'2', 0x80]);
    assert_eq!(2, data.data_len);
    assert_eq!([b'f', b'p', b'e', b'2'], data.data_type);
    assert_eq!(0x80, data.flags);
}

#[test]
fn displayed_value_goes_by_the_length() {
    assert_eq!(DisplayedValue::Scalar(9), DisplayedValue::new(vec![9]));
    assert_eq!(DisplayedValue::Bytes(vec![]), DisplayedValue::new(vec![]));
    assert_eq!(DisplayedValue::Bytes(vec![9, 10]), DisplayedValue::new(vec![9, 10]));
    assert_eq!(
        DisplayedValue::Bytes(vec![7, 7, 7, 7, 7, 7]),
        DisplayedValue::new(vec![7, 7, 7, 7, 7, 7])
    );
}

#[test]
fn displayed_value_as_text() {
    assert_eq!("0", DisplayedValue::Scalar(0).render());
    assert_eq!("7", DisplayedValue::Scalar(7).render());
    assert_eq!("255", DisplayedValue::Scalar(255).render());
    assert_eq!("[]", DisplayedValue::Bytes(vec![]).render());
    assert_eq!("[7, 7, 7, 7, 7, 7]", DisplayedValue::Bytes(vec![7; 6]).render());
    assert_eq!("[0, 10, 200]", DisplayedValue::Bytes(vec![0, 10, 200]).render());
    // As the standard formatting has them.
    for byte in [0u8, 9, 10, 99, 100, 255] {
        assert_eq!(format!("{}", byte), DisplayedValue::Scalar(byte).render());
    }
    let all: Vec<u8> = (0..=255).collect();
    assert_eq!(format!("{:?}", all), DisplayedValue::Bytes(all).render());
}

#[test]
fn numbers_as_text() {
    for n in [0usize, 1, 9, 10, 11, 15, 16, 17, 99, 100, 255, 256, 4095, 4096, 65535, usize::MAX] {
        let mut decimal = String::from(">");
        push_decimal(&mut decimal, n);
        assert_eq!(format!(">{}", n), decimal);
        let mut hexadecimal = String::from(">");
        push_hexadecimal(&mut hexadecimal, n);
        assert_eq!(format!(">{:x}", n), hexadecimal);
    }
    let mut text = String::new();
    push_decimal(&mut text, 1203);
    assert_eq!("1203", text);
    let mut text = String::new();
    push_hexadecimal(&mut text, 0xbeef);
    assert_eq!("beef", text);
    let mut text = String::from("key ");
    push_bracketed(&mut text, &[1, 20, 255]);
    assert_eq!("key [1, 20, 255]", text);
}

#[test]
fn messages() {
    let key = [b'F', b'0', b'A', b'c'];
    assert_eq!(
        "send_byte(0x10, 0x304) fail: 0x0",
        SmcError::SendByte { cmd: 0x10, port: 0x304, status: 0 }.message()
    );
    assert_eq!(
        "send_byte(0x0, 0x0) fail: 0xff",
        SmcError::SendByte { cmd: 0, port: 0, status: 0xff }.message()
    );
    assert_eq!(
        "send_byte(0xff, 0xffff) fail: 0x6",
        SmcError::SendByte { cmd: 0xff, port: 0xffff, status: 6 }.message()
    );
    assert_eq!("[70, 48, 65, 99]: read arg failed", SmcError::ReadArg { key }.message());
    assert_eq!("[70, 48, 65, 99]: read len failed", SmcError::ReadLen { key }.message());
    assert_eq!(
        "[70, 48, 65, 99]: read data 0 failed",
        SmcError::ReadData { key, index: 0 }.message()
    );
    assert_eq!(
        "[70, 48, 65, 99]: read data 254 failed",
        SmcError::ReadData { key, index: 254 }.message()
    );
    assert_eq!("[70, 48, 65, 99]: write arg failed", SmcError::WriteArg { key }.message());
    assert_eq!("[70, 48, 65, 99]: write len failed", SmcError::WriteLen { key }.message());
    assert_eq!("data len limit exceeded", SmcError::DataLenLimit.message());
    assert_eq!("invalid arg", SmcError::InvalidArg.message());
}
