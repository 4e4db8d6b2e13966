use smc_protocol::port::{SMC_CMD_PORT, SMC_DATA_PORT, SMC_GET_KEY_TYPE_CMD};
use smc_protocol::{DefaultSmcRw, IoPortRw, SmcData, SmcOperation, SmcPrimitive};

/// A controller that is told how each handshake is to end, and answers the port
/// accesses accordingly.
struct MockSmc {
    /// Whether a byte sent to the given port is taken.
    send_byte: Box<dyn FnMut(u8, u16) -> bool>,
    /// Whether a key byte at the given place is taken.
    send_argument: Box<dyn FnMut(usize) -> bool>,
    /// Whether a data byte is ready.
    wait_read: bool,
    /// The data byte that is given.
    recv_byte: u8,
    taken: bool,
    sent_to_data: usize,
}

impl MockSmc {
    fn new() -> Self {
        MockSmc {
            send_byte: Box::new(|_, _| true),
            send_argument: Box::new(|_| true),
            wait_read: true,
            recv_byte: 0,
            taken: true,
            sent_to_data: 0,
        }
    }
}

impl IoPortRw for MockSmc {
    fn delayed_outb(&mut self, us: u32, value: u8, port: u16) {
        if us != 0 {
            return;
        }
        if port == SMC_DATA_PORT {
            let place = self.sent_to_data;
            self.sent_to_data += 1;
            self.taken = if place < 4 {
                (self.send_argument)(place)
            } else {
                (self.send_byte)(value, port)
            };
        } else {
            self.sent_to_data = 0;
            self.taken = (self.send_byte)(value, port);
        }
    }

    fn delayed_inb(&mut self, _us: u32, port: u16) -> u8 {
        if port == SMC_DATA_PORT {
            return self.recv_byte;
        }
        let mut status = 0x00;
        if self.taken {
            status |= 0x04;
        }
        if self.wait_read {
            status |= 0x01;
        }
        status
    }
}

fn setup_mock_smc() -> MockSmc {
    MockSmc::new()
}

#[test]
fn test10() {
    let mock = setup_mock_smc();
    let mut buf = [0u8; 255];

    let mut smc_rw = DefaultSmcRw::new(mock);
    assert!(smc_rw.read_smc(0x00, [0x01, 0x02, 0x03, 0x04], &mut buf).is_ok());
}

#[test]
fn test11() {
    let mut mock = setup_mock_smc();
    let mut buf = [0u8; 255];

    mock.send_byte = Box::new(|_, _| false);
    let mut smc_rw = DefaultSmcRw::new(mock);
    match smc_rw.read_smc(0x00, [0x01, 0x02, 0x03, 0x04], &mut buf) {
        Err(s) => assert_eq!("[1, 2, 3, 4]: read arg failed", s.message()),
        Ok(_) => panic!(),
    }
}

#[test]
fn test12() {
    let mut mock = setup_mock_smc();
    let mut buf = [0u8; 255];

    mock.send_argument = Box::new(|place| place != 0);
    let mut smc_rw = DefaultSmcRw::new(mock);
    match smc_rw.read_smc(0x00, [0x01, 0x02, 0x03, 0x04], &mut buf) {
        Err(s) => assert_eq!("[1, 2, 3, 4]: read arg failed", s.message()),
        Ok(_) => panic!(),
    }
}

#[test]
fn test13() {
    let mut mock = setup_mock_smc();
    let mut buf = [0u8; 255];

    mock.send_byte = Box::new(|_, port| port == SMC_CMD_PORT);
    let mut smc_rw = DefaultSmcRw::new(mock);
    match smc_rw.read_smc(0x00, [0x01, 0x02, 0x03, 0x04], &mut buf) {
        Err(s) => assert_eq!("[1, 2, 3, 4]: read len failed", s.message()),
        Ok(_) => panic!(),
    }
}

#[test]
fn test14() {
    let mock = setup_mock_smc();
    let mut long_buf = [0u8; 256];

    let mut smc_rw = DefaultSmcRw::new(mock);
    match smc_rw.read_smc(0x00, [0x01, 0x02, 0x03, 0x04], &mut long_buf) {
        Err(s) => assert_eq!("data len limit exceeded", s.message()),
        Ok(_) => panic!(),
    }
}

#[test]
fn test15() {
    let mut mock = setup_mock_smc();
    let mut buf = [0u8; 255];

    mock.wait_read = false;
    let mut smc_rw = DefaultSmcRw::new(mock);
    match smc_rw.read_smc(0x00, [0x01, 0x02, 0x03, 0x04], &mut buf) {
        Err(s) => assert_eq!("[1, 2, 3, 4]: read data 0 failed", s.message()),
        Ok(_) => panic!(),
    }
}

#[test]
fn test16() {
    let mut mock = setup_mock_smc();
    let mut buf = [0u8; 6];
    let mut data_buf = [0u8; 16];

    mock.recv_byte = 7;
    let mut smc_rw = DefaultSmcRw::new(mock);
    match smc_rw.read_smc(SMC_GET_KEY_TYPE_CMD, [0x01, 0x02, 0x03, 0x04], &mut buf) {
        Err(s) => panic!("{}", s.message()),
        Ok(_) => {
            assert_eq!("[7, 7, 7, 7, 7, 7]", format!("{:?}", buf));
        }
    }
    let mut data = SmcData::from_bytes(buf);
    assert_eq!(SmcData { data_len: 7, data_type: [7u8; 4], flags: 7 }, data);
    data_buf.fill(0x55); // reset buffer content. 0x55 == 85
    data.data_len = 14;
    match smc_rw.read_smc(
        SMC_GET_KEY_TYPE_CMD,
        [0x01, 0x02, 0x03, 0x04],
        &mut data_buf[0..data.data_len as usize],
    ) {
        Err(s) => panic!("{}", s.message()),
        Ok(_) => {
            assert_eq!(
                "[7, 7, 7, 7, 7, 7, 7, 7, 7, 7, 7, 7, 7, 7, 85, 85]",
                format!("{:?}", data_buf)
            );
        }
    }
}
