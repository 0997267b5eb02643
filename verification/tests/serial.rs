use hanami::pic::PIC;
use hanami::port::PortOp;
use hanami::serial::{SerialDevice, SERIAL0, SERIAL1, SERIAL2, SERIAL3};

/// A UART that shows the ready bit on every third read of the line status
/// register and records what is written to its data register.
struct FakeUart {
    base: u16,
    reads: usize,
    sent: Vec<u8>,
    ready_seen_before: Vec<bool>,
    ready: bool,
}

impl FakeUart {
    fn read(&mut self, port: u16) -> u8 {
        assert_eq!(port, self.base + 5);
        self.reads += 1;
        if self.reads % 3 == 0 {
            0x60
        } else {
            0x40
        }
    }

    fn run(&mut self, ops: &[PortOp]) {
        for op in ops {
            match *op {
                PortOp::Write { port, value } => {
                    if port == self.base {
                        self.sent.push(value);
                        self.ready_seen_before.push(self.ready);
                        self.ready = false;
                    }
                }
                PortOp::Await { port, .. } => loop {
                    let status = self.read(port);
                    if op.satisfied_by(status) {
                        self.ready = true;
                        break;
                    }
                },
            }
        }
    }
}

#[test]
fn ports_of_the_four_lines() {
    assert_eq!((SERIAL0, SERIAL1, SERIAL2, SERIAL3), (0x03F8, 0x02F8, 0x03E8, 0x02E8));
}

#[test]
fn setup_writes_the_fixed_configuration() {
    let mut d = SerialDevice::new(SERIAL0);
    assert!(d.in_order());
    assert_eq!(
        d.take_port_ops(),
        vec![
            PortOp::Write { port: 0x03F9, value: 0x00 },
            PortOp::Write { port: 0x03FB, value: 0x80 },
            PortOp::Write { port: 0x03F8, value: 0x03 },
            PortOp::Write { port: 0x03F9, value: 0x00 },
            PortOp::Write { port: 0x03FB, value: 0x03 },
            PortOp::Write { port: 0x03FA, value: 0xC7 },
            PortOp::Write { port: 0x03FC, value: 0x03 },
        ]
    );
    assert!(d.take_port_ops().is_empty());
}

#[test]
fn initialize_again_issues_the_setup_again() {
    let mut d = SerialDevice::new(SERIAL2);
    let first = d.take_port_ops();
    d.initialize();
    assert_eq!(d.take_port_ops(), first);
}

#[test]
fn ok_is_sent_as_two_bytes_each_after_the_ready_bit() {
    let mut d = SerialDevice::new(SERIAL0);
    d.take_port_ops();
    for b in "OK".bytes() {
        d.write_byte(b);
    }
    let ops = d.take_port_ops();
    assert_eq!(
        ops,
        vec![
            PortOp::Await { port: 0x03FD, mask: 0x20 },
            PortOp::Write { port: 0x03F8, value: 0x4F },
            PortOp::Await { port: 0x03FD, mask: 0x20 },
            PortOp::Write { port: 0x03F8, value: 0x4B },
        ]
    );
    let mut uart = FakeUart { base: SERIAL0, reads: 0, sent: Vec::new(), ready_seen_before: Vec::new(), ready: false };
    uart.run(&ops);
    assert_eq!(uart.sent, vec![0x4F, 0x4B]);
    assert_eq!(uart.ready_seen_before, vec![true, true]);
    assert_eq!(uart.reads, 6);
}

#[test]
fn await_ready_state_issues_one_wait() {
    let mut d = SerialDevice::new(SERIAL3);
    d.take_port_ops();
    d.await_ready_state();
    assert_eq!(d.take_port_ops(), vec![PortOp::Await { port: 0x02ED, mask: 0x20 }]);
}

#[test]
fn a_wait_ends_when_a_bit_of_the_mask_is_set() {
    let wait = PortOp::Await { port: 0x03FD, mask: 0x20 };
    assert!(!wait.satisfied_by(0x00));
    assert!(!wait.satisfied_by(0xDF));
    assert!(wait.satisfied_by(0x20));
    assert!(wait.satisfied_by(0xFF));
    let write = PortOp::Write { port: 0x03F8, value: 1 };
    assert!(write.satisfied_by(0x00));
}

#[test]
fn remap_writes_master_slave_and_unmask() {
    let w = |port: u16, value: u8| PortOp::Write { port, value };
    let settle = w(0x80, 0x00);
    assert_eq!(
        PIC::remap(),
        vec![
            w(0x20, 0x11), settle, w(0x21, 0x20), settle, w(0x21, 0x04), settle, w(0x21, 0x01), settle,
            w(0xA0, 0x11), settle, w(0xA1, 0x28), settle, w(0xA1, 0x02), settle, w(0xA1, 0x01), settle,
            w(0x21, 0x00), settle, w(0xA1, 0x00), settle,
        ]
    );
}
