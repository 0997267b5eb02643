use hanami::console::TextWriter;
use hanami::device::{Device, DeviceInfo, DeviceKind, DeviceManager};
use hanami::port::PortOp;
use hanami::serial::{SerialDevice, SERIAL0, SERIAL1};
use hanami::terminal::{TerminalDevice, VGA_PTR};

#[test]
fn identifiers_count_up_from_zero() {
    let mut m = DeviceManager::new();
    assert_eq!(m.peek(), 0);
    let a = DeviceInfo::new(DeviceKind::CharsDevice, "serial0", &mut m);
    let b = DeviceInfo::new(DeviceKind::CharsDevice, "ktty0", &mut m);
    let c = DeviceInfo::new(DeviceKind::BlockDevice, "disk0", &mut m);
    assert_eq!((a.id(), b.id(), c.id()), (0, 1, 2));
    assert_eq!(m.peek(), 3);
    assert_eq!(a.name(), "serial0");
    assert_eq!(c.name(), "disk0");
    assert_eq!(a.kind(), DeviceKind::CharsDevice);
    assert_eq!(c.kind(), DeviceKind::BlockDevice);
}

#[test]
fn many_devices_get_every_identifier_once() {
    let mut m = DeviceManager::new();
    let mut seen = vec![false; 100];
    for _ in 0..100 {
        let d = Device::new((), DeviceKind::CharsDevice, "dev", &mut m);
        assert!(!seen[d.info.id()]);
        seen[d.info.id()] = true;
    }
    assert!(seen.iter().all(|s| *s));
}

#[test]
fn take_hands_out_the_next_identifier() {
    let mut m = DeviceManager::new();
    assert_eq!(m.take(), 0);
    assert_eq!(m.take(), 1);
    assert_eq!(m.peek(), 2);
}

#[test]
fn identifiers_from_a_shared_counter() {
    let counter = spin::Mutex::new(DeviceManager::new());
    assert_eq!(DeviceInfo::get_next_id_safe(&counter), Some(0));
    assert_eq!(DeviceInfo::get_next_id_safe(&counter), Some(1));
    let info = DeviceInfo::new_shared(DeviceKind::BlockDevice, "disk0", &counter).unwrap();
    assert_eq!(info.id(), 2);
    assert_eq!(info.name(), "disk0");
    assert_eq!(info.kind(), DeviceKind::BlockDevice);
    assert_eq!(counter.lock().peek(), 3);
    let d = Device::new_shared(7u8, DeviceKind::CharsDevice, "seven", &counter).unwrap();
    assert_eq!((d.proto, d.info.id(), d.info.name()), (7, 3, "seven"));
    assert_eq!(counter.lock().peek(), 4);
}

#[test]
fn device_keeps_what_drives_it() {
    let mut m = DeviceManager::new();
    let d = Device::new(42u32, DeviceKind::BlockDevice, "answer", &mut m);
    assert_eq!(*d.deref(), 42);
    assert_eq!(d.proto, 42);
    assert_eq!(d.info.id(), 0);
    assert_eq!(d.info.name(), "answer");
}

#[test]
fn text_to_the_terminal_goes_byte_by_byte() {
    let mut m = DeviceManager::new();
    let mut tty = Device::new(TerminalDevice::new(VGA_PTR), DeviceKind::CharsDevice, "ktty0", &mut m);
    tty.write_str("Hi\n");
    tty.write_str("Bye");
    assert_eq!(tty.proto.cursor(), (3, 1));
    let frame = tty.proto.frame();
    assert_eq!(frame[0], 0x8048);
    assert_eq!(frame[1], 0x8069);
    assert_eq!(frame[2], 0x8020);
    assert_eq!(frame[80], 0x8042);
    assert_eq!(frame[81], 0x8079);
    assert_eq!(frame[82], 0x8065);
    assert_eq!(frame[83], 0x8020);
    assert_eq!(tty.info.id(), 0);
    // one sync for the clear, one for each of the six bytes
    assert_eq!(tty.proto.take_port_ops().len(), 28);
}

#[test]
fn text_to_the_serial_line_goes_byte_by_byte() {
    let mut m = DeviceManager::new();
    let mut line = Device::new(SerialDevice::new(SERIAL1), DeviceKind::CharsDevice, "serial1", &mut m);
    line.proto.take_port_ops();
    line.write_str("ab");
    assert_eq!(
        line.proto.take_port_ops(),
        vec![
            PortOp::Await { port: 0x02FD, mask: 0x20 },
            PortOp::Write { port: 0x02F8, value: b'a' },
            PortOp::Await { port: 0x02FD, mask: 0x20 },
            PortOp::Write { port: 0x02F8, value: b'b' },
        ]
    );
}

#[test]
fn empty_text_writes_nothing() {
    let mut m = DeviceManager::new();
    let mut line = Device::new(SerialDevice::new(SERIAL0), DeviceKind::CharsDevice, "serial0", &mut m);
    line.proto.take_port_ops();
    line.write_str("");
    assert!(line.proto.take_port_ops().is_empty());
}

#[test]
fn console_text_equals_its_bytes_one_by_one() {
    let color = hanami::console::CompositeColor(0x80);
    let mut a = TextWriter::new(color);
    let mut b = TextWriter::new(color);
    let text = "col\tumn\nline two\r\nx\u{8}";
    a.write_str(text);
    for byte in text.bytes() {
        b.write_byte(byte);
    }
    assert_eq!((a.column(), a.row()), (b.column(), b.row()));
    for y in 0..25 {
        for x in 0..80 {
            assert_eq!(a.cell_at(x, y), b.cell_at(x, y));
        }
    }
    assert_eq!(a.take_port_ops(), b.take_port_ops());
}

#[test]
fn try_take_hands_out_what_take_does() {
    let mut m = DeviceManager::new();
    assert_eq!(m.try_take(), Some(0));
    assert_eq!(m.try_take(), Some(1));
    assert_eq!(m.take(), 2);
    assert_eq!(m.try_take(), Some(3));
    assert_eq!(m.peek(), 4);
}

#[test]
fn try_new_makes_identity_and_device_with_the_next_identifier() {
    let mut m = DeviceManager::new();
    let info = DeviceInfo::try_new(DeviceKind::CharsDevice, "ktty0", &mut m).unwrap();
    assert_eq!((info.id(), info.name(), info.kind()), (0, "ktty0", DeviceKind::CharsDevice));
    let d = Device::try_new(9u16, DeviceKind::BlockDevice, "disk0", &mut m).unwrap();
    assert_eq!((d.proto, d.info.id(), d.info.name(), d.info.kind()), (9, 1, "disk0", DeviceKind::BlockDevice));
    assert_eq!(m.peek(), 2);
}

#[test]
fn shared_and_exclusive_counters_agree() {
    let counter = spin::Mutex::new(DeviceManager::new());
    let mut m = DeviceManager::new();
    for _ in 0..10 {
        let shared = DeviceInfo::new_shared(DeviceKind::CharsDevice, "dev", &counter).unwrap();
        let own = DeviceInfo::try_new(DeviceKind::CharsDevice, "dev", &mut m).unwrap();
        assert_eq!(shared.id(), own.id());
    }
    assert_eq!(DeviceInfo::get_next_id_safe(&counter), m.try_take());
    assert_eq!(counter.lock().peek(), 11);
}
