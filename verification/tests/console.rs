use hanami::console::{CharacterCell, Color, CompositeColor, TextWriter};
use hanami::port::PortOp;
use hanami::terminal::{TerminalDevice, VGA_PTR};

fn gray() -> CompositeColor {
    CompositeColor::new(Color::DarkGray, Color::Black)
}

fn row_text(w: &TextWriter, y: usize) -> Vec<u8> {
    (0..80).map(|x| w.cell_at(x, y).unwrap().chr).collect()
}

fn padded(text: &str) -> Vec<u8> {
    let mut v: Vec<u8> = text.as_bytes().to_vec();
    v.resize(80, b' ');
    v
}

fn all_blank(w: &TextWriter) -> bool {
    (0..25).all(|y| (0..80).all(|x| w.cell_at(x, y) == Some(CharacterCell::new(b' ', gray()))))
}

#[test]
fn composite_color_packs_first_high_second_low() {
    assert_eq!(CompositeColor::new(Color::DarkGray, Color::Black).0, 0x80);
    assert_eq!(CompositeColor::new(Color::White, Color::Blue).0, 0xF1);
    assert_eq!(CompositeColor::new(Color::Black, Color::White).0, 0x0F);
    assert_eq!(CompositeColor::new(Color::Red, Color::Magenta).0, 0x45);
}

#[test]
fn color_codes_follow_the_palette() {
    assert_eq!(Color::Black.code(), 0);
    assert_eq!(Color::LightGray.code(), 7);
    assert_eq!(Color::DarkGray.code(), 8);
    assert_eq!(Color::Yellow.code(), 14);
    assert_eq!(Color::White.code(), 15);
}

#[test]
fn character_cell_keeps_byte_and_color() {
    let c = CharacterCell::new(b'x', gray());
    assert_eq!(c.chr, b'x');
    assert_eq!(c.color, gray());
}

#[test]
fn new_console_is_blank_at_top_left() {
    let mut w = TextWriter::new(gray());
    assert!(w.in_order());
    assert_eq!((w.column(), w.row()), (0, 0));
    assert!(all_blank(&w));
    assert!(w.take_port_ops().is_empty());
}

#[test]
fn offset_is_row_major() {
    assert_eq!(TextWriter::offset(0, 0), 0);
    assert_eq!(TextWriter::offset(3, 1), 83);
    assert_eq!(TextWriter::offset(79, 24), 1999);
}

#[test]
fn hi_newline_bye() {
    let mut w = TextWriter::new(gray());
    w.clear();
    w.write_str("Hi\n");
    w.write_str("Bye");
    assert_eq!(row_text(&w, 0), padded("Hi"));
    assert_eq!(row_text(&w, 1), padded("Bye"));
    assert_eq!((w.column(), w.row()), (3, 1));
    for y in 2..25 {
        assert_eq!(row_text(&w, y), padded(""));
    }
}

#[test]
fn eighty_bytes_fill_the_row_and_the_next_wraps() {
    let mut w = TextWriter::new(gray());
    for _ in 0..80 {
        w.write_byte(b'a');
    }
    assert_eq!((w.column(), w.row()), (80, 0));
    assert_eq!(row_text(&w, 0), vec![b'a'; 80]);
    w.write_byte(b'b');
    assert_eq!(w.cell_at(0, 1), Some(CharacterCell::new(b'b', gray())));
    assert_eq!((w.column(), w.row()), (1, 1));
}

#[test]
fn wrap_on_the_last_row_scrolls() {
    let mut w = TextWriter::new(gray());
    for _ in 0..24 {
        w.write_byte(b'\n');
    }
    for _ in 0..80 {
        w.write_byte(b'a');
    }
    assert_eq!((w.column(), w.row()), (80, 24));
    w.write_byte(b'b');
    assert_eq!((w.column(), w.row()), (1, 24));
    assert_eq!(row_text(&w, 23), vec![b'a'; 80]);
    assert_eq!(row_text(&w, 24), padded("b"));
}

#[test]
fn newlines_blank_the_screen() {
    let mut w = TextWriter::new(gray());
    w.write_str("some text\nmore text");
    for _ in 0..(25 * 80) {
        w.write_byte(b'\n');
    }
    assert!(all_blank(&w));
    assert_eq!((w.column(), w.row()), (0, 24));
}

#[test]
fn newlines_scroll_what_was_written_off_the_top() {
    let mut w = TextWriter::new(gray());
    w.write_byte(b'x');
    for _ in 0..48 {
        w.write_byte(b'\n');
    }
    assert_eq!((w.column(), w.row()), (0, 24));
    assert!(all_blank(&w));
    let mut v = TextWriter::new(gray());
    v.write_str("\n\n\n");
    v.write_byte(b'x');
    for _ in 0..23 {
        v.write_byte(b'\n');
    }
    assert!(!all_blank(&v));
    assert_eq!(v.cell_at(0, 1).unwrap().chr, b'x');
}

#[test]
fn scroll_moves_rows_up() {
    let mut w = TextWriter::new(gray());
    w.write_str("zero\none\ntwo");
    w.scroll();
    assert_eq!(row_text(&w, 0), padded("one"));
    assert_eq!(row_text(&w, 1), padded("two"));
    assert_eq!(row_text(&w, 24), padded(""));
    assert_eq!((w.column(), w.row()), (3, 2));
}

#[test]
fn newline_goes_to_start_of_next_row() {
    let mut w = TextWriter::new(gray());
    w.write_str("abc");
    w.newline();
    assert_eq!((w.column(), w.row()), (0, 1));
    assert_eq!(row_text(&w, 0), padded("abc"));
}

#[test]
fn tab_goes_to_next_multiple_of_four() {
    let mut w = TextWriter::new(gray());
    w.write_str("12345");
    assert_eq!(w.column(), 5);
    w.write_byte(b'\t');
    assert_eq!((w.column(), w.row()), (8, 0));
    w.write_byte(b'\t');
    assert_eq!((w.column(), w.row()), (12, 0));
    assert_eq!(row_text(&w, 0), padded("12345"));
}

#[test]
fn tab_at_the_end_of_a_row() {
    let mut w = TextWriter::new(gray());
    for _ in 0..78 {
        w.write_byte(b'a');
    }
    w.write_byte(b'\t');
    assert_eq!((w.column(), w.row()), (80, 0));
    w.write_byte(b'\t');
    assert_eq!((w.column(), w.row()), (4, 1));
}

#[test]
fn backspace_on_the_first_row_does_nothing() {
    let mut w = TextWriter::new(gray());
    w.write_byte(0x08);
    assert_eq!((w.column(), w.row()), (0, 0));
    assert!(all_blank(&w));
    w.write_str("abc");
    w.write_byte(0x08);
    assert_eq!((w.column(), w.row()), (3, 0));
    assert_eq!(row_text(&w, 0), padded("abc"));
}

#[test]
fn backspace_in_column_zero_goes_to_the_row_above() {
    let mut w = TextWriter::new(gray());
    w.write_str("ab\n");
    assert_eq!((w.column(), w.row()), (0, 1));
    w.write_byte(0x08);
    assert_eq!((w.column(), w.row()), (79, 0));
    assert_eq!(row_text(&w, 0), padded("ab"));
}

#[test]
fn backspace_blanks_the_cell_at_the_cursor() {
    let mut w = TextWriter::new(gray());
    w.write_str("\nabc\r");
    w.write_str("x");
    assert_eq!((w.column(), w.row()), (1, 1));
    w.write_byte(0x08);
    assert_eq!((w.column(), w.row()), (0, 1));
    assert_eq!(row_text(&w, 1), padded("x c"));
}

#[test]
fn backspace_past_the_last_cell_only_moves_the_cursor() {
    let mut w = TextWriter::new(gray());
    for _ in 0..24 {
        w.write_byte(b'\n');
    }
    for _ in 0..80 {
        w.write_byte(b'a');
    }
    assert_eq!((w.column(), w.row()), (80, 24));
    w.write_byte(0x08);
    assert_eq!((w.column(), w.row()), (79, 24));
    assert_eq!(row_text(&w, 24), vec![b'a'; 80]);
}

#[test]
fn carriage_return_goes_to_column_zero() {
    let mut w = TextWriter::new(gray());
    w.write_str("\nhello\r");
    assert_eq!((w.column(), w.row()), (0, 1));
    w.write_byte(b'J');
    assert_eq!(row_text(&w, 1), padded("Jello"));
}

#[test]
fn clear_blanks_and_homes() {
    let mut w = TextWriter::new(gray());
    w.write_str("text\nmore");
    w.take_port_ops();
    w.clear();
    assert!(all_blank(&w));
    assert_eq!((w.column(), w.row()), (0, 0));
    assert_eq!(
        w.take_port_ops(),
        vec![
            PortOp::Write { port: 0x03D4, value: 0x0E },
            PortOp::Write { port: 0x03D5, value: 0x00 },
            PortOp::Write { port: 0x03D4, value: 0x0F },
            PortOp::Write { port: 0x03D5, value: 0x00 },
        ]
    );
}

#[test]
fn every_byte_syncs_the_hardware_cursor() {
    let mut w = TextWriter::new(gray());
    w.write_byte(b'A');
    assert_eq!(
        w.take_port_ops(),
        vec![
            PortOp::Write { port: 0x03D4, value: 0x0E },
            PortOp::Write { port: 0x03D5, value: 0x00 },
            PortOp::Write { port: 0x03D4, value: 0x0F },
            PortOp::Write { port: 0x03D5, value: 0x01 },
        ]
    );
    assert!(w.take_port_ops().is_empty());
    w.write_str("\n\n\n");
    w.take_port_ops();
    for _ in 0..60 {
        w.write_byte(b'.');
    }
    let ops = w.take_port_ops();
    assert_eq!(ops.len(), 240);
    // offset 3 * 80 + 60 = 300 = 0x012C
    assert_eq!(
        ops[236..].to_vec(),
        vec![
            PortOp::Write { port: 0x03D4, value: 0x0E },
            PortOp::Write { port: 0x03D5, value: 0x01 },
            PortOp::Write { port: 0x03D4, value: 0x0F },
            PortOp::Write { port: 0x03D5, value: 0x2C },
        ]
    );
}

#[test]
fn tab_syncs_after_each_space_and_once_more() {
    let mut w = TextWriter::new(gray());
    w.write_byte(b'a');
    w.take_port_ops();
    w.write_byte(b'\t');
    let ops = w.take_port_ops();
    assert_eq!(ops.len(), 16);
    assert_eq!(ops[3], PortOp::Write { port: 0x03D5, value: 2 });
    assert_eq!(ops[7], PortOp::Write { port: 0x03D5, value: 3 });
    assert_eq!(ops[11], PortOp::Write { port: 0x03D5, value: 4 });
    assert_eq!(ops[15], PortOp::Write { port: 0x03D5, value: 4 });
}

#[test]
fn terminal_starts_cleared() {
    let mut t = TerminalDevice::new(VGA_PTR);
    assert!(t.in_order());
    assert_eq!(t.ptr(), 0xB8000);
    assert_eq!(t.cursor(), (0, 0));
    assert_eq!(t.frame(), vec![0x8020u16; 2000]);
    assert_eq!(
        t.take_port_ops(),
        vec![
            PortOp::Write { port: 0x03D4, value: 0x0E },
            PortOp::Write { port: 0x03D5, value: 0x00 },
            PortOp::Write { port: 0x03D4, value: 0x0F },
            PortOp::Write { port: 0x03D5, value: 0x00 },
        ]
    );
}

#[test]
fn terminal_frame_packs_color_and_byte() {
    let mut t = TerminalDevice::new(VGA_PTR);
    t.write_byte(b'H');
    t.write_byte(b'i');
    t.new_line();
    t.write_byte(b'!');
    let frame = t.frame();
    assert_eq!(frame.len(), 2000);
    assert_eq!(frame[0], 0x8048);
    assert_eq!(frame[1], 0x8069);
    assert_eq!(frame[2], 0x8020);
    assert_eq!(frame[80], 0x8021);
    assert_eq!(t.cursor(), (1, 1));
}

#[test]
fn terminal_scroll_and_clear() {
    let mut t = TerminalDevice::new(VGA_PTR);
    t.write_byte(b'a');
    t.new_line();
    t.write_byte(b'b');
    t.scroll();
    assert_eq!(t.frame()[0], 0x8062);
    assert_eq!(t.frame()[80], 0x8020);
    t.take_port_ops();
    t.update_physical_cursor();
    assert_eq!(t.take_port_ops().len(), 4);
    t.clear();
    assert_eq!(t.cursor(), (0, 0));
    assert_eq!(t.frame(), vec![0x8020u16; 2000]);
}
