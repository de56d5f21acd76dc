use vga_text::color::{Color, ColorCode};
use vga_text::qemu::QemuExitCode;
use vga_text::vga_buffer::{Buffer, Writer, _print, BUFFER_HEIGHT, BUFFER_WIDTH};

fn yellow_on_black() -> ColorCode {
    ColorCode::new(Color::Yellow, Color::Black)
}

fn fresh_writer() -> Writer {
    let color = yellow_on_black();
    Writer::new(color, Buffer::new(color))
}

#[test]
fn color_code_yellow_on_black() {
    assert_eq!(yellow_on_black().value(), 0x0e);
}

#[test]
fn color_code_white_on_blue() {
    assert_eq!(ColorCode::new(Color::White, Color::Blue).value(), 0x1f);
}

#[test]
fn color_numbers_span_the_palette() {
    assert_eq!(Color::Black.number(), 0);
    assert_eq!(Color::LightGray.number(), 7);
    assert_eq!(Color::Yellow.number(), 14);
    assert_eq!(Color::White.number(), 15);
}

#[test]
fn qemu_exit_code_values() {
    assert_eq!(QemuExitCode::Success.value(), 0x10);
    assert_eq!(QemuExitCode::Failed.value(), 0x11);
}

#[test]
fn new_buffer_is_blank() {
    let color = yellow_on_black();
    let buffer = Buffer::new(color);
    for row in 0..BUFFER_HEIGHT {
        for col in 0..BUFFER_WIDTH {
            let cell = buffer.read(row, col);
            assert_eq!(cell.ascii_character, b' ');
            assert_eq!(cell.color_code, color);
        }
    }
}

#[test]
fn buffer_write_read_roundtrip() {
    let color = yellow_on_black();
    let mut buffer = Buffer::new(color);
    let cell = vga_text::vga_buffer::ScreenChar {
        ascii_character: b'Q',
        color_code: ColorCode::new(Color::Red, Color::Green),
    };
    buffer.write(5, 7, cell);
    assert_eq!(buffer.read(5, 7), cell);
    assert_eq!(buffer.read(5, 8).ascii_character, b' ');
    assert_eq!(buffer.read(4, 7).ascii_character, b' ');
}

#[test]
fn line_readback_bottom_row() {
    let mut writer = fresh_writer();
    let s = "Hello, world!";
    writer.write_string(s);
    assert_eq!(writer.column_position(), s.len());
    for (i, b) in s.bytes().enumerate() {
        let cell = writer.read_cell(BUFFER_HEIGHT - 1, i);
        assert_eq!(cell.ascii_character, b);
        assert_eq!(cell.color_code, writer.color_code());
    }
    for col in s.len()..BUFFER_WIDTH {
        assert_eq!(writer.read_cell(BUFFER_HEIGHT - 1, col).ascii_character, b' ');
    }
}

#[test]
fn long_line_wraps_once() {
    let mut writer = fresh_writer();
    let mut bytes: Vec<u8> = Vec::new();
    for i in 0..100 {
        bytes.push(0x20 + (i % 95) as u8);
    }
    let s = String::from_utf8(bytes.clone()).unwrap();
    writer.write_string(&s);
    assert_eq!(writer.column_position(), 100 - BUFFER_WIDTH);
    for col in 0..BUFFER_WIDTH {
        let above = writer.read_cell(BUFFER_HEIGHT - 2, col);
        assert_eq!(above.ascii_character, bytes[col]);
    }
    for i in 0..(100 - BUFFER_WIDTH) {
        let bottom = writer.read_cell(BUFFER_HEIGHT - 1, i);
        assert_eq!(bottom.ascii_character, bytes[BUFFER_WIDTH + i]);
    }
    for col in (100 - BUFFER_WIDTH)..BUFFER_WIDTH {
        assert_eq!(writer.read_cell(BUFFER_HEIGHT - 1, col).ascii_character, b' ');
    }
}

#[test]
fn exactly_eighty_bytes_do_not_wrap() {
    let mut writer = fresh_writer();
    let s = "x".repeat(BUFFER_WIDTH);
    writer.write_string(&s);
    assert_eq!(writer.column_position(), BUFFER_WIDTH);
    for col in 0..BUFFER_WIDTH {
        assert_eq!(writer.read_cell(BUFFER_HEIGHT - 2, col).ascii_character, b' ');
        assert_eq!(writer.read_cell(BUFFER_HEIGHT - 1, col).ascii_character, b'x');
    }
}

#[test]
fn eighty_first_byte_triggers_the_wrap() {
    let mut writer = fresh_writer();
    writer.write_string(&"x".repeat(BUFFER_WIDTH));
    writer.write_byte(b'y');
    assert_eq!(writer.column_position(), 1);
    for col in 0..BUFFER_WIDTH {
        assert_eq!(writer.read_cell(BUFFER_HEIGHT - 2, col).ascii_character, b'x');
    }
    assert_eq!(writer.read_cell(BUFFER_HEIGHT - 1, 0).ascii_character, b'y');
    assert_eq!(writer.read_cell(BUFFER_HEIGHT - 1, 1).ascii_character, b' ');
}

#[test]
fn scroll_shifts_rows_up() {
    let color = yellow_on_black();
    let mut buffer = Buffer::new(color);
    for col in 0..BUFFER_WIDTH {
        buffer.write(0, col, vga_text::vga_buffer::ScreenChar {
            ascii_character: b'A',
            color_code: color,
        });
        buffer.write(1, col, vga_text::vga_buffer::ScreenChar {
            ascii_character: b'B',
            color_code: color,
        });
    }
    let mut writer = Writer::new(color, buffer);
    writer.new_line();
    for col in 0..BUFFER_WIDTH {
        assert_eq!(writer.read_cell(0, col).ascii_character, b'B');
        assert_eq!(writer.read_cell(BUFFER_HEIGHT - 1, col).ascii_character, b' ');
        assert_eq!(writer.read_cell(BUFFER_HEIGHT - 1, col).color_code, color);
    }
    assert_eq!(writer.column_position(), 0);
}

#[test]
fn nonprintable_byte_renders_placeholder() {
    let mut writer = fresh_writer();
    writer.write_string("\u{1}");
    assert_eq!(writer.column_position(), 1);
    assert_eq!(writer.read_cell(BUFFER_HEIGHT - 1, 0).ascii_character, 0xfe);
}

#[test]
fn multibyte_character_renders_one_placeholder_per_byte() {
    let mut writer = fresh_writer();
    writer.write_string("é");
    assert_eq!(writer.column_position(), 2);
    assert_eq!(writer.read_cell(BUFFER_HEIGHT - 1, 0).ascii_character, 0xfe);
    assert_eq!(writer.read_cell(BUFFER_HEIGHT - 1, 1).ascii_character, 0xfe);
}

#[test]
fn write_byte_places_raw_byte_at_cursor() {
    let mut writer = fresh_writer();
    writer.write_byte(b'H');
    assert_eq!(writer.column_position(), 1);
    assert_eq!(writer.read_cell(BUFFER_HEIGHT - 1, 0).ascii_character, b'H');
}

#[test]
fn newline_byte_breaks_the_line() {
    let mut writer = fresh_writer();
    writer.write_string("ab\ncd");
    assert_eq!(writer.column_position(), 2);
    assert_eq!(writer.read_cell(BUFFER_HEIGHT - 2, 0).ascii_character, b'a');
    assert_eq!(writer.read_cell(BUFFER_HEIGHT - 2, 1).ascii_character, b'b');
    assert_eq!(writer.read_cell(BUFFER_HEIGHT - 1, 0).ascii_character, b'c');
    assert_eq!(writer.read_cell(BUFFER_HEIGHT - 1, 1).ascii_character, b'd');
}

#[test]
fn empty_string_changes_nothing() {
    let mut writer = fresh_writer();
    writer.write_string("");
    assert_eq!(writer.column_position(), 0);
    for col in 0..BUFFER_WIDTH {
        assert_eq!(writer.read_cell(BUFFER_HEIGHT - 1, col).ascii_character, b' ');
    }
}

#[test]
fn clear_row_blanks_every_cell() {
    let mut writer = fresh_writer();
    writer.write_string("some text");
    writer.clear_row(BUFFER_HEIGHT - 1);
    for col in 0..BUFFER_WIDTH {
        let cell = writer.read_cell(BUFFER_HEIGHT - 1, col);
        assert_eq!(cell.ascii_character, b' ');
        assert_eq!(cell.color_code, writer.color_code());
    }
}

#[test]
fn print_forwards_to_the_writer() {
    let mut writer = fresh_writer();
    _print(&mut writer, "hi");
    assert_eq!(writer.column_position(), 2);
    assert_eq!(writer.read_cell(BUFFER_HEIGHT - 1, 0).ascii_character, b'h');
    assert_eq!(writer.read_cell(BUFFER_HEIGHT - 1, 1).ascii_character, b'i');
}

#[test]
fn test_println_many() {
    let writer = spin::Mutex::new(fresh_writer());
    for _ in 0..200 {
        writer.lock().write_string("test_println_many_output\n");
    }
    let guard = writer.lock();
    let line = "test_println_many_output";
    for (i, b) in line.bytes().enumerate() {
        assert_eq!(guard.read_cell(BUFFER_HEIGHT - 2, i).ascii_character, b);
    }
    for col in 0..BUFFER_WIDTH {
        assert_eq!(guard.read_cell(BUFFER_HEIGHT - 1, col).ascii_character, b' ');
    }
    assert_eq!(guard.column_position(), 0);
}

#[test]
fn test_println_output() {
    let writer = spin::Mutex::new(fresh_writer());
    let s = "Some test string that fits on a single line";
    writer.lock().write_string(s);
    writer.lock().write_string("\n");
    let guard = writer.lock();
    for (i, c) in s.chars().enumerate() {
        let screen_char = guard.read_cell(BUFFER_HEIGHT - 2, i);
        assert_eq!(char::from(screen_char.ascii_character), c);
    }
}
