use hexdump::dump::Dumper;
use hexdump::hex::{hex_digit, push_hex_byte, push_hex_padded};
use hexdump::row::{gutter_char, render_row};
use hexdump::vt::{ByteClass, VtColor, class_of, color_for_ascii, push_clear_right};

const ASCENDING_ROW: &str = "\x1b[39m00000000  \x1b[31m00\x1b[39m \x1b[35m01\x1b[39m \x1b[35m02\x1b[39m \x1b[35m03\x1b[39m \x1b[35m04\x1b[39m \x1b[35m05\x1b[39m \x1b[35m06\x1b[39m \x1b[35m07\x1b[39m  \x1b[35m08\x1b[39m \x1b[35m09\x1b[39m \x1b[35m0a\x1b[39m \x1b[35m0b\x1b[39m \x1b[35m0c\x1b[39m \x1b[35m0d\x1b[39m \x1b[35m0e\x1b[39m \x1b[35m0f\x1b[39m  \x1b[39m|\x1b[31m.\x1b[35m.\x1b[35m.\x1b[35m.\x1b[35m.\x1b[35m.\x1b[35m.\x1b[35m.\x1b[35m.\x1b[35m.\x1b[35m.\x1b[35m.\x1b[35m.\x1b[35m.\x1b[35m.\x1b[35m.\x1b[39m|";

const FF_ROW: &str = "\x1b[39m00000000  \x1b[90mff\x1b[39m \x1b[90mff\x1b[39m \x1b[90mff\x1b[39m \x1b[90mff\x1b[39m \x1b[90mff\x1b[39m \x1b[90mff\x1b[39m \x1b[90mff\x1b[39m \x1b[90mff\x1b[39m  \x1b[90mff\x1b[39m \x1b[90mff\x1b[39m \x1b[90mff\x1b[39m \x1b[90mff\x1b[39m \x1b[90mff\x1b[39m \x1b[90mff\x1b[39m \x1b[90mff\x1b[39m \x1b[90mff\x1b[39m  \x1b[39m|\x1b[90m.\x1b[90m.\x1b[90m.\x1b[90m.\x1b[90m.\x1b[90m.\x1b[90m.\x1b[90m.\x1b[90m.\x1b[90m.\x1b[90m.\x1b[90m.\x1b[90m.\x1b[90m.\x1b[90m.\x1b[90m.\x1b[39m|";

const HELLO_ROW: &str = "\x1b[39m00000000  \x1b[39m48\x1b[39m \x1b[39m65\x1b[39m \x1b[39m6c\x1b[39m \x1b[39m6c\x1b[39m \x1b[39m6f\x1b[39m \x1b[39m2c\x1b[39m \x1b[35m20\x1b[39m \x1b[39m77\x1b[39m  \x1b[39m6f\x1b[39m \x1b[39m72\x1b[39m \x1b[39m6c\x1b[39m \x1b[39m64\x1b[39m \x1b[39m21\x1b[39m \x1b[35m20\x1b[39m \x1b[39m30\x1b[39m \x1b[39m31\x1b[39m  \x1b[39m|\x1b[39mH\x1b[39me\x1b[39ml\x1b[39ml\x1b[39mo\x1b[39m,\x1b[35m \x1b[39mw\x1b[39mo\x1b[39mr\x1b[39ml\x1b[39md\x1b[39m!\x1b[35m \x1b[39m0\x1b[39m1\x1b[39m|";

const WXYZ_ROW: &str = "\x1b[39m00000010  \x1b[39m77\x1b[39m \x1b[39m78\x1b[39m \x1b[39m79\x1b[39m \x1b[39m7a\x1b[39m                                       \x1b[39m|\x1b[39mw\x1b[39mx\x1b[39my\x1b[39mz\x1b[39m|";

fn text(bytes: Vec<u8>) -> String {
    String::from_utf8(bytes).unwrap()
}

fn feed_all(d: &mut Dumper, input: &[u8]) -> String {
    text(d.feed(input))
}

fn newline_count(s: &str) -> usize {
    s.bytes().filter(|b| *b == b'\n').count()
}

#[test]
fn sixteen_ascending_bytes_one_row() {
    let input: Vec<u8> = (0u8..16).collect();
    let mut d = Dumper::new();
    let out = feed_all(&mut d, &input);
    assert_eq!(out, format!("{}\n", ASCENDING_ROW));
    assert_eq!(text(d.finish()), "\n");
}

#[test]
fn two_identical_ff_rows_collapse() {
    let input = vec![0xffu8; 32];
    let mut d = Dumper::new();
    let out = feed_all(&mut d, &input);
    assert_eq!(out, format!("{}\n*\n", FF_ROW));
    assert_eq!(text(d.finish()), "\n");
}

#[test]
fn twenty_bytes_leave_partial_row() {
    let mut input: Vec<u8> = b"Hello, world! 01".to_vec();
    input.extend_from_slice(b"wxyz");
    let mut d = Dumper::new();
    let out = feed_all(&mut d, &input);
    assert_eq!(out, format!("{}\n{}", HELLO_ROW, WXYZ_ROW));
    assert!(!out.ends_with('\n'));
    assert_eq!(d.position(), 20);
    assert_eq!(d.read_window(), 12);
}

#[test]
fn bytewise_feeding_redraws_same_row() {
    let input = b"Hello, world! 01";
    let mut whole = Dumper::new();
    let all_at_once = feed_all(&mut whole, input);

    let mut d = Dumper::new();
    let mut last = String::new();
    for (i, b) in input.iter().enumerate() {
        assert_eq!(d.read_window(), 16 - i);
        last = text(d.process_chunk(&[*b]));
        if i == 0 {
            assert!(!last.starts_with('\r'));
        } else {
            assert!(last.starts_with('\r'));
        }
        if i < 15 {
            assert!(!last.contains('\n'));
        }
    }
    assert_eq!(last, format!("\r{}", all_at_once));
    assert_eq!(d.position(), whole.position());
}

#[test]
fn intermediate_redraw_shows_prefix() {
    let mut d = Dumper::new();
    let first = text(d.process_chunk(b"wx"));
    let second = text(d.process_chunk(b"yz"));
    assert!(first.starts_with("\x1b[39m00000000  \x1b[39m77\x1b[39m \x1b[39m78\x1b[39m "));
    assert_eq!(second, format!("\r{}", WXYZ_ROW.replacen("00000010", "00000000", 1)));
}

#[test]
fn long_run_gets_one_marker() {
    let mut input = b"Hello, world! 01".to_vec();
    for _ in 0..5 {
        input.extend_from_slice(&[0u8; 16]);
    }
    input.extend_from_slice(b"Hello, world! 01");
    let mut d = Dumper::new();
    let out = feed_all(&mut d, &input);
    assert_eq!(out.matches("*\n").count(), 1);
    assert_eq!(newline_count(&out), 4);
}

#[test]
fn distinct_rows_each_take_a_line() {
    let mut input = b"Hello, world! 01".to_vec();
    input.extend_from_slice(&[0u8; 16]);
    input.extend_from_slice(b"Hello, world! 01");
    let mut d = Dumper::new();
    let out = feed_all(&mut d, &input);
    assert_eq!(newline_count(&out), 3);
    assert!(!out.contains('*'));
}

#[test]
fn first_row_is_never_collapsed() {
    let mut d = Dumper::new();
    let out = feed_all(&mut d, &[0u8; 16]);
    assert!(!out.contains('*'));
    assert_eq!(newline_count(&out), 1);
}

#[test]
fn collapse_erases_partial_drawing() {
    let row = [0xffu8; 16];
    let mut d = Dumper::new();
    assert_eq!(feed_all(&mut d, &row), format!("{}\n", FF_ROW));
    let half = text(d.process_chunk(&row[..8]));
    assert!(!half.starts_with('\r'));
    assert_eq!(text(d.process_chunk(&row[8..])), "\r*\x1b[0K\n");
    assert_eq!(text(d.process_chunk(&row[..8])).chars().next(), Some('\x1b'));
    assert_eq!(text(d.process_chunk(&row[8..])), "\r\x1b[0K");
    assert_eq!(text(d.process_chunk(&row)), "");
}

#[test]
fn new_row_after_run_is_drawn() {
    let mut input = vec![0xffu8; 48];
    input.extend_from_slice(b"Hello, world! 01");
    let mut d = Dumper::new();
    let out = feed_all(&mut d, &input);
    let expected_tail = HELLO_ROW.replacen("00000000", "00000030", 1);
    assert_eq!(out, format!("{}\n*\n{}\n", FF_ROW, expected_tail));
}

#[test]
fn byte_classes_and_colors() {
    assert_eq!(class_of(0x00), ByteClass::Null);
    assert_eq!(class_of(0x01), ByteClass::Control);
    assert_eq!(class_of(0x20), ByteClass::Control);
    assert_eq!(class_of(0x21), ByteClass::Printable);
    assert_eq!(class_of(0x7e), ByteClass::Printable);
    assert_eq!(class_of(0x7f), ByteClass::Extended);
    assert_eq!(class_of(0xff), ByteClass::Extended);
    assert_eq!(color_for_ascii(&0x00), VtColor::Red);
    assert_eq!(color_for_ascii(&0x1f), VtColor::Magenta);
    assert_eq!(color_for_ascii(&b'A'), VtColor::Default);
    assert_eq!(color_for_ascii(&0x80), VtColor::Grey);
    assert_eq!(VtColor::Grey.vt_code(), 90);
    assert_eq!(text(VtColor::Red.to_bytes()), "\x1b[31m");
    assert_eq!(text(VtColor::Default.to_bytes()), "\x1b[39m");
}

#[test]
fn classification_is_repeatable() {
    for b in 0u8..=255 {
        assert_eq!(color_for_ascii(&b), color_for_ascii(&b));
        assert_eq!(class_of(b), class_of(b));
    }
}

#[test]
fn hex_digits_match_lowercase_encoding() {
    for b in 0u8..=255 {
        let mut out = Vec::new();
        push_hex_byte(&mut out, b);
        assert_eq!(text(out), format!("{:02x}", b));
    }
    assert_eq!(hex_digit(10), b'a');
    assert_eq!(hex_digit(9), b'9');
}

#[test]
fn gutter_shows_printable_bytes() {
    for b in 0u8..=255 {
        let expected = if (0x20..=0x7e).contains(&b) { b } else { b'.' };
        assert_eq!(gutter_char(b), expected);
    }
}

#[test]
fn offset_is_padded_to_eight_digits() {
    let mut out = Vec::new();
    push_hex_padded(&mut out, 0x10, 8);
    assert_eq!(text(out), "00000010");
    let mut out = Vec::new();
    push_hex_padded(&mut out, 0x1_2345_6789, 8);
    assert_eq!(text(out), "123456789");
    let mut out = Vec::new();
    push_hex_padded(&mut out, 0, 0);
    assert_eq!(text(out), "");
}

#[test]
fn render_row_pads_short_rows() {
    let row = b"wxyz".to_vec();
    let mut out = Vec::new();
    render_row(&mut out, &row, 4, 16);
    assert_eq!(text(out), WXYZ_ROW);
    let mut out = Vec::new();
    render_row(&mut out, &row, 0, 0);
    assert_eq!(
        text(out),
        format!("\x1b[39m00000000  {}\x1b[39m|\x1b[39m|", " ".repeat(50))
    );
    let mut out = Vec::new();
    render_row(&mut out, &vec![0u8], 1, 0);
    assert_eq!(
        text(out),
        format!(
            "\x1b[39m00000000  \x1b[31m00\x1b[39m {}\x1b[39m|\x1b[31m.\x1b[39m|",
            " ".repeat(47)
        )
    );
}

#[test]
fn clear_right_sequence() {
    let mut out = Vec::new();
    push_clear_right(&mut out);
    assert_eq!(text(out), "\x1b[0K");
}

fn feed_in_reads(d: &mut Dumper, input: &[u8], sizes: &[usize]) -> String {
    let mut out = String::new();
    let mut i = 0;
    let mut k = 0;
    while i < input.len() {
        let n = sizes[k % sizes.len()].min(d.read_window()).min(input.len() - i);
        out.push_str(&text(d.process_chunk(&input[i..i + n])));
        i += n;
        k += 1;
    }
    out
}

#[test]
fn uneven_reads_keep_line_count() {
    let mut input = b"Hello, world! 01".to_vec();
    input.extend_from_slice(&[0u8; 16]);
    input.extend_from_slice(b"Hello, world! 01");
    let mut d = Dumper::new();
    let out = feed_in_reads(&mut d, &input, &[3, 7, 1, 5]);
    assert_eq!(newline_count(&out), 3);
    assert!(!out.contains('*'));

    let run = vec![0xffu8; 80];
    let mut d = Dumper::new();
    let out = feed_in_reads(&mut d, &run, &[5, 2, 9]);
    assert_eq!(newline_count(&out), 2);
    assert_eq!(out.matches('*').count(), 1);
    assert!(out.contains(&format!("\r{}\n", FF_ROW)));
}
