//! Fields on the wire: integers, booleans, padded bytes and strings.

use nfs::cursor::Cursor;
use nfs::text;
use nfs::writer::ByteWriter;
use nfs::xdr::{self, Xdr, XdrWrite};

#[test]
fn what_is_put_is_read_back_in_order_with_its_padding() {
    let mut out: Vec<u8> = Vec::new();
    out.u32_be(7)
        .u64_be(1 << 40)
        .bool(true)
        .opaque(b"abcde")
        .string("x")
        .fixed(&[1, 2, 3]);
    assert_eq!(out.len(), 4 + 8 + 4 + 12 + 8 + 4);
    let mut reader = Cursor::new(&out);
    assert_eq!(reader.u32_be().expect("u32"), 7);
    assert_eq!(reader.u64_be().expect("u64"), 1 << 40);
    assert!(reader.bool().expect("bool"));
    assert_eq!(reader.opaque().expect("opaque"), b"abcde");
    assert_eq!(reader.string().expect("string"), "x");
    assert_eq!(reader.fixed(3).expect("fixed"), &[1, 2, 3]);
    assert!(reader.is_empty());
    assert!(reader.remaining().is_empty());
}

#[test]
fn a_buffer_that_ends_early_is_a_protocol_error() {
    let mut reader = Cursor::new(&[0, 0, 0, 9, b'a']);
    let error = reader.opaque().expect_err("cut short");
    assert!(!error.retryable);
    assert!(error.message.contains("runs past"), "{}", error.message);
    assert!(Cursor::new(&[0, 0]).u32_be().is_err());
    assert_eq!(xdr::padding(0), 0);
    assert_eq!(xdr::padding(5), 3);
}

#[test]
fn a_missing_pad_is_refused_and_moves_nothing() {
    let mut reader = Cursor::new(&[1, 2, 3]);
    assert!(reader.fixed(3).is_err(), "three bytes with no pad");
    assert_eq!(reader.position(), 0);
    assert_eq!(
        Cursor::new(&[1, 2, 3, 0]).fixed(3).expect("padded"),
        &[1, 2, 3]
    );
}

#[test]
fn integers_go_most_significant_first() {
    let mut out: Vec<u8> = Vec::new();
    out.u32_be(0x0102_0304).u64_be(0x0506_0708_090a_0b0c);
    assert_eq!(out, [1, 2, 3, 4, 5, 6, 7, 8, 9, 10, 11, 12]);
    let mut reader = Cursor::new(&out);
    assert_eq!(reader.u32_be().expect("u32"), 0x0102_0304);
    assert_eq!(reader.u64_be().expect("u64"), 0x0506_0708_090a_0b0c);
    assert_eq!(Cursor::new(&[0xff; 4]).u32_be().expect("u32"), u32::MAX);
    assert_eq!(Cursor::new(&[0xff; 8]).u64_be().expect("u64"), u64::MAX);
}

#[test]
fn a_cursor_takes_whole_runs_or_stays() {
    let mut reader = Cursor::new(b"abcdef");
    assert_eq!(reader.take(2).expect("two"), b"ab");
    assert_eq!(reader.position(), 2);
    assert!(reader.take(5).is_err());
    assert!(reader.u64_be().is_err());
    assert_eq!(reader.position(), 2);
    assert_eq!(reader.remaining(), b"cdef");
    assert_eq!(reader.take(4).expect("four"), b"cdef");
    assert!(reader.is_empty());
}

#[test]
fn any_number_but_zero_is_true() {
    assert!(!Cursor::new(&[0, 0, 0, 0]).bool().expect("false"));
    assert!(Cursor::new(&[0, 0, 0, 1]).bool().expect("true"));
    assert!(Cursor::new(&[2, 0, 0, 0]).bool().expect("true"));
}

#[test]
fn what_a_pad_holds_is_not_looked_at() {
    let mut reader = Cursor::new(&[0, 0, 0, 1, b'a', 9, 9, 9, 7]);
    assert_eq!(reader.opaque().expect("padded"), b"a");
    assert_eq!(reader.position(), 8);
    assert_eq!(reader.remaining(), &[7]);
    for (count, padded) in [(0, 0), (1, 3), (2, 2), (3, 1), (4, 0), (9, 3)] {
        assert_eq!(xdr::padding(count), padded);
    }
    assert_eq!(xdr::count(5), 5);
}

#[test]
fn a_failed_count_is_read_and_what_it_counts_is_not() {
    let mut reader = Cursor::new(&[0, 0, 0, 9, b'a']);
    assert!(reader.string().is_err());
    assert_eq!(reader.position(), 4);
}

#[test]
fn a_string_that_is_not_utf8_is_read_as_the_nearest_text() {
    let mut out: Vec<u8> = Vec::new();
    out.opaque(&[b'a', 0xff, b'b']).string("größe");
    let mut reader = Cursor::new(&out);
    assert_eq!(reader.string().expect("lossy"), "a\u{fffd}b");
    assert_eq!(reader.string().expect("whole"), "größe");
}

#[test]
fn numbers_are_written_in_decimal() {
    for value in [0, 7, 10, 65_536, u64::MAX] {
        assert_eq!(text::number(value), format!("{value}"));
    }
    assert!(text::same_text("größe", "größe"));
    assert!(!text::same_text("a", "b"));
    assert!(!text::same_text("a", "ab"));
    assert!(text::same_bytes(&[], &[]));
    assert!(!text::same_bytes(&[1, 2], &[1, 3]));
}
