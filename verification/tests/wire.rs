use pgdog::net::text::{bytes_eq, str_eq};
use pgdog::net::wire::{
    framed, i16_from_slice, i32_from_slice, i64_from_slice, message_len, put_i16, put_i32,
    put_slice, put_string, startup_len, unframe, utf8_to_string, Reader,
};
use pgdog::net::Error;
use pgdog::stats::count;

#[test]
fn big_endian_integers() {
    let mut out = vec![];
    put_i16(&mut out, -2);
    put_i16(&mut out, 258);
    put_i32(&mut out, -1);
    put_i32(&mut out, 0x0102_0304);
    assert_eq!(out, vec![0xff, 0xfe, 1, 2, 0xff, 0xff, 0xff, 0xff, 1, 2, 3, 4]);
    assert_eq!(i16_from_slice(&out[0..2]), -2);
    assert_eq!(i16_from_slice(&out[2..4]), 258);
    assert_eq!(i32_from_slice(&out[4..8]), -1);
    assert_eq!(i32_from_slice(&out[8..12]), 0x0102_0304);
    assert_eq!(i64_from_slice(&[0x80, 0, 0, 0, 0, 0, 0, 0]), i64::MIN);
    assert_eq!(
        i64_from_slice(&[0x7f, 0xff, 0xff, 0xff, 0xff, 0xff, 0xff, 0xff]),
        i64::MAX
    );
    assert_eq!(i64_from_slice(&[0, 0, 0, 1, 0, 0, 0, 2]), 0x1_0000_0002);
}

#[test]
fn reader_walks_through_a_message() {
    let bytes = [b'x', 0, 7, 0xff, 0xff, 0xff, 0xfe, b'h', b'i', 0, 9, 8];
    let mut r = Reader::new(&bytes);
    assert_eq!(r.len(), 12);
    assert_eq!(r.get_u8(), Ok(b'x'));
    assert_eq!(r.get_i16(), Ok(7));
    assert_eq!(r.get_i32(), Ok(-2));
    assert_eq!(r.c_string(), Ok("hi".to_string()));
    assert_eq!(r.take(1), Ok(&[9u8][..]));
    assert!(r.has_remaining());
    assert_eq!(r.get_i16(), Err(Error::UnexpectedEof));
    assert_eq!(r.get_i32(), Err(Error::UnexpectedEof));
    assert_eq!(r.take(2), Err(Error::UnexpectedEof));
    assert_eq!(r.len(), 1);
    assert_eq!(r.c_string(), Ok("\u{8}".to_string()));
    assert!(!r.has_remaining());
    assert_eq!(r.get_u8(), Err(Error::UnexpectedEof));
    assert_eq!(r.c_string(), Ok(String::new()));
}

#[test]
fn frames() {
    let body = vec![1, 2, 3];
    let message = framed(b'd', &body).unwrap();
    assert_eq!(message, vec![b'd', 0, 0, 0, 7, 1, 2, 3]);
    let mut r = Reader::new(&message);
    assert_eq!(unframe(&mut r, b'd'), Ok(()));
    assert_eq!(r.len(), 3);
    let mut r = Reader::new(&message);
    assert_eq!(
        unframe(&mut r, b'D'),
        Err(Error::UnexpectedMessage('D', 'd'))
    );
    let mut r = Reader::new(&message[..3]);
    assert_eq!(unframe(&mut r, b'd'), Err(Error::UnexpectedEof));
}

#[test]
fn strings_are_written_with_their_terminator() {
    let mut out = vec![9];
    put_string(&mut out, "h\u{e9}");
    put_slice(&mut out, b"zz");
    assert_eq!(out, vec![9, b'h', 0xc3, 0xa9, 0, b'z', b'z']);
    assert_eq!(utf8_to_string(&out[1..4]), Some("h\u{e9}".to_string()));
    assert_eq!(utf8_to_string(&out[1..3]), None);
}

#[test]
fn length_of_the_next_message() {
    assert_eq!(message_len(&[]), Ok(None));
    assert_eq!(message_len(&[b'Q', 0, 0, 0]), Ok(None));
    assert_eq!(message_len(&[b'Q', 0, 0, 0, 4]), Ok(Some(5)));
    assert_eq!(message_len(&[b'Q', 0, 0, 1, 0, 7, 7]), Ok(Some(257)));
    assert_eq!(message_len(&[b'Q', 0, 0, 0, 3]), Err(Error::InvalidLength));
    assert_eq!(
        message_len(&[b'Q', 0xff, 0xff, 0xff, 0xff]),
        Err(Error::InvalidLength)
    );
    assert_eq!(startup_len(&[0, 0, 0]), Ok(None));
    assert_eq!(startup_len(&[0, 0, 0, 8]), Ok(Some(8)));
    assert_eq!(startup_len(&[0, 0, 0, 7]), Err(Error::InvalidLength));
}

#[test]
fn text_is_compared_by_its_bytes() {
    assert!(str_eq("abc", "abc"));
    assert!(!str_eq("abc", "abd"));
    assert!(!str_eq("abc", "ab"));
    assert!(str_eq("", ""));
    assert!(bytes_eq(b"\x00\xff", b"\x00\xff"));
    assert!(!bytes_eq(b"a", b""));
}

#[test]
fn counters_stop_at_the_top() {
    assert_eq!(count(1, 2), 3);
    assert_eq!(count(usize::MAX, 1), usize::MAX);
    assert_eq!(count(usize::MAX - 1, 1), usize::MAX);
    assert_eq!(count(5, usize::MAX), usize::MAX);
}
