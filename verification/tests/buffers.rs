use fdreactor::buffer::Buffer;
use fdreactor::framer::{Framer, FrameBuffer, LineFramer};

#[test]
fn vec_buffer_appends_at_back() {
    let mut b: Vec<u8> = Vec::new();
    Buffer::append(&mut b, b"ab");
    Buffer::append(&mut b, b"cd");
    assert_eq!(Buffer::view(&b), b"abcd");
    assert_eq!(Buffer::len(&b), 4);
}

#[test]
fn vec_buffer_consumes_front() {
    let mut b: Vec<u8> = b"hello".to_vec();
    Buffer::consume(&mut b, 2);
    assert_eq!(Buffer::view(&b), b"llo");
    Buffer::consume(&mut b, 3);
    assert!(Buffer::is_empty(&b));
}

#[test]
fn vec_buffer_consume_nothing() {
    let mut b: Vec<u8> = b"xy".to_vec();
    Buffer::consume(&mut b, 0);
    assert_eq!(Buffer::view(&b), b"xy");
}

#[test]
fn vec_buffer_is_empty_tracks_len() {
    let b: Vec<u8> = Vec::new();
    assert!(Buffer::is_empty(&b));
    let c: Vec<u8> = vec![1];
    assert!(!Buffer::is_empty(&c));
}

#[test]
fn vec_buffer_available_is_spare_capacity() {
    let b: Vec<u8> = Vec::with_capacity(16);
    assert!(Buffer::available(&b) >= 16);
    let mut c: Vec<u8> = Vec::with_capacity(8);
    Buffer::append(&mut c, b"abc");
    assert_eq!(Buffer::available(&c), c.capacity() - 3);
}

#[test]
fn line_framer_includes_newline() {
    let mut f = LineFramer::default();
    let mut b: Vec<u8> = b"ab\ncd\n".to_vec();
    assert_eq!(f.next_frame(&mut b), Some(3));
    assert_eq!(b, b"ab\ncd\n".to_vec());
}

#[test]
fn line_framer_strip_cr_stops_on_newline() {
    let mut f = LineFramer { strip_cr: true };
    let mut b: Vec<u8> = b"ab\ncd\n".to_vec();
    assert_eq!(f.next_frame(&mut b), Some(2));
}

#[test]
fn line_framer_without_newline() {
    let mut f = LineFramer::default();
    let mut b: Vec<u8> = b"abc".to_vec();
    assert_eq!(f.next_frame(&mut b), None);
    let mut e: Vec<u8> = Vec::new();
    assert_eq!(f.next_frame(&mut e), None);
}

#[test]
fn line_framer_newline_first() {
    let mut f = LineFramer::default();
    let mut b: Vec<u8> = b"\nrest".to_vec();
    assert_eq!(f.next_frame(&mut b), Some(1));
    let mut g = LineFramer { strip_cr: true };
    assert_eq!(g.next_frame(&mut b), Some(0));
}

#[test]
fn frame_buffer_hands_out_lines_in_order() {
    let mut fb = FrameBuffer::new(64);
    assert!(fb.push(b"one\ntw").is_ok());
    assert_eq!(fb.next_frame(), Some(b"one\n".to_vec()));
    assert_eq!(fb.next_frame(), None);
    assert!(fb.push(b"o\n").is_ok());
    assert_eq!(fb.next_frame(), Some(b"two\n".to_vec()));
    assert_eq!(fb.next_frame(), None);
}

#[test]
fn frame_buffer_refuses_overflow() {
    let mut fb = FrameBuffer::new(4);
    assert!(fb.push(b"abc").is_ok());
    assert!(fb.push(b"de").is_err());
    assert!(fb.push(b"d").is_ok());
    assert!(fb.push(b"\n").is_err());
    assert_eq!(fb.next_frame(), None);
}

#[test]
fn spare_is_capacity_minus_length() {
    assert_eq!(fdreactor::buffer::spare(10, 3), 7);
    assert_eq!(fdreactor::buffer::spare(4, 4), 0);
}
