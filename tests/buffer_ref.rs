use std::sync::Arc;

use arrs_buffer::{Buffer, BufferRef};

#[test]
fn from_buffer() {
    let mut buffer = Buffer::new(32);
    buffer.set(17, 69);

    let buf_ref = buffer.into_ref();
    let buf_ref = buf_ref.slice(16, 3);

    assert_eq!(buf_ref.as_slice()[1], 69);
    assert_eq!(buf_ref.start(), 16);
}

#[test]
fn into_ref_covers_whole_buffer() {
    let r = Buffer::from_slice(&[4, 5, 6]).into_ref();
    assert_eq!(r.start(), 0);
    assert_eq!(r.len(), 3);
    assert_eq!(r.inner_len(), 3);
    assert!(!r.is_empty());
    assert_eq!(r.as_slice(), &[4, 5, 6]);
}

#[test]
fn new_ref_over_window() {
    let inner = Arc::new(Buffer::from_slice(&[10, 11, 12, 13, 14]));
    let r = BufferRef::new(inner.clone(), 1, 3);
    assert_eq!(r.as_slice(), &[11, 12, 13]);
    assert_eq!(r.inner_len(), 5);
    let end = BufferRef::new(inner, 5, 0);
    assert!(end.is_empty());
    assert_eq!(end.start(), 5);
}

#[test]
fn slice_composition() {
    let src: Vec<u8> = (0..100u8).collect();
    let r = Buffer::from_slice(&src).into_ref().slice(5, 80);
    let s1 = r.slice(10, 50);
    let s2 = s1.slice(7, 20);
    assert_eq!(s2.start(), 5 + 10 + 7);
    assert_eq!(s2.len(), 20);
    assert_eq!(s2.inner_len(), 100);
    for i in 0..20usize {
        assert_eq!(s2.as_slice()[i], r.as_slice()[10 + 7 + i]);
    }
}

#[test]
fn slice_at_the_limit() {
    let r = Buffer::from_slice(&[1, 2, 3, 4]).into_ref();
    let s = r.slice(4, 0);
    assert!(s.is_empty());
    let s = r.slice(0, 4);
    assert_eq!(s.as_slice(), &[1, 2, 3, 4]);
}

#[test]
fn clones_outlive_the_original() {
    let r = Buffer::from_slice(&[7, 8, 9]).into_ref();
    let a = r.clone();
    let b = r.slice(1, 2);
    drop(r);
    assert_eq!(a.as_slice(), &[7, 8, 9]);
    drop(a);
    assert_eq!(b.as_slice(), &[8, 9]);
    assert_eq!(b.start(), 1);
}
