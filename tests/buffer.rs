use arrs_buffer::Buffer;

#[test]
fn zero_sized() {
    let _buf = Buffer::new(0);
}

#[test]
fn big_sized() {
    let _buf = Buffer::new(1331);
}

#[test]
fn cold_copy() {
    let src = &[1, 2, 3];
    let mut buf = Buffer::from_slice_cold(src);
    assert_eq!(buf.as_slice(), src);

    let src = &[5, 4];
    buf.cold_load(src);
    assert_eq!(buf.as_slice(), &[5, 4, 3]);

    let src = (0..244).collect::<Vec<u8>>();
    let buf = Buffer::from_slice_cold(&src);
    assert_eq!(buf.as_slice(), src);
}

#[test]
fn zero_length_buffer_is_empty() {
    let buf = Buffer::new(0);
    assert!(buf.is_empty());
    assert_eq!(buf.len(), 0);
    assert_eq!(buf.as_slice(), &[] as &[u8]);
    drop(buf);
}

#[test]
fn new_buffer_is_zeroed() {
    let buf = Buffer::new(1331);
    assert_eq!(buf.len(), 1331);
    assert!(!buf.is_empty());
    assert!(buf.as_slice().iter().all(|b| *b == 0));
}

#[test]
fn round_trip_both_strategies() {
    for n in 0..300usize {
        let src: Vec<u8> = (0..n).map(|i| (i * 7 + 3) as u8).collect();
        let plain = Buffer::from_slice(&src);
        let cold = Buffer::from_slice_cold(&src);
        assert_eq!(plain.as_slice(), &src[..]);
        assert_eq!(cold.as_slice(), &src[..]);
        assert_eq!(plain.len(), n);
    }
}

#[test]
fn cold_load_keeps_the_rest() {
    let mut buf = Buffer::from_slice(&[9u8; 100]);
    let src: Vec<u8> = (0..70u8).collect();
    buf.cold_load(&src);
    assert_eq!(&buf.as_slice()[..70], &src[..]);
    assert!(buf.as_slice()[70..].iter().all(|b| *b == 9));
    assert_eq!(buf.len(), 100);
}

#[test]
fn set_writes_one_byte() {
    let mut buf = Buffer::new(5);
    buf.set(3, 42);
    assert_eq!(buf.as_slice(), &[0, 0, 0, 42, 0]);
}

#[test]
fn clone_is_independent() {
    let mut a = Buffer::from_slice(&[1, 2, 3, 4]);
    let b = a.clone();
    assert_eq!(a.as_slice(), b.as_slice());
    a.set(0, 100);
    assert_eq!(a.as_slice(), &[100, 2, 3, 4]);
    assert_eq!(b.as_slice(), &[1, 2, 3, 4]);
}
