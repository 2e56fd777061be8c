use aster_dyndbg::kmsg::{append, clear, read_all, read_all_clear, read_into, size_now, KmsgRing, RING_CAPACITY};

#[test]
fn reads_consume_in_order() {
    let mut ring = KmsgRing::new();
    append(&mut ring, b"hello");
    assert_eq!(size_now(&ring), 5);
    let mut buf = [0u8; 3];
    assert_eq!(read_into(&mut ring, &mut buf), 3);
    assert_eq!(&buf, b"hel");
    let mut buf2 = [9u8; 4];
    assert_eq!(read_into(&mut ring, &mut buf2), 2);
    assert_eq!(&buf2, &[b'l', b'o', 9, 9]);
    assert_eq!(read_into(&mut ring, &mut buf2), 0);
    assert_eq!(size_now(&ring), 5);
}

#[test]
fn read_all_does_not_consume() {
    let mut ring = KmsgRing::new();
    append(&mut ring, b"abc");
    assert_eq!(read_all(&ring, 100), b"abc".to_vec());
    assert_eq!(read_all(&ring, 2), b"ab".to_vec());
    let mut buf = [0u8; 8];
    assert_eq!(read_into(&mut ring, &mut buf), 3);
    assert_eq!(read_all(&ring, 100), b"abc".to_vec());
}

#[test]
fn clear_drops_everything() {
    let mut ring = KmsgRing::new();
    append(&mut ring, b"abc");
    clear(&mut ring);
    assert_eq!(size_now(&ring), 0);
    let mut buf = [0u8; 8];
    assert_eq!(read_into(&mut ring, &mut buf), 0);
    append(&mut ring, b"d");
    assert_eq!(read_all(&ring, 100), b"d".to_vec());
}

#[test]
fn read_all_clear_returns_then_drops() {
    let mut ring = KmsgRing::new();
    append(&mut ring, b"xyz");
    assert_eq!(read_all_clear(&mut ring, 10), b"xyz".to_vec());
    assert_eq!(size_now(&ring), 0);
}

#[test]
fn overwritten_bytes_are_skipped() {
    let mut ring = KmsgRing::new();
    let mut data = Vec::new();
    for i in 0..(RING_CAPACITY + 10) {
        data.push((i % 251) as u8);
    }
    append(&mut ring, &data);
    assert_eq!(size_now(&ring), RING_CAPACITY);
    let mut buf = [0u8; 4];
    assert_eq!(read_into(&mut ring, &mut buf), 4);
    assert_eq!(buf.to_vec(), data[10..14].to_vec());
    let all = read_all(&ring, usize::MAX);
    assert_eq!(all.len(), RING_CAPACITY);
    assert_eq!(all[0], data[10]);
    assert_eq!(all[RING_CAPACITY - 1], data[RING_CAPACITY + 9]);
}
