use roomserver::frame::{build_frame, declared_length_fits, read_frame};

fn masked(opcode: u8, key: [u8; 4], payload: &[u8]) -> Vec<u8> {
    let mut f = vec![0x80 | opcode];
    let n = payload.len();
    if n <= 125 {
        f.push(0x80 | n as u8);
    } else if n <= 65535 {
        f.push(0xfe);
        f.extend_from_slice(&(n as u16).to_be_bytes());
    } else {
        f.push(0xff);
        f.extend_from_slice(&(n as u64).to_be_bytes());
    }
    f.extend_from_slice(&key);
    for (i, b) in payload.iter().enumerate() {
        f.push(b ^ key[i % 4]);
    }
    f
}

#[test]
fn small_frame() {
    assert_eq!(build_frame(true, 1, b"hi"), vec![0x81, 2, b'h', b'i']);
    assert_eq!(build_frame(false, 2, b""), vec![0x02, 0]);
    assert_eq!(build_frame(true, 8, b""), vec![0x88, 0]);
    assert_eq!(build_frame(true, 0x1f, b""), vec![0x8f, 0]);
}

#[test]
fn medium_frame() {
    let payload = vec![7u8; 126];
    let f = build_frame(true, 1, &payload);
    assert_eq!(&f[..4], &[0x81, 126, 0, 126]);
    assert_eq!(f.len(), 4 + 126);
    let payload = vec![7u8; 65535];
    let f = build_frame(true, 1, &payload);
    assert_eq!(&f[..4], &[0x81, 126, 0xff, 0xff]);
}

#[test]
fn large_frame() {
    let payload = vec![1u8; 65536];
    let f = build_frame(true, 2, &payload);
    assert_eq!(&f[..10], &[0x82, 127, 0, 0, 0, 0, 0, 1, 0, 0]);
    assert_eq!(f.len(), 10 + 65536);
}

#[test]
fn masked_frame_is_unmasked() {
    let key = [0x37, 0xfa, 0x21, 0x3d];
    let mut buf = masked(1, key, b"Hello");
    assert_eq!(&buf[..], &[0x81, 0x85, 0x37, 0xfa, 0x21, 0x3d, 0x7f, 0x9f, 0x4d, 0x51, 0x58]);
    assert_eq!(read_frame(&mut buf), Some((1, Some(b"Hello".to_vec()))));
    assert!(buf.is_empty());
}

#[test]
fn masked_frames_of_all_sizes() {
    for n in [0usize, 1, 125, 126, 65535, 65536] {
        let payload: Vec<u8> = (0..n).map(|i| (i % 251) as u8).collect();
        let mut buf = masked(2, [1, 2, 3, 4], &payload);
        assert_eq!(read_frame(&mut buf), Some((2, Some(payload))));
    }
}

#[test]
fn built_frame_reads_back() {
    for n in [4usize, 125, 126, 70000] {
        let payload: Vec<u8> = (0..n).map(|i| (i % 7) as u8).collect();
        let mut buf = build_frame(true, 1, &payload);
        assert!(declared_length_fits(&buf));
        assert_eq!(read_frame(&mut buf), Some((1, Some(payload))));
    }
}

#[test]
fn short_unmasked_frame_waits() {
    let mut buf = build_frame(true, 1, b"hi");
    assert_eq!(read_frame(&mut buf), None);
    assert_eq!(buf, vec![0x81, 2, b'h', b'i']);
}

#[test]
fn close_frame() {
    let mut buf = vec![0x88, 0x80, 1, 2, 3, 4];
    assert_eq!(read_frame(&mut buf), Some((8, None)));
    assert_eq!(buf.len(), 6);
}

#[test]
fn too_short_and_other_opcodes() {
    let mut buf = vec![0x88, 0];
    assert_eq!(read_frame(&mut buf), None);
    let mut buf = vec![0x89, 0x80, 1, 2, 3, 4];
    assert_eq!(read_frame(&mut buf), None);
    assert_eq!(buf.len(), 6);
}

#[test]
fn incomplete_payload_waits() {
    let mut buf = masked(1, [9, 9, 9, 9], b"hello world");
    buf.truncate(buf.len() - 1);
    let before = buf.clone();
    assert_eq!(read_frame(&mut buf), None);
    assert_eq!(buf, before);
}

#[test]
fn trailing_bytes_are_dropped() {
    let mut buf = masked(1, [0, 0, 0, 0], b"abcd");
    buf.extend_from_slice(b"next");
    assert_eq!(read_frame(&mut buf), Some((1, Some(b"abcd".to_vec()))));
    assert!(buf.is_empty());
}

#[test]
fn overflowing_length_is_detected() {
    let mut buf = vec![0x81, 127, 0xff, 0xff, 0xff, 0xff, 0xff, 0xff, 0xff, 0xff, 0, 0, 0, 0];
    assert!(!declared_length_fits(&buf));
    buf[2] = 0;
    assert!(declared_length_fits(&buf));
    assert_eq!(read_frame(&mut buf), None);
    assert!(declared_length_fits(&[0x81, 0x7f]));
}
