use vpn_tunnel::codec::{encode, read_prefix, take_next, write_prefix, RxBuffer};
use vpn_tunnel::error::VpnError;

enum TxMode {
    Full,
    Chunked(usize),
}

impl TxMode {
    fn split(&self, v: Vec<u8>) -> Vec<Vec<u8>> {
        match self {
            Self::Full => vec![v],
            Self::Chunked(s) => v[..].chunks(*s).map(|c| c.to_vec()).collect(),
        }
    }
}

#[test]
fn rx_buffer() {
    for tx in vec![TxMode::Full, TxMode::Chunked(1), TxMode::Chunked(2)] {
        for sz in [1, 2, 3, 5, 7, 12, 64] {
            let src = (0..=255u8)
                .into_iter()
                .map(|e| Vec::from_iter(std::iter::repeat(e).take(sz)))
                .collect::<Vec<_>>();

            let mut buf = RxBuffer::default();
            let mut dst = Vec::with_capacity(src.len());

            src.iter().cloned().for_each(|mut v| {
                write_prefix(&mut v);
                for received in tx.split(v) {
                    for item in buf.process(received) {
                        dst.push(item);
                    }
                }
            });

            assert_eq!(src, dst);
        }
    }
}

#[test]
fn encode_round_trip_single_frame() {
    let payload = b"hello world".to_vec();
    let framed = encode(&payload).unwrap();
    assert_eq!(framed[0], 11);
    assert_eq!(framed[1], 0);
    assert_eq!(&framed[2..], &payload[..]);

    let mut buf = RxBuffer::default();
    let out = buf.process(framed);
    assert_eq!(out, vec![payload]);
}

#[test]
fn two_chunk_delivery_yields_frames_in_order() {
    // Raw guest bytes [0x02,0x00,0x41,0x42, 0x01,0x00,0x43] split after the
    // third byte decode to "AB" then "C".
    let mut buf = RxBuffer::default();
    let first = buf.process(vec![0x02, 0x00, 0x41]);
    assert!(first.is_empty());
    let second = buf.process(vec![0x42, 0x01, 0x00, 0x43]);
    assert_eq!(second, vec![b"AB".to_vec(), b"C".to_vec()]);
}

#[test]
fn zero_length_payload_is_a_frame() {
    let framed = encode(&[]).unwrap();
    assert_eq!(framed, vec![0u8, 0u8]);
    let mut buf = RxBuffer::default();
    let out = buf.process(framed);
    assert_eq!(out, vec![Vec::<u8>::new()]);
}

#[test]
fn oversized_payload_is_refused() {
    let payload = vec![0u8; 65536];
    assert_eq!(encode(&payload).unwrap_err(), VpnError::FrameTooLarge);
    let just_fits = vec![0u8; 65535];
    assert!(encode(&just_fits).is_ok());
}

#[test]
fn every_split_offset_decodes_the_same() {
    let mut stream = Vec::new();
    for payload in [b"one".to_vec(), b"two2".to_vec(), Vec::new(), b"three".to_vec()] {
        stream.extend(encode(&payload).unwrap());
    }
    let mut whole = RxBuffer::default();
    let expected = whole.process(stream.clone());
    for cut in 0..=stream.len() {
        let mut buf = RxBuffer::default();
        let mut got = buf.process(stream[..cut].to_vec());
        got.extend(buf.process(stream[cut..].to_vec()));
        assert_eq!(got, expected);
    }
}

#[test]
fn incomplete_frame_keeps_prefix_for_retry() {
    let mut buf = RxBuffer::default();
    assert!(buf.process(vec![0x05, 0x00, 0x61]).is_empty());
    assert!(buf.process(vec![0x62, 0x63]).is_empty());
    let out = buf.process(vec![0x64, 0x65]);
    assert_eq!(out, vec![b"abcde".to_vec()]);
}

#[test]
fn read_prefix_is_low_byte_first() {
    assert_eq!(read_prefix(&[0x01, 0x02]), Some(0x0201));
    assert_eq!(read_prefix(&[0xff]), None);
    assert_eq!(read_prefix(&[]), None);
}

#[test]
fn take_next_waits_for_a_whole_frame() {
    let mut buf = RxBuffer::default();
    let _ = buf.process(vec![0x03, 0x00, 0x61, 0x62]);
    assert_eq!(take_next(&mut buf, 3), None);
    assert_eq!(take_next(&mut buf, 2), Some(b"ab".to_vec()));
}
