use voicelink::header::{read_header, write_header, Header, HEADER_SIZE};
use voicelink::sequence::{seq_gt, seq_lt};

fn sample_header() -> Header {
    Header {
        seq: 0x0102_0304,
        ts_ms: 0x1112_1314_1516_1718,
        n_samples: 0x2122,
        sample_rate: 0x3132_3334,
        fmt: 2,
    }
}

#[test]
fn header_has_its_exact_bytes() {
    let mut out = [0xffu8; HEADER_SIZE];
    write_header(&sample_header(), &mut out);
    assert_eq!(
        out,
        [
            b'A', b'U', b'D', b'0', 1, 2, 0x01, 0x02, 0x03, 0x04, 0x11, 0x12, 0x13, 0x14, 0x15,
            0x16, 0x17, 0x18, 0x21, 0x22, 0x31, 0x32, 0x33, 0x34,
        ]
    );
}

#[test]
fn header_and_payload_read_back() {
    let mut out = [0u8; HEADER_SIZE];
    write_header(&sample_header(), &mut out);
    let mut datagram = out.to_vec();
    datagram.extend_from_slice(&[7, 8, 9]);
    let (h, payload) = read_header(&datagram).unwrap();
    assert_eq!(h, sample_header());
    assert_eq!(payload, &[7, 8, 9]);
}

#[test]
fn header_with_extreme_fields_reads_back() {
    for h in [
        Header { seq: 0, ts_ms: 0, n_samples: 0, sample_rate: 0, fmt: 0 },
        Header {
            seq: u32::MAX,
            ts_ms: u64::MAX,
            n_samples: u16::MAX,
            sample_rate: u32::MAX,
            fmt: u8::MAX,
        },
    ] {
        let mut out = [0u8; HEADER_SIZE];
        write_header(&h, &mut out);
        let (back, payload) = read_header(&out).unwrap();
        assert_eq!(back, h);
        assert!(payload.is_empty());
    }
}

#[test]
fn reading_and_writing_reproduces_the_datagram() {
    let datagram: Vec<u8> = b"AUD0"
        .iter()
        .copied()
        .chain([1u8])
        .chain((0u8..40).map(|i| i.wrapping_mul(37)))
        .collect();
    let (h, payload) = read_header(&datagram).unwrap();
    let mut out = [0u8; HEADER_SIZE];
    write_header(&h, &mut out);
    let mut again = out.to_vec();
    again.extend_from_slice(payload);
    assert_eq!(again, datagram);
}

#[test]
fn what_is_no_header_is_refused() {
    let mut out = [0u8; HEADER_SIZE];
    write_header(&sample_header(), &mut out);
    assert!(read_header(&[]).is_none());
    assert!(read_header(&out[..HEADER_SIZE - 1]).is_none());
    for i in 0..4 {
        let mut bad = out;
        bad[i] ^= 1;
        assert!(read_header(&bad).is_none());
    }
    let mut bad = out;
    bad[4] = 2;
    assert!(read_header(&bad).is_none());
}

#[test]
fn sequence_order_wraps() {
    assert!(!seq_lt(5, 5));
    assert!(seq_lt(5, 6));
    assert!(!seq_lt(6, 5));
    assert!(seq_gt(6, 5));
    assert!(!seq_gt(5, 6));
    assert!(seq_lt(u32::MAX, 0));
    assert!(!seq_lt(0, u32::MAX));
    assert!(seq_lt(u32::MAX - 2, 3));
}

#[test]
fn sequence_order_at_half_the_circle() {
    let half = 0x8000_0000u32;
    assert!(seq_lt(0, half));
    assert!(seq_lt(half, 0));
    assert!(seq_lt(0, half - 1));
    assert!(!seq_lt(half - 1, 0));
    assert!(!seq_lt(0, half + 1));
    assert!(seq_lt(half + 1, 0));
}

#[test]
fn sequence_order_is_transitive_within_half() {
    let (a, b, c) = (u32::MAX - 10, 5, 1_000_000);
    assert!(seq_lt(a, b) && seq_lt(b, c) && seq_lt(a, c));
}
