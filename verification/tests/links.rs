use voicelink::codec::{AudioCodec, CodecError, PcmCodec};
use voicelink::header::{read_header, Header, HEADER_SIZE};
use voicelink::jitter::JitterBuffer;
use voicelink::link::{accept, encode_frame, offer, receive, EncodedFrame, Offer, Received, Sender};

fn ready(o: Offer) -> EncodedFrame {
    match o {
        Offer::Ready(f) => f,
        Offer::TooLarge(n) => panic!("too large: {}", n),
    }
}

fn frame(r: Received) -> (Header, Vec<i16>) {
    match r {
        Received::Frame { header, pcm } => (header, pcm),
        other => panic!("no frame: {:?}", other),
    }
}

/// A codec with a format of its own, which replies as it is told.
struct Scripted {
    encoded: Option<Vec<u8>>,
    decoded: Option<Vec<i16>>,
    asked: Vec<(Vec<u8>, usize)>,
    frames: Vec<Vec<i16>>,
}

impl AudioCodec for Scripted {
    fn encode(&mut self, pcm: &[i16]) -> Result<Vec<u8>, CodecError> {
        self.frames.push(pcm.to_vec());
        self.encoded.clone().ok_or(CodecError { message: "no packet".to_string() })
    }

    fn decode(&mut self, data: &[u8], expected_samples: usize) -> Result<Vec<i16>, CodecError> {
        self.asked.push((data.to_vec(), expected_samples));
        self.decoded.clone().ok_or(CodecError { message: "no frame".to_string() })
    }

    fn format_id(&self) -> u8 {
        9
    }

    fn frame_samples(&self) -> usize {
        0x1_0003
    }

    fn sample_rate(&self) -> u32 {
        8_000
    }
}

#[test]
fn a_datagram_holds_header_and_payload() {
    let mut sender = Sender::new(7);
    let f = ready(offer(vec![1, 2, 3], 320, 16_000, 2));
    let d = sender.stamp(&f, 55);
    assert_eq!(d.len(), HEADER_SIZE + 3);
    let (h, payload) = read_header(&d).unwrap();
    assert_eq!(h, Header { seq: 7, ts_ms: 55, n_samples: 320, sample_rate: 16_000, fmt: 2 });
    assert_eq!(payload, &[1, 2, 3]);
}

#[test]
fn datagrams_are_numbered_through_the_wrap() {
    let mut sender = Sender::new(u32::MAX);
    let f = ready(offer(vec![], 0, 0, 0));
    let a = read_header(&sender.stamp(&f, 0)).unwrap().0.seq;
    let b = read_header(&sender.stamp(&f, 0)).unwrap().0.seq;
    let c = read_header(&sender.stamp(&f, 0)).unwrap().0.seq;
    assert_eq!((a, b, c), (u32::MAX, 0, 1));
}

#[test]
fn the_largest_payload_fits_and_one_more_byte_does_not() {
    let f = ready(offer(vec![0; 1176], 1, 1, 1));
    assert_eq!(Sender::new(0).stamp(&f, 0).len(), 1200);
    assert!(matches!(offer(vec![0; 1177], 1, 1, 1), Offer::TooLarge(1201)));
}

#[test]
fn the_sample_count_keeps_its_low_half() {
    let f = ready(offer(vec![], 0x1_0140, 1, 1));
    let d = Sender::new(0).stamp(&f, 0);
    assert_eq!(read_header(&d).unwrap().0.n_samples, 0x140);
}

#[test]
fn uncompressed_frames_fit_up_to_their_limit() {
    let mut c = PcmCodec::new(48_000, 588);
    assert!(matches!(encode_frame(&mut c, &[0; 588]), Ok(Offer::Ready(_))));
    assert!(matches!(encode_frame(&mut c, &[0; 589]), Ok(Offer::TooLarge(1202))));
    assert!(matches!(encode_frame(&mut c, &[0; 960]), Ok(Offer::TooLarge(1944))));
}

#[test]
fn uncompressed_samples_are_delivered() {
    let pcm: Vec<i16> = (0..320).map(|i| (i * 211 - 30_000) as i16).collect();
    let mut c = PcmCodec::new(16_000, 320);
    let f = ready(encode_frame(&mut c, &pcm).unwrap());
    let d = Sender::new(41).stamp(&f, 1_000);
    let mut peer = PcmCodec::new(16_000, 320);
    let (h, got) = frame(receive(&mut peer, &d));
    assert_eq!(got, pcm);
    assert_eq!(h, Header { seq: 41, ts_ms: 1_000, n_samples: 320, sample_rate: 16_000, fmt: 1 });
}

#[test]
fn a_frame_of_another_length_is_cut_or_padded() {
    let mut c = PcmCodec::new(16_000, 4);
    let f = ready(encode_frame(&mut c, &[1, 2]).unwrap());
    let (_, got) = frame(receive(&mut c, &Sender::new(0).stamp(&f, 0)));
    assert_eq!(got, vec![1, 2, 0, 0]);
    let f = ready(encode_frame(&mut c, &[1, 2, 3, 4, 5]).unwrap());
    let (_, got) = frame(receive(&mut c, &Sender::new(0).stamp(&f, 0)));
    assert_eq!(got, vec![1, 2, 3, 4]);
}

#[test]
fn uncompressed_samples_are_played() {
    let mut c = PcmCodec::new(16_000, 3);
    let mut sender = Sender::new(0);
    let mut jb = JitterBuffer::new(0);
    for k in 0..4i16 {
        let f = ready(encode_frame(&mut c, &[k, k + 1, k + 2]).unwrap());
        let (h, pcm) = frame(receive(&mut c, &sender.stamp(&f, 10)));
        jb.push(h, pcm);
    }
    for k in 0..4i16 {
        assert_eq!(jb.pop_for_playout().frame, vec![k, k + 1, k + 2]);
    }
}

#[test]
fn what_is_no_datagram_is_ignored() {
    let mut c = PcmCodec::new(16_000, 3);
    assert!(matches!(receive(&mut c, b"AUD0"), Received::Ignored));
    assert!(matches!(receive(&mut c, &[0u8; 64]), Received::Ignored));
}

#[test]
fn another_format_is_refused_without_asking_the_codec() {
    let f = ready(offer(vec![1], 3, 16_000, 1));
    let d = Sender::new(0).stamp(&f, 0);
    let mut c = Scripted { encoded: None, decoded: None, asked: vec![], frames: vec![] };
    assert!(matches!(receive(&mut c, &d), Received::FormatMismatch { expected: 9, got: 1 }));
    assert!(c.asked.is_empty());
}

#[test]
fn a_codec_is_asked_for_the_payload_and_its_count() {
    let mut c = Scripted {
        encoded: Some(vec![4, 5]),
        decoded: Some(vec![8]),
        asked: vec![],
        frames: vec![],
    };
    let f = ready(encode_frame(&mut c, &[]).unwrap());
    let d = Sender::new(0).stamp(&f, 0);
    let (h, pcm) = frame(receive(&mut c, &d));
    assert_eq!(c.asked, vec![(vec![4, 5], 3)]);
    assert_eq!((h.n_samples, h.sample_rate, h.fmt), (3, 8_000, 9));
    assert_eq!(pcm, vec![8, 0, 0]);
}

#[test]
fn a_codec_that_refuses_a_frame_is_heard() {
    let mut c = Scripted { encoded: None, decoded: None, asked: vec![], frames: vec![] };
    assert_eq!(encode_frame(&mut c, &[]).unwrap_err().message, "no packet");
}

#[test]
fn a_codec_that_refuses_a_payload_is_heard() {
    let mut c = Scripted { encoded: Some(vec![1]), decoded: None, asked: vec![], frames: vec![] };
    let f = ready(encode_frame(&mut c, &[]).unwrap());
    match receive(&mut c, &Sender::new(0).stamp(&f, 0)) {
        Received::DecodeFailed { fmt, error } => {
            assert_eq!(fmt, 9);
            assert_eq!(error.message, "no frame");
        }
        other => panic!("{:?}", other),
    }
}

#[test]
fn a_reply_is_fitted_to_the_header() {
    let h = Header { seq: 1, ts_ms: 2, n_samples: 2, sample_rate: 3, fmt: 4 };
    assert_eq!(frame(accept(h, Ok(vec![7, 8, 9]))), (h, vec![7, 8]));
    assert_eq!(frame(accept(h, Ok(vec![7, 8]))), (h, vec![7, 8]));
    assert_eq!(frame(accept(h, Ok(vec![]))), (h, vec![0, 0]));
}

#[test]
fn a_codec_may_be_chosen_at_run_time() {
    let mut codec: Box<dyn AudioCodec> = Box::new(PcmCodec::new(16_000, 2));
    let f = ready(encode_frame(&mut *codec, &[3, -3]).unwrap());
    let (_, pcm) = frame(receive(&mut *codec, &Sender::new(0).stamp(&f, 0)));
    assert_eq!(pcm, vec![3, -3]);
}

#[test]
fn a_codec_is_asked_once_for_each_frame_and_each_payload() {
    let mut c = Scripted {
        encoded: Some(vec![1]),
        decoded: Some(vec![2]),
        asked: vec![],
        frames: vec![],
    };
    let mut sender = Sender::new(0);
    for k in 0..3i16 {
        let f = ready(encode_frame(&mut c, &[k]).unwrap());
        frame(receive(&mut c, &sender.stamp(&f, 0)));
    }
    assert_eq!(c.frames, vec![vec![0], vec![1], vec![2]]);
    assert_eq!(c.asked, vec![(vec![1], 3), (vec![1], 3), (vec![1], 3)]);
}

#[test]
fn an_uncompressed_codec_stays_as_it_was() {
    let mut c = PcmCodec::new(16_000, 2);
    let f = ready(encode_frame(&mut c, &[3, -3]).unwrap());
    assert_eq!(c, PcmCodec::new(16_000, 2));
    frame(receive(&mut c, &Sender::new(0).stamp(&f, 0)));
    assert_eq!(c, PcmCodec::new(16_000, 2));
}
