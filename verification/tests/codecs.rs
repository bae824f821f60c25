use voicelink::codec::{AudioCodec, CodecError, PcmCodec, FMT_OPUS, FMT_PCM};
use voicelink::opus::{
    OpusCodec, OPUS_BITRATE, OPUS_INBAND_FEC, OPUS_MAX_PACKET, OPUS_PACKET_LOSS_PERC, OPUS_VBR,
};

#[test]
fn pcm_reports_its_parameters() {
    let c = PcmCodec::new(16_000, 320);
    assert_eq!(c.sample_rate(), 16_000);
    assert_eq!(c.frame_samples(), 320);
    assert_eq!(c.format_id(), FMT_PCM);
    assert_eq!(FMT_PCM, 1);
}

#[test]
fn pcm_encodes_little_endian() {
    let mut c = PcmCodec::new(16_000, 4);
    let bytes = c.encode(&[0x0102, -1, i16::MIN, i16::MAX]).unwrap();
    assert_eq!(bytes, vec![0x02, 0x01, 0xff, 0xff, 0x00, 0x80, 0xff, 0x7f]);
}

#[test]
fn pcm_encodes_as_the_machine_independent_layout_for_every_sample() {
    let all: Vec<i16> = (i16::MIN..=i16::MAX).collect();
    let mut c = PcmCodec::new(16_000, all.len());
    let bytes = c.encode(&all).unwrap();
    let expected: Vec<u8> = all.iter().flat_map(|s| s.to_le_bytes()).collect();
    assert_eq!(bytes, expected);
    assert_eq!(c.decode(&bytes, all.len()).unwrap(), all);
}

#[test]
fn pcm_payload_survives_decoding() {
    let data: Vec<u8> = (0u8..=255).collect();
    let mut c = PcmCodec::new(16_000, 128);
    let pcm = c.decode(&data, 128).unwrap();
    assert_eq!(c.encode(&pcm).unwrap(), data);
}

#[test]
fn pcm_decode_pads_with_zeros_and_cuts() {
    let mut c = PcmCodec::new(16_000, 4);
    assert_eq!(c.decode(&[1, 0, 2, 0, 3], 4).unwrap(), vec![1, 2, 0, 0]);
    assert_eq!(c.decode(&[1, 0, 2, 0, 3, 0], 2).unwrap(), vec![1, 2]);
    assert_eq!(c.decode(&[], 3).unwrap(), vec![0, 0, 0]);
    assert_eq!(c.decode(&[9], 1).unwrap(), vec![0]);
    assert!(c.decode(&[1, 2], 0).unwrap().is_empty());
}

#[test]
fn opus_geometry() {
    let c = OpusCodec::new(48_000);
    assert_eq!(c.frame_samples(), 960);
    assert_eq!(c.sample_rate(), 48_000);
    assert_eq!(c.format_id(), FMT_OPUS);
    assert_eq!(FMT_OPUS, 2);
    assert_eq!(OpusCodec::new(16_000).frame_samples(), 320);
    assert_eq!(OpusCodec::new(49).frame_samples(), 0);
}

#[test]
fn opus_settings() {
    assert_eq!(OPUS_BITRATE, 24_000);
    assert!(OPUS_VBR);
    assert!(OPUS_INBAND_FEC);
    assert_eq!(OPUS_PACKET_LOSS_PERC, 10);
    assert_eq!(OPUS_MAX_PACKET, 1500);
}

#[test]
fn opus_keeps_what_the_encoder_wrote() {
    let c = OpusCodec::new(16_000);
    let mut buf = c.packet_buffer();
    assert_eq!(buf, vec![0u8; 1500]);
    buf[0] = 5;
    buf[1] = 6;
    assert_eq!(c.encoded(buf, Ok(2)).unwrap(), vec![5, 6]);
    assert_eq!(c.encoded(vec![1, 2], Ok(9)).unwrap(), vec![1, 2]);
}

#[test]
fn opus_passes_the_encoder_error_on() {
    let c = OpusCodec::new(16_000);
    let e = CodecError { message: "bad frame".to_string() };
    assert_eq!(c.encoded(c.packet_buffer(), Err(e)).unwrap_err().message, "bad frame");
}

#[test]
fn opus_keeps_what_the_decoder_wrote() {
    let c = OpusCodec::new(16_000);
    let mut pcm = c.frame_buffer(3);
    assert_eq!(pcm, vec![0i16; 3]);
    pcm[0] = -4;
    assert_eq!(c.decoded(pcm, Ok(1)).unwrap(), vec![-4]);
    let e = CodecError { message: "bad packet".to_string() };
    assert_eq!(c.decoded(vec![1], Err(e)).unwrap_err().message, "bad packet");
}

#[test]
fn half_a_sample_is_left_out() {
    let mut c = PcmCodec::new(16_000, 1);
    let pcm = c.decode(&[7, 8, 9], 1).unwrap();
    assert_eq!(c.encode(&pcm).unwrap(), vec![7, 8]);
}
