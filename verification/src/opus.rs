//! What surrounds the Opus encoder and decoder: their settings, the buffers that they fill, and
//! what is kept of them.
use crate::codec::{CodecError, FMT_OPUS};
use vstd::prelude::*;

verus! {

/// The encoder's bit rate in bits per second.
pub const OPUS_BITRATE: i32 = 24_000;

/// Whether the encoder varies its bit rate.
pub const OPUS_VBR: bool = true;

/// Whether packets carry a copy of the previous frame for error correction.
pub const OPUS_INBAND_FEC: bool = true;

/// The packet loss in percent that the encoder prepares for.
pub const OPUS_PACKET_LOSS_PERC: i32 = 10;

/// The buffer that the encoder may fill, in bytes.
pub const OPUS_MAX_PACKET: usize = 1500;

/// The frame geometry of an Opus codec.
#[derive(Clone, Copy, Debug, PartialEq, Eq, Structural)]
pub struct OpusCodec {
    frame_samples: usize,
    max_packet: usize,
    sample_rate: u32,
}

impl OpusCodec {
    /// The samples in a frame.
    pub closed spec fn frame_len(&self) -> usize {
        self.frame_samples
    }

    /// The longest packet in bytes.
    pub closed spec fn packet_limit(&self) -> usize {
        self.max_packet
    }

    /// The sample rate in hertz.
    pub closed spec fn rate(&self) -> u32 {
        self.sample_rate
    }

    /// A codec at `sample_rate` hertz, with frames of 20 ms.
    pub fn new(sample_rate: u32) -> (c: Self)
        ensures
            c.rate() == sample_rate,
            c.frame_len() == sample_rate / 50,
            c.packet_limit() == OPUS_MAX_PACKET,
    {
        OpusCodec {
            frame_samples: sample_rate as usize / 50,
            max_packet: OPUS_MAX_PACKET,
            sample_rate,
        }
    }

    /// The zeroed buffer that the encoder writes a packet into.
    pub fn packet_buffer(&self) -> (buf: Vec<u8>)
        ensures
            buf@ == Seq::new(self.packet_limit() as nat, |i: int| 0u8),
    {
        let buf = vec![0u8; self.max_packet];
        assert(buf@ =~= Seq::new(self.packet_limit() as nat, |i: int| 0u8));
        buf
    }

    /// What `encode` answers once the encoder has filled `buf` and replied: the bytes that the
    /// encoder wrote, or its error.
    pub fn encoded(&self, buf: Vec<u8>, reply: Result<usize, CodecError>) -> (r: Result<
        Vec<u8>,
        CodecError,
    >)
        ensures
            match reply {
                Ok(n) => r is Ok && r->Ok_0@ == front(buf@, n as nat),
                Err(e) => r == Err::<Vec<u8>, CodecError>(e),
            },
    {
        match reply {
            Ok(n) => {
                let mut packet = buf;
                packet.truncate(n);
                assert(packet@ =~= front(buf@, n as nat));
                Ok(packet)
            },
            Err(e) => Err(e),
        }
    }

    /// The zeroed buffer that the decoder writes a frame of `expected_samples` samples into.
    pub fn frame_buffer(&self, expected_samples: usize) -> (pcm: Vec<i16>)
        ensures
            pcm@ == Seq::new(expected_samples as nat, |i: int| 0i16),
    {
        let pcm = vec![0i16; expected_samples];
        assert(pcm@ =~= Seq::new(expected_samples as nat, |i: int| 0i16));
        pcm
    }

    /// What `decode` answers once the decoder has filled `pcm` and replied: the samples that the
    /// decoder wrote, or its error.
    pub fn decoded(&self, pcm: Vec<i16>, reply: Result<usize, CodecError>) -> (r: Result<
        Vec<i16>,
        CodecError,
    >)
        ensures
            match reply {
                Ok(n) => r is Ok && r->Ok_0@ == front(pcm@, n as nat),
                Err(e) => r == Err::<Vec<i16>, CodecError>(e),
            },
    {
        match reply {
            Ok(n) => {
                let mut frame = pcm;
                frame.truncate(n);
                assert(frame@ =~= front(pcm@, n as nat));
                Ok(frame)
            },
            Err(e) => Err(e),
        }
    }

    /// The format number of Opus payloads.
    pub fn format_id(&self) -> (r: u8)
        ensures
            r == FMT_OPUS,
    {
        FMT_OPUS
    }

    /// The number of samples in a frame.
    pub fn frame_samples(&self) -> (r: usize)
        ensures
            r == self.frame_len(),
    {
        self.frame_samples
    }

    /// The sample rate in hertz.
    pub fn sample_rate(&self) -> (r: u32)
        ensures
            r == self.rate(),
    {
        self.sample_rate
    }
}

/// The first `n` items of `s`, or all of it where it is shorter.
pub open spec fn front<T>(s: Seq<T>, n: nat) -> Seq<T> {
    if n <= s.len() {
        s.subrange(0, n as int)
    } else {
        s
    }
}

/// A codec reports the rate that it was made with, frames of a fiftieth of a second, and the format
/// number 2. Its packet buffer is 1500 zero bytes; the buffer for a frame is as many zero samples
/// as are asked for.
pub proof fn law_opus_geometry(
    rate: u32,
    c: OpusCodec,
    fmt: u8,
    n: usize,
    hz: u32,
    buf: Vec<u8>,
    samples: usize,
    pcm: Vec<i16>,
    i: int,
)
    requires
        call_ensures(OpusCodec::new, (rate,), c),
        call_ensures(OpusCodec::format_id, (&c,), fmt),
        call_ensures(OpusCodec::frame_samples, (&c,), n),
        call_ensures(OpusCodec::sample_rate, (&c,), hz),
        call_ensures(OpusCodec::packet_buffer, (&c,), buf),
        call_ensures(OpusCodec::frame_buffer, (&c, samples), pcm),
    ensures
        fmt == 2,
        hz == rate,
        50 * n <= rate < 50 * (n + 1),
        buf@.len() == 1500,
        0 <= i < 1500 ==> buf@[i] == 0,
        pcm@.len() == samples,
        0 <= i < samples ==> pcm@[i] == 0,
        call_requires(OpusCodec::new, (rate,)),
{
}

/// A packet is what the encoder wrote, byte for byte and no more; an error of the encoder is passed
/// on.
pub proof fn law_packet_is_what_was_written(
    c: OpusCodec,
    buf: Vec<u8>,
    reply: Result<usize, CodecError>,
    r: Result<Vec<u8>, CodecError>,
    i: int,
)
    requires
        call_ensures(OpusCodec::encoded, (&c, buf, reply), r),
    ensures
        reply is Ok <==> r is Ok,
        reply is Err ==> r->Err_0 == reply->Err_0,
        reply is Ok && reply->Ok_0 <= buf@.len() ==> r->Ok_0@.len() == reply->Ok_0,
        reply is Ok && reply->Ok_0 > buf@.len() ==> r->Ok_0@.len() == buf@.len(),
        reply is Ok && 0 <= i < r->Ok_0@.len() ==> r->Ok_0@[i] == buf@[i],
        call_requires(OpusCodec::encoded, (&c, buf, reply)),
{
}

/// A frame is what the decoder wrote, sample for sample and no more; an error of the decoder is
/// passed on.
pub proof fn law_frame_is_what_was_written(
    c: OpusCodec,
    pcm: Vec<i16>,
    reply: Result<usize, CodecError>,
    r: Result<Vec<i16>, CodecError>,
    i: int,
)
    requires
        call_ensures(OpusCodec::decoded, (&c, pcm, reply), r),
    ensures
        reply is Ok <==> r is Ok,
        reply is Err ==> r->Err_0 == reply->Err_0,
        reply is Ok && reply->Ok_0 <= pcm@.len() ==> r->Ok_0@.len() == reply->Ok_0,
        reply is Ok && reply->Ok_0 > pcm@.len() ==> r->Ok_0@.len() == pcm@.len(),
        reply is Ok && 0 <= i < r->Ok_0@.len() ==> r->Ok_0@[i] == pcm@[i],
        call_requires(OpusCodec::decoded, (&c, pcm, reply)),
{
}

} // verus!
