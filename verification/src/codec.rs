//! Codecs between frames of samples and the payload of a datagram.
use vstd::prelude::*;

verus! {

/// The format number of uncompressed samples.
pub const FMT_PCM: u8 = 1;

/// The format number of Opus packets.
pub const FMT_OPUS: u8 = 2;

/// Why a codec refused a frame or a payload.
#[derive(Debug, PartialEq, Eq)]
pub struct CodecError {
    pub message: String,
}

/// A codec for mono frames of 16-bit samples.
///
/// An implementation may say what its methods answer by overriding the specifications, which allow
/// anything by default; code that works with any codec is verified for whatever they allow. What
/// the last three may answer stays the same for as long as the codec lives.
pub trait AudioCodec: Send {
    /// Whether `encode` may answer `r` to the frame `pcm`.
    open spec fn encodes(&self, pcm: Seq<i16>, r: Result<Vec<u8>, CodecError>) -> bool {
        true
    }

    /// Whether `decode` may answer `r` to the payload `data` of `expected_samples` samples.
    open spec fn decodes(
        &self,
        data: Seq<u8>,
        expected_samples: nat,
        r: Result<Vec<i16>, CodecError>,
    ) -> bool {
        true
    }

    /// The state that the answers depend on, as numbers.
    open spec fn state(&self) -> Seq<int> {
        seq![]
    }

    /// Whether encoding the frame `pcm` once may leave the codec in the state `post`.
    open spec fn encode_leaves(&self, pcm: Seq<i16>, post: Seq<int>) -> bool {
        true
    }

    /// Whether decoding the payload `data` of `expected_samples` samples once may leave the codec
    /// in the state `post`.
    open spec fn decode_leaves(&self, data: Seq<u8>, expected_samples: nat, post: Seq<int>) -> bool {
        true
    }

    /// Whether `id` may be the format number of the payloads.
    open spec fn has_format(&self, id: u8) -> bool {
        true
    }

    /// Whether a frame may have `n` samples.
    open spec fn has_frame_samples(&self, n: usize) -> bool {
        true
    }

    /// Whether `rate` may be the sample rate in hertz.
    open spec fn has_sample_rate(&self, rate: u32) -> bool {
        true
    }

    /// Turns a frame into a payload.
    fn encode(&mut self, pcm: &[i16]) -> (r: Result<Vec<u8>, CodecError>)
        ensures
            old(self).encodes(pcm@, r),
            old(self).encode_leaves(pcm@, final(self).state()),
            forall|id: u8| #[trigger] final(self).has_format(id) == old(self).has_format(id),
            forall|n: usize| #[trigger]
                final(self).has_frame_samples(n) == old(self).has_frame_samples(n),
            forall|rate: u32| #[trigger]
                final(self).has_sample_rate(rate) == old(self).has_sample_rate(rate),
    ;

    /// Turns a payload back into a frame that should have `expected_samples` samples.
    fn decode(&mut self, data: &[u8], expected_samples: usize) -> (r: Result<Vec<i16>, CodecError>)
        ensures
            old(self).decodes(data@, expected_samples as nat, r),
            old(self).decode_leaves(data@, expected_samples as nat, final(self).state()),
            forall|id: u8| #[trigger] final(self).has_format(id) == old(self).has_format(id),
            forall|n: usize| #[trigger]
                final(self).has_frame_samples(n) == old(self).has_frame_samples(n),
            forall|rate: u32| #[trigger]
                final(self).has_sample_rate(rate) == old(self).has_sample_rate(rate),
    ;

    /// The format number that marks this codec's payloads.
    fn format_id(&self) -> (r: u8)
        ensures
            self.has_format(r),
    ;

    /// The number of samples that a frame has.
    fn frame_samples(&self) -> (r: usize)
        ensures
            self.has_frame_samples(r),
    ;

    /// The sample rate in hertz.
    fn sample_rate(&self) -> (r: u32)
        ensures
            self.has_sample_rate(r),
    ;
}

/// The low byte of a sample in two's complement.
pub open spec fn low_byte(s: i16) -> u8 {
    (s as int % 256) as u8
}

/// The high byte of a sample in two's complement.
pub open spec fn high_byte(s: i16) -> u8 {
    ((s as int / 256) % 256) as u8
}

/// The sample that two bytes spell in two's complement.
pub open spec fn sample_of(low: u8, high: u8) -> i16 {
    if high < 128 {
        (256 * high + low) as i16
    } else {
        (256 * high + low - 65536) as i16
    }
}

/// A frame as bytes: two per sample, the low one first.
pub open spec fn pcm_bytes(pcm: Seq<i16>) -> Seq<u8> {
    Seq::new(
        2 * pcm.len(),
        |i: int|
            if i % 2 == 0 {
                low_byte(pcm[i / 2])
            } else {
                high_byte(pcm[i / 2])
            },
    )
}

/// The `n` samples that `data` starts with; where it runs out, zeros.
pub open spec fn pcm_samples(data: Seq<u8>, n: nat) -> Seq<i16> {
    Seq::new(
        n,
        |i: int|
            if 2 * i + 1 < data.len() {
                sample_of(data[2 * i], data[2 * i + 1])
            } else {
                0i16
            },
    )
}

/// The codec that leaves samples as they are.
#[derive(Clone, Copy, Debug, PartialEq, Eq, Structural)]
pub struct PcmCodec {
    frame_samples: usize,
    sample_rate: u32,
}

impl PcmCodec {
    /// The samples in a frame.
    pub closed spec fn frame_len(&self) -> usize {
        self.frame_samples
    }

    /// The sample rate in hertz.
    pub closed spec fn rate(&self) -> u32 {
        self.sample_rate
    }

    /// A codec for frames of `frame_samples` samples at `sample_rate` hertz.
    pub fn new(sample_rate: u32, frame_samples: usize) -> (c: Self)
        ensures
            c.rate() == sample_rate,
            c.frame_len() == frame_samples,
    {
        PcmCodec { frame_samples, sample_rate }
    }
}

impl AudioCodec for PcmCodec {
    open spec fn encodes(&self, pcm: Seq<i16>, r: Result<Vec<u8>, CodecError>) -> bool {
        r is Ok && r->Ok_0@ == pcm_bytes(pcm)
    }

    open spec fn decodes(
        &self,
        data: Seq<u8>,
        expected_samples: nat,
        r: Result<Vec<i16>, CodecError>,
    ) -> bool {
        r is Ok && r->Ok_0@ == pcm_samples(data, expected_samples)
    }

    open spec fn state(&self) -> Seq<int> {
        seq![self.frame_len() as int, self.rate() as int]
    }

    open spec fn encode_leaves(&self, pcm: Seq<i16>, post: Seq<int>) -> bool {
        post == self.state()
    }

    open spec fn decode_leaves(&self, data: Seq<u8>, expected_samples: nat, post: Seq<int>) -> bool {
        post == self.state()
    }

    open spec fn has_format(&self, id: u8) -> bool {
        id == FMT_PCM
    }

    open spec fn has_frame_samples(&self, n: usize) -> bool {
        n == self.frame_len()
    }

    open spec fn has_sample_rate(&self, rate: u32) -> bool {
        rate == self.rate()
    }

    fn encode(&mut self, pcm: &[i16]) -> (r: Result<Vec<u8>, CodecError>)
        ensures
            *final(self) == *old(self),
    {
        let mut buf: Vec<u8> = Vec::new();
        let mut i: usize = 0;
        while i < pcm.len()
            invariant
                i <= pcm.len(),
                buf@ == pcm_bytes(pcm@.subrange(0, i as int)),
            decreases pcm.len() - i,
        {
            let s: i32 = pcm[i] as i32;
            let bits: i32 = if s < 0 {
                s + 65536
            } else {
                s
            };
            buf.push((bits % 256) as u8);
            buf.push((bits / 256) as u8);
            i = i + 1;
            assert(buf@ =~= pcm_bytes(pcm@.subrange(0, i as int)));
        }
        assert(pcm@.subrange(0, i as int) =~= pcm@);
        Ok(buf)
    }

    fn decode(&mut self, data: &[u8], expected_samples: usize) -> (r: Result<
        Vec<i16>,
        CodecError,
    >)
        ensures
            *final(self) == *old(self),
    {
        let mut pcm: Vec<i16> = vec![0i16; expected_samples];
        let available = data.len() / 2;
        let max_samples = if available < expected_samples {
            available
        } else {
            expected_samples
        };
        let mut i: usize = 0;
        while i < max_samples
            invariant
                i <= max_samples <= expected_samples,
                max_samples <= data.len() / 2,
                pcm@.len() == expected_samples,
                forall|j: int|
                    0 <= j < i ==> #[trigger] pcm@[j] == sample_of(data@[2 * j], data@[2 * j + 1]),
                forall|j: int| i <= j < expected_samples ==> #[trigger] pcm@[j] == 0,
            decreases max_samples - i,
        {
            let bits: i32 = data[2 * i] as i32 + 256 * (data[2 * i + 1] as i32);
            let s: i32 = if bits < 32768 {
                bits
            } else {
                bits - 65536
            };
            pcm.set(i, s as i16);
            i = i + 1;
        }
        assert(pcm@ =~= pcm_samples(data@, expected_samples as nat));
        Ok(pcm)
    }

    fn format_id(&self) -> u8 {
        FMT_PCM
    }

    fn frame_samples(&self) -> usize {
        self.frame_samples
    }

    fn sample_rate(&self) -> u32 {
        self.sample_rate
    }
}

/// The state of a codec for uncompressed samples is all that it holds: where the state is the same,
/// the codec is.
pub proof fn law_pcm_state_is_whole(a: PcmCodec, b: PcmCodec)
    requires
        a.state() == b.state(),
    ensures
        a == b,
{
    assert(a.state()[0] == b.state()[0]);
    assert(a.state()[1] == b.state()[1]);
}

/// Decoding the bytes of a frame gives the frame back.
pub proof fn law_pcm_round_trip(pcm: Seq<i16>)
    ensures
        pcm_samples(pcm_bytes(pcm), pcm.len()) == pcm,
{
    let bytes = pcm_bytes(pcm);
    assert forall|i: int| 0 <= i < pcm.len() implies pcm_samples(bytes, pcm.len())[i] == pcm[i] by {
        assert(bytes[2 * i] == low_byte(pcm[i]));
        assert(bytes[2 * i + 1] == high_byte(pcm[i]));
    }
    assert(pcm_samples(bytes, pcm.len()) =~= pcm);
}

/// Encoding the samples of a payload gives the payload back; where it ends in half a sample, that
/// last byte is left out.
pub proof fn law_pcm_is_lossless(data: Seq<u8>)
    ensures
        pcm_bytes(pcm_samples(data, data.len() / 2)) == data.subrange(
            0,
            (data.len() / 2 * 2) as int,
        ),
{
    let pcm = pcm_samples(data, data.len() / 2);
    let whole = data.subrange(0, (data.len() / 2 * 2) as int);
    assert forall|i: int| 0 <= i < whole.len() implies pcm_bytes(pcm)[i] == whole[i] by {
        let k = i / 2;
        assert(pcm[k] == sample_of(data[2 * k], data[2 * k + 1]));
    }
    assert(pcm_bytes(pcm) =~= whole);
}

/// Encoding never fails, whatever the samples: each becomes two bytes that spell it modulo 2^16,
/// the low one first. The codec stays as it was.
pub proof fn law_every_frame_is_encoded(
    c: &mut PcmCodec,
    pcm: &[i16],
    r: Result<Vec<u8>, CodecError>,
    i: int,
)
    requires
        call_ensures(PcmCodec::encode, (c, pcm), r),
    ensures
        r is Ok,
        r->Ok_0@.len() == 2 * pcm@.len(),
        0 <= i < pcm@.len()
            ==> (r->Ok_0@[2 * i] + 256 * r->Ok_0@[2 * i + 1] - pcm@[i]) % 65536 == 0,
        *final(c) == *old(c),
        call_requires(PcmCodec::encode, (c, pcm)),
{
    if 0 <= i < pcm@.len() {
        assert(r->Ok_0@[2 * i] == low_byte(pcm@[i]));
        assert(r->Ok_0@[2 * i + 1] == high_byte(pcm@[i]));
    }
}

/// Decoding never fails, whatever the bytes: it gives as many samples as are asked for, each
/// spelled modulo 2^16 by its two bytes, the low one first, and zero where a byte is missing. The
/// codec stays as it was.
pub proof fn law_every_payload_is_decoded(
    c: &mut PcmCodec,
    data: &[u8],
    n: usize,
    r: Result<Vec<i16>, CodecError>,
    i: int,
)
    requires
        call_ensures(PcmCodec::decode, (c, data, n), r),
    ensures
        r is Ok,
        r->Ok_0@.len() == n,
        0 <= i < n && 2 * i + 1 < data@.len() ==> (data@[2 * i] + 256 * data@[2 * i + 1]
            - r->Ok_0@[i]) % 65536 == 0,
        0 <= i < n && 2 * i + 1 >= data@.len() ==> r->Ok_0@[i] == 0,
        *final(c) == *old(c),
        call_requires(PcmCodec::decode, (c, data, n)),
{
}

/// A codec for uncompressed samples reports the rate and the frame length that it was made with,
/// and the format number 1.
pub proof fn law_pcm_reports_what_it_was_made_with(
    rate: u32,
    samples: usize,
    c: PcmCodec,
    fmt: u8,
    n: usize,
    hz: u32,
)
    requires
        call_ensures(PcmCodec::new, (rate, samples), c),
        call_ensures(PcmCodec::format_id, (&c,), fmt),
        call_ensures(PcmCodec::frame_samples, (&c,), n),
        call_ensures(PcmCodec::sample_rate, (&c,), hz),
    ensures
        fmt == 1,
        n == samples,
        hz == rate,
        call_requires(PcmCodec::new, (rate, samples)),
{
}

} // verus!
