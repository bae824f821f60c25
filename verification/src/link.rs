//! The decisions of the two ends of a link: what a frame becomes on its way into a datagram, and
//! what a datagram becomes on its way into the jitter buffer.
use crate::codec::{AudioCodec, CodecError};
use crate::header::{read_header, write_header, Header, HEADER_SIZE};
use vstd::prelude::*;

verus! {

/// The largest datagram that is sent, header included.
pub const MAX_UDP_PAYLOAD: usize = 1200;

/// What an encoded frame says about itself, before it has a number and a time stamp.
pub struct FrameInfo {
    pub payload: Seq<u8>,
    pub n_samples: u16,
    pub sample_rate: u32,
    pub fmt: u8,
}

impl FrameInfo {
    /// The header under which the frame is sent.
    pub open spec fn header(self, seq: u32, ts_ms: u64) -> Header {
        Header {
            seq,
            ts_ms,
            n_samples: self.n_samples,
            sample_rate: self.sample_rate,
            fmt: self.fmt,
        }
    }

    /// The datagram that carries the frame.
    pub open spec fn datagram(self, seq: u32, ts_ms: u64) -> Seq<u8> {
        crate::header::header_bytes(self.header(seq, ts_ms)) + self.payload
    }
}

/// An encoded frame that fits a datagram.
#[derive(Debug)]
pub struct EncodedFrame {
    payload: Vec<u8>,
    n_samples: u16,
    sample_rate: u32,
    fmt: u8,
}

impl View for EncodedFrame {
    type V = FrameInfo;

    closed spec fn view(&self) -> FrameInfo {
        FrameInfo {
            payload: self.payload@,
            n_samples: self.n_samples,
            sample_rate: self.sample_rate,
            fmt: self.fmt,
        }
    }
}

impl EncodedFrame {
    #[verifier::type_invariant]
    spec fn fits(self) -> bool {
        HEADER_SIZE + self.payload.len() <= MAX_UDP_PAYLOAD
    }
}

/// What becomes of an encoded frame.
#[derive(Debug)]
pub enum Offer {
    /// It fits a datagram.
    Ready(EncodedFrame),
    /// It would make a datagram of this many bytes, which is too large, and is dropped.
    TooLarge(usize),
}

/// What [`offer`] says of a payload and its codec's parameters.
pub open spec fn offered(
    payload: Seq<u8>,
    frame_samples: usize,
    sample_rate: u32,
    fmt: u8,
    r: Offer,
) -> bool {
    if HEADER_SIZE + payload.len() > MAX_UDP_PAYLOAD {
        r == Offer::TooLarge(
            if HEADER_SIZE + payload.len() <= usize::MAX {
                (HEADER_SIZE + payload.len()) as usize
            } else {
                usize::MAX
            },
        )
    } else {
        &&& r is Ready
        &&& r->Ready_0@ == FrameInfo {
            payload,
            n_samples: (frame_samples % 0x1_0000) as u16,
            sample_rate,
            fmt,
        }
    }
}

/// Decides whether a payload fits a datagram. The header's sample count keeps the low 16 bits of
/// `frame_samples`.
pub fn offer(payload: Vec<u8>, frame_samples: usize, sample_rate: u32, fmt: u8) -> (r: Offer)
    ensures
        offered(payload@, frame_samples, sample_rate, fmt, r),
{
    let total = HEADER_SIZE.saturating_add(payload.len());
    if total > MAX_UDP_PAYLOAD {
        return Offer::TooLarge(total);
    }
    let n_samples = (frame_samples % 0x1_0000) as u16;
    Offer::Ready(EncodedFrame { payload, n_samples, sample_rate, fmt })
}

/// Whether two states of a codec report the same parameters.
pub open spec fn same_parameters<C: AudioCodec + ?Sized>(pre: &C, post: &C) -> bool {
    &&& forall|id: u8| #[trigger] post.has_format(id) == pre.has_format(id)
    &&& forall|n: usize| #[trigger] post.has_frame_samples(n) == pre.has_frame_samples(n)
    &&& forall|rate: u32| #[trigger] post.has_sample_rate(rate) == pre.has_sample_rate(rate)
}

/// What [`encode_frame`] may say of a frame: the codec's error, or what becomes of its payload. The
/// codec is left as encoding the frame once leaves it.
pub open spec fn frame_encoded<C: AudioCodec + ?Sized>(
    pre: &C,
    pcm: Seq<i16>,
    post: &C,
    r: Result<Offer, CodecError>,
) -> bool {
    &&& same_parameters(pre, post)
    &&& pre.encode_leaves(pcm, post.state())
    &&& exists|reply: Result<Vec<u8>, CodecError>| #[trigger]
        pre.encodes(pcm, reply) && match reply {
            Ok(payload) => r is Ok && payload_offered(pre, payload@, r->Ok_0),
            Err(e) => r == Err::<Offer, CodecError>(e),
        }
}

/// What becomes of a payload under the parameters that the codec reports.
pub open spec fn payload_offered<C: AudioCodec + ?Sized>(
    codec: &C,
    payload: Seq<u8>,
    r: Offer,
) -> bool {
    exists|frame_samples: usize, sample_rate: u32, fmt: u8|
        {
            &&& codec.has_frame_samples(frame_samples)
            &&& codec.has_sample_rate(sample_rate)
            &&& codec.has_format(fmt)
            &&& #[trigger] offered(payload, frame_samples, sample_rate, fmt, r)
        }
}

/// Encodes one frame and decides whether the result fits a datagram; the codec's own error where
/// it refuses the frame.
pub fn encode_frame<C: AudioCodec + ?Sized>(codec: &mut C, pcm: &[i16]) -> (r: Result<
    Offer,
    CodecError,
>)
    ensures
        frame_encoded(old(codec), pcm@, final(codec), r),
{
    let reply = codec.encode(pcm);
    let ghost told = reply;
    assert(old(codec).encodes(pcm@, told));
    match reply {
        Ok(payload) => {
            let ghost bytes = payload@;
            let n = codec.frame_samples();
            let rate = codec.sample_rate();
            let fmt = codec.format_id();
            let offer = offer(payload, n, rate, fmt);
            assert(old(codec).has_frame_samples(n));
            assert(old(codec).has_sample_rate(rate));
            assert(old(codec).has_format(fmt));
            assert(payload_offered(old(codec), bytes, offer));
            Ok(offer)
        },
        Err(e) => Err(e),
    }
}

/// The sending end: the number of the next datagram.
#[derive(Debug)]
pub struct Sender {
    seq: u32,
}

impl Sender {
    /// The number that the next datagram gets.
    pub closed spec fn next(&self) -> u32 {
        self.seq
    }

    /// A sender whose first datagram gets the number `seq`.
    pub fn new(seq: u32) -> (s: Self)
        ensures
            s.next() == seq,
    {
        Sender { seq }
    }

    /// Builds the datagram for a frame, with the next number and the given time stamp.
    pub fn stamp(&mut self, frame: &EncodedFrame, ts_ms: u64) -> (datagram: Vec<u8>)
        ensures
            datagram@ == frame@.datagram(old(self).next(), ts_ms),
            datagram@.len() <= MAX_UDP_PAYLOAD,
            final(self).next() == crate::sequence::seq_next(old(self).next()),
    {
        proof {
            use_type_invariant(frame);
        }
        let h = Header {
            seq: self.seq,
            ts_ms,
            n_samples: frame.n_samples,
            sample_rate: frame.sample_rate,
            fmt: frame.fmt,
        };
        self.seq = self.seq.wrapping_add(1);
        let mut head: [u8; HEADER_SIZE] = [0u8; HEADER_SIZE];
        write_header(&h, &mut head);
        let mut datagram: Vec<u8> = Vec::with_capacity(HEADER_SIZE + frame.payload.len());
        datagram.extend_from_slice(head.as_slice());
        datagram.extend_from_slice(frame.payload.as_slice());
        proof {
            crate::header::lemma_header_layout(h);
            assert(datagram@ =~= frame@.datagram(old(self).next(), ts_ms));
        }
        datagram
    }
}

/// What becomes of a datagram.
#[derive(Debug)]
pub enum Received {
    /// It is no audio datagram of this version.
    Ignored,
    /// Its payload has another format than the codec's.
    FormatMismatch { expected: u8, got: u8 },
    /// The codec could not decode its payload.
    DecodeFailed { fmt: u8, error: CodecError },
    /// It carried this frame.
    Frame { header: Header, pcm: Vec<i16> },
}

/// `pcm` cut or padded with zeros to `n` samples.
pub open spec fn fitted(pcm: Seq<i16>, n: nat) -> Seq<i16> {
    Seq::new(
        n,
        |i: int|
            if i < pcm.len() {
                pcm[i]
            } else {
                0i16
            },
    )
}

/// What [`accept`] says of a header and the codec's reply.
pub open spec fn accepted(
    h: Header,
    reply: Result<Vec<i16>, CodecError>,
    r: Received,
) -> bool {
    match reply {
        Ok(pcm) => {
            &&& r is Frame
            &&& r->header == h
            &&& r->pcm@ == fitted(pcm@, h.n_samples as nat)
        },
        Err(e) => r == (Received::DecodeFailed { fmt: h.fmt, error: e }),
    }
}

/// What becomes of a datagram once the codec has replied to its payload: a frame of exactly as
/// many samples as the header says, or the codec's error.
pub fn accept(h: Header, reply: Result<Vec<i16>, CodecError>) -> (r: Received)
    ensures
        accepted(h, reply, r),
{
    match reply {
        Ok(pcm) => {
            let mut frame = pcm;
            let n = h.n_samples as usize;
            if frame.len() != n {
                frame.resize(n, 0);
            }
            proof {
                let kept = if n <= pcm@.len() { n as int } else { pcm@.len() as int };
                assert(frame@.subrange(0, kept) =~= pcm@.subrange(0, kept));
                assert forall|i: int| 0 <= i < n implies frame@[i] == fitted(pcm@, n as nat)[i] by {
                    if i < kept {
                        assert(frame@.subrange(0, kept)[i] == frame@[i]);
                    }
                }
                assert(frame@ =~= fitted(pcm@, n as nat));
            }
            Received::Frame { header: h, pcm: frame }
        },
        Err(error) => Received::DecodeFailed { fmt: h.fmt, error },
    }
}

/// What [`receive`] may say of a datagram: the codec is asked only for a payload of the format
/// that it reports.
pub open spec fn received<C: AudioCodec + ?Sized>(
    pre: &C,
    datagram: Seq<u8>,
    post: &C,
    r: Received,
) -> bool {
    if crate::header::has_header(datagram) {
        exists|expected: u8| #[trigger]
            pre.has_format(expected) && received_as(pre, expected, datagram, post, r)
    } else {
        r is Ignored && post == pre
    }
}

/// What [`receive`] may say of a datagram with a header, where the codec reports the format
/// `expected`. A codec that is asked is left as decoding the payload once leaves it.
pub open spec fn received_as<C: AudioCodec + ?Sized>(
    pre: &C,
    expected: u8,
    datagram: Seq<u8>,
    post: &C,
    r: Received,
) -> bool {
    let h = crate::header::header_fields(datagram);
    if h.fmt != expected {
        r == (Received::FormatMismatch { expected, got: h.fmt }) && post == pre
    } else {
        exists|reply: Result<Vec<i16>, CodecError>| #[trigger]
            pre.decodes(crate::header::payload_of(datagram), h.n_samples as nat, reply)
                && accepted(h, reply, r) && same_parameters(pre, post) && pre.decode_leaves(
                crate::header::payload_of(datagram),
                h.n_samples as nat,
                post.state(),
            )
    }
}

/// Takes a datagram apart.
pub fn receive<C: AudioCodec + ?Sized>(codec: &mut C, datagram: &[u8]) -> (r: Received)
    ensures
        received(old(codec), datagram@, final(codec), r),
{
    match read_header(datagram) {
        None => Received::Ignored,
        Some((h, payload)) => {
            let expected = codec.format_id();
            assert(old(codec).has_format(expected));
            if h.fmt != expected {
                let r = Received::FormatMismatch { expected, got: h.fmt };
                assert(received_as(old(codec), expected, datagram@, codec, r));
                return r;
            }
            let reply = codec.decode(payload, h.n_samples as usize);
            let ghost told = reply;
            assert(old(codec).decodes(payload@, h.n_samples as nat, told));
            let r = accept(h, reply);
            assert(received_as(old(codec), expected, datagram@, codec, r));
            r
        },
    }
}

/// The header and the payload of a datagram that was built are read back as they were.
pub proof fn law_datagram_is_read_back(frame: FrameInfo, seq: u32, ts_ms: u64)
    ensures
        crate::header::has_header(frame.datagram(seq, ts_ms)),
        crate::header::header_fields(frame.datagram(seq, ts_ms)) == frame.header(seq, ts_ms),
        crate::header::payload_of(frame.datagram(seq, ts_ms)) == frame.payload,
{
    crate::header::law_header_round_trip(frame.header(seq, ts_ms), frame.payload);
}

/// A frame of whatever codec comes out of a datagram with exactly as many samples as its header
/// says, or not at all.
pub proof fn law_received_frame_has_its_length<C: AudioCodec>(
    pre: C,
    datagram: Seq<u8>,
    post: C,
    r: Received,
)
    requires
        received(&pre, datagram, &post, r),
        r is Frame,
    ensures
        r->header == crate::header::header_fields(datagram),
        pre.has_format(r->header.fmt),
        r->pcm@.len() == r->header.n_samples,
{
}

/// An uncompressed frame fits a datagram if and only if it has at most 588 samples.
pub proof fn law_pcm_fits(
    codec: crate::codec::PcmCodec,
    pcm: Seq<i16>,
    post: crate::codec::PcmCodec,
    offer: Offer,
)
    requires
        frame_encoded(&codec, pcm, &post, Ok(offer)),
    ensures
        offer is Ready <==> pcm.len() <= 588,
{
}

/// Samples that are sent uncompressed arrive as they were: whatever frame the sending end encodes
/// and sends, the receiving end takes out of the datagram again, under the number and the time
/// stamp that it was sent with. A frame of another length than the codec's is cut or padded to it.
/// Both codecs stay as they were.
pub proof fn law_pcm_is_delivered(
    codec: crate::codec::PcmCodec,
    pcm: Seq<i16>,
    sent: crate::codec::PcmCodec,
    frame: EncodedFrame,
    seq: u32,
    ts_ms: u64,
    peer: crate::codec::PcmCodec,
    post: crate::codec::PcmCodec,
    r: Received,
)
    requires
        frame_encoded(&codec, pcm, &sent, Ok(Offer::Ready(frame))),
        received(&peer, frame@.datagram(seq, ts_ms), &post, r),
    ensures
        r is Frame,
        r->header.seq == seq,
        r->header.ts_ms == ts_ms,
        r->header.sample_rate == codec.rate(),
        r->pcm@ == fitted(pcm, (codec.frame_len() % 0x1_0000) as nat),
        pcm.len() == codec.frame_len() ==> r->pcm@ == pcm,
        sent == codec,
        post == peer,
{
    crate::codec::law_pcm_state_is_whole(sent, codec);
    law_datagram_is_read_back(frame@, seq, ts_ms);
    let n = (codec.frame_len() % 0x1_0000) as nat;
    let bytes = crate::codec::pcm_bytes(pcm);
    assert forall|i: int| 0 <= i < n implies crate::codec::pcm_samples(bytes, n)[i] == fitted(
        pcm,
        n,
    )[i] by {
        if i < pcm.len() {
            crate::codec::law_pcm_round_trip(pcm);
            assert(crate::codec::pcm_samples(bytes, pcm.len())[i] == pcm[i]);
        }
    }
    assert(crate::codec::pcm_samples(bytes, n) =~= fitted(pcm, n));
    assert(fitted(fitted(pcm, n), n) =~= fitted(pcm, n));
    crate::codec::law_pcm_state_is_whole(post, peer);
    if pcm.len() == codec.frame_len() {
        law_pcm_fits(codec, pcm, sent, Offer::Ready(frame));
        assert(fitted(pcm, n) =~= pcm);
    }
}

/// Samples that are sent uncompressed are played as they were: a frame that arrives in time is what
/// the tick whose turn it is hands out.
pub proof fn law_pcm_is_played(
    codec: crate::codec::PcmCodec,
    pcm: Seq<i16>,
    sent: crate::codec::PcmCodec,
    frame: EncodedFrame,
    seq: u32,
    ts_ms: u64,
    peer: crate::codec::PcmCodec,
    post: crate::codec::PcmCodec,
    r: Received,
    buffer: crate::jitter::JitterState,
)
    requires
        pcm.len() == codec.frame_len(),
        frame_encoded(&codec, pcm, &sent, Ok(Offer::Ready(frame))),
        received(&peer, frame@.datagram(seq, ts_ms), &post, r),
        buffer.next_seq == seq,
        !buffer.pushed(r->header, r->pcm@).is_filling(),
    ensures
        buffer.pushed(r->header, r->pcm@).next_frame() == pcm,
{
    law_pcm_is_delivered(codec, pcm, sent, frame, seq, ts_ms, peer, post, r);
    crate::jitter::law_push_then_pop(buffer, r->header, r->pcm@);
}

/// A payload of whatever format is ready to be sent exactly where it and 24 bytes of header make no
/// more than 1200 bytes; otherwise it is dropped, with the size that it would have had.
pub proof fn law_payload_is_ready_up_to_the_limit(
    payload: Vec<u8>,
    frame_samples: usize,
    sample_rate: u32,
    fmt: u8,
    r: Offer,
)
    requires
        call_ensures(offer, (payload, frame_samples, sample_rate, fmt), r),
    ensures
        r is Ready <==> 24 + payload@.len() <= 1200,
        r is TooLarge && 24 + payload@.len() <= usize::MAX ==> r->TooLarge_0 == 24 + payload@.len(),
        r is Ready ==> {
            &&& r->Ready_0@.payload == payload@
            &&& (frame_samples - r->Ready_0@.n_samples) % 65536 == 0
            &&& r->Ready_0@.sample_rate == sample_rate
            &&& r->Ready_0@.fmt == fmt
        },
        call_requires(offer, (payload, frame_samples, sample_rate, fmt)),
{
}

/// The datagram of a payload of whatever format: the header at its 24 places, with the number and
/// the time stamp that it is sent under, and behind it the payload, byte for byte.
pub proof fn law_datagram_carries_the_payload(
    payload: Vec<u8>,
    frame_samples: usize,
    sample_rate: u32,
    fmt: u8,
    frame: EncodedFrame,
    seq: u32,
    sender: &mut Sender,
    ts_ms: u64,
    d: Vec<u8>,
    i: int,
)
    requires
        call_ensures(offer, (payload, frame_samples, sample_rate, fmt), Offer::Ready(frame)),
        call_ensures(Sender::new, (seq,), *old(sender)),
        call_ensures(Sender::stamp, (sender, &frame, ts_ms), d),
    ensures
        d@.len() == 24 + payload@.len(),
        d@[0] == 0x41 && d@[1] == 0x55 && d@[2] == 0x44 && d@[3] == 0x30,
        d@[4] == 1,
        d@[5] == fmt,
        0x100_0000 * d@[6] + 0x1_0000 * d@[7] + 0x100 * d@[8] + d@[9] == seq,
        0x100_0000_0000_0000 * d@[10] + 0x1_0000_0000_0000 * d@[11] + 0x100_0000_0000 * d@[12]
            + 0x1_0000_0000 * d@[13] + 0x100_0000 * d@[14] + 0x1_0000 * d@[15] + 0x100 * d@[16]
            + d@[17] == ts_ms,
        (0x100 * d@[18] + d@[19] - frame_samples) % 65536 == 0,
        0x100_0000 * d@[20] + 0x1_0000 * d@[21] + 0x100 * d@[22] + d@[23] == sample_rate,
        0 <= i < payload@.len() ==> d@[24 + i] == payload@[i],
        call_requires(Sender::new, (seq,)),
        call_requires(Sender::stamp, (sender, &frame, ts_ms)),
{
    crate::header::lemma_header_by_place(frame@.header(seq, ts_ms));
}

/// Datagrams are numbered one after the other, and zero follows the largest number.
pub proof fn law_datagrams_are_numbered_in_order(
    sender: &mut Sender,
    f: EncodedFrame,
    t: u64,
    d: Vec<u8>,
    later: &mut Sender,
    g: EncodedFrame,
    u: u64,
    e: Vec<u8>,
)
    requires
        call_ensures(Sender::stamp, (sender, &f, t), d),
        *old(later) == *final(sender),
        call_ensures(Sender::stamp, (later, &g, u), e),
    ensures
        ({
            let m = 0x100_0000 * d@[6] + 0x1_0000 * d@[7] + 0x100 * d@[8] + d@[9];
            let n = 0x100_0000 * e@[6] + 0x1_0000 * e@[7] + 0x100 * e@[8] + e@[9];
            if m < u32::MAX {
                n == m + 1
            } else {
                n == 0
            }
        }),
{
    lemma_number_by_place(f@, old(sender).next(), t);
    lemma_number_by_place(g@, old(later).next(), u);
}

/// Where a datagram has its number.
proof fn lemma_number_by_place(frame: FrameInfo, seq: u32, ts_ms: u64)
    ensures
        ({
            let d = frame.datagram(seq, ts_ms);
            0x100_0000 * d[6] + 0x1_0000 * d[7] + 0x100 * d[8] + d[9] == seq
        }),
{
    let d = frame.datagram(seq, ts_ms);
    let b = crate::header::header_bytes(frame.header(seq, ts_ms));
    crate::header::lemma_header_by_place(frame.header(seq, ts_ms));
    assert(d[6] == b[6] && d[7] == b[7] && d[8] == b[8] && d[9] == b[9]);
}

/// What a codec of whatever format replied is kept: a frame of exactly as many samples as the
/// header says, each as it was decoded, and zeros where the reply was shorter. A codec's error is
/// passed on.
pub proof fn law_decoded_samples_are_kept(
    h: Header,
    reply: Result<Vec<i16>, CodecError>,
    r: Received,
    i: int,
)
    requires
        call_ensures(accept, (h, reply), r),
    ensures
        reply is Ok ==> {
            &&& r is Frame
            &&& r->header == h
            &&& r->pcm@.len() == h.n_samples
            &&& 0 <= i < h.n_samples && i < reply->Ok_0@.len() ==> r->pcm@[i] == reply->Ok_0@[i]
            &&& 0 <= i < h.n_samples && i >= reply->Ok_0@.len() ==> r->pcm@[i] == 0
            &&& reply->Ok_0@.len() == h.n_samples ==> r->pcm@ == reply->Ok_0@
        },
        reply is Err ==> {
            &&& r is DecodeFailed
            &&& r->DecodeFailed_fmt == h.fmt
            &&& r->error == reply->Err_0
        },
        call_requires(accept, (h, reply)),
{
    if reply is Ok && reply->Ok_0@.len() == h.n_samples {
        assert(r->pcm@ =~= reply->Ok_0@);
    }
}

/// Whatever the codec, a frame is answered by what the codec says to it: its error, or its payload,
/// ready exactly where a datagram of 1200 bytes holds it, under the parameters that the codec
/// reports. The codec is left as encoding that frame once leaves it.
pub proof fn law_any_frame_is_encoded_by_its_codec<C: AudioCodec>(
    codec: &mut C,
    pcm: &[i16],
    r: Result<Offer, CodecError>,
)
    requires
        call_ensures(encode_frame::<C>, (codec, pcm), r),
    ensures
        exists|reply: Result<Vec<u8>, CodecError>|
            {
                &&& #[trigger] old(codec).encodes(pcm@, reply)
                &&& reply is Err ==> r is Err && r->Err_0 == reply->Err_0
                &&& reply is Ok ==> r is Ok && {
                    &&& r->Ok_0 is Ready <==> 24 + reply->Ok_0@.len() <= 1200
                    &&& r->Ok_0 is Ready ==> r->Ok_0->Ready_0@.payload == reply->Ok_0@
                    &&& r->Ok_0 is TooLarge && 24 + reply->Ok_0@.len() <= usize::MAX
                        ==> r->Ok_0->TooLarge_0 == 24 + reply->Ok_0@.len()
                }
            },
        r is Ok && r->Ok_0 is Ready ==> {
            &&& old(codec).has_sample_rate(r->Ok_0->Ready_0@.sample_rate)
            &&& old(codec).has_format(r->Ok_0->Ready_0@.fmt)
            &&& exists|n: usize| #[trigger]
                old(codec).has_frame_samples(n) && (n - r->Ok_0->Ready_0@.n_samples) % 65536 == 0
        },
        old(codec).encode_leaves(pcm@, final(codec).state()),
        call_requires(encode_frame::<C>, (codec, pcm)),
{
    let reply = choose|reply: Result<Vec<u8>, CodecError>| #[trigger]
        old(codec).encodes(pcm@, reply) && match reply {
            Ok(payload) => r is Ok && payload_offered(&*old(codec), payload@, r->Ok_0),
            Err(e) => r == Err::<Offer, CodecError>(e),
        };
    assert(old(codec).encodes(pcm@, reply));
    if reply is Ok {
        let (n, rate, fmt) = choose|n: usize, rate: u32, fmt: u8|
            {
                &&& old(codec).has_frame_samples(n)
                &&& old(codec).has_sample_rate(rate)
                &&& old(codec).has_format(fmt)
                &&& #[trigger] offered(reply->Ok_0@, n, rate, fmt, r->Ok_0)
            };
        assert(old(codec).has_frame_samples(n));
        assert(offered(reply->Ok_0@, n, rate, fmt, r->Ok_0));
    }
}

/// Whatever the codec, what is no audio datagram is ignored and the codec is left alone; so it is
/// for a payload of another format than the codec's, which is refused. Any other payload goes to
/// the codec as it stands behind the header, with the sample count that the header gives, and what
/// the codec replies is kept: its error, or its samples under the header's fields, cut or padded
/// with zeros to that count. The codec is left as decoding that payload once leaves it.
pub proof fn law_any_datagram_goes_to_its_codec<C: AudioCodec>(
    codec: &mut C,
    d: &[u8],
    r: Received,
)
    requires
        call_ensures(receive::<C>, (codec, d), r),
    ensures
        r is Ignored <==> !(d@.len() >= 24 && d@[0] == 0x41 && d@[1] == 0x55 && d@[2] == 0x44
            && d@[3]
            == 0x30 && d@[4] == 1),
        r is Ignored || r is FormatMismatch ==> *final(codec) == *old(codec),
        r is FormatMismatch ==> {
            &&& old(codec).has_format(r->expected)
            &&& r->got == d@[5]
            &&& r->got != r->expected
        },
        r is DecodeFailed || r is Frame ==> {
            let n = (0x100 * d@[18] + d@[19]) as nat;
            let payload = d@.subrange(24, d@.len() as int);
            &&& old(codec).has_format(d@[5])
            &&& old(codec).decode_leaves(payload, n, final(codec).state())
            &&& exists|reply: Result<Vec<i16>, CodecError>|
                {
                    &&& #[trigger] old(codec).decodes(payload, n, reply)
                    &&& r is Frame <==> reply is Ok
                    &&& r is DecodeFailed ==> r->DecodeFailed_fmt == d@[5] && r->error
                        == reply->Err_0
                    &&& r is Frame ==> r->pcm@.len() == n && forall|i: int|
                        0 <= i < n ==> #[trigger] r->pcm@[i] == if i < reply->Ok_0@.len() {
                            reply->Ok_0@[i]
                        } else {
                            0
                        }
                }
        },
        r is Frame ==> {
            &&& r->header.fmt == d@[5]
            &&& r->header.seq == 0x100_0000 * d@[6] + 0x1_0000 * d@[7] + 0x100 * d@[8] + d@[9]
            &&& r->header.ts_ms == 0x100_0000_0000_0000 * d@[10] + 0x1_0000_0000_0000 * d@[11]
                + 0x100_0000_0000 * d@[12] + 0x1_0000_0000 * d@[13] + 0x100_0000 * d@[14] + 0x1_0000
                * d@[15] + 0x100 * d@[16] + d@[17]
            &&& r->header.n_samples == 0x100 * d@[18] + d@[19]
            &&& r->header.sample_rate == 0x100_0000 * d@[20] + 0x1_0000 * d@[21] + 0x100 * d@[22]
                + d@[23]
        },
        call_requires(receive::<C>, (codec, d)),
{
    crate::header::lemma_fields_by_place(d@);
    let h = crate::header::header_fields(d@);
    if crate::header::has_header(d@) {
        let expected = choose|expected: u8| #[trigger]
            old(codec).has_format(expected) && received_as(
                &*old(codec),
                expected,
                d@,
                &*final(codec),
                r,
            );
        assert(received_as(&*old(codec), expected, d@, &*final(codec), r));
        if h.fmt == expected {
            let reply = choose|reply: Result<Vec<i16>, CodecError>| #[trigger]
                old(codec).decodes(
                    crate::header::payload_of(d@),
                    h.n_samples as nat,
                    reply,
                ) && accepted(h, reply, r);
            let n = (0x100 * d@[18] + d@[19]) as nat;
            let payload = d@.subrange(24, d@.len() as int);
            assert(n == h.n_samples as nat);
            assert(payload == crate::header::payload_of(d@));
            assert(old(codec).decodes(payload, n, reply));
            assert(old(codec).decode_leaves(payload, n, final(codec).state()));
            assert(accepted(h, reply, r));
        }
    }
}

} // verus!
