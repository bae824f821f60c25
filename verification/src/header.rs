//! The fixed header that starts every audio datagram.
//!
//! | bytes    | field                                    |
//! |----------|------------------------------------------|
//! | 0 .. 4   | the magic `AUD0`                         |
//! | 4        | the version                              |
//! | 5        | the payload format                       |
//! | 6 .. 10  | sequence number, big endian              |
//! | 10 .. 18 | time stamp in milliseconds, big endian   |
//! | 18 .. 20 | samples in the frame, big endian         |
//! | 20 .. 24 | sample rate in hertz, big endian         |
use vstd::prelude::*;
use crate::bytes::{get_be, put_be};

verus! {

/// The bytes that mark a datagram as audio: `AUD0` in ASCII.
pub const MAGIC: [u8; 4] = [0x41, 0x55, 0x44, 0x30];

/// The version of the header layout.
pub const VERSION: u8 = 1;

/// The length of the header in bytes.
pub const HEADER_SIZE: usize = 24;

/// What a datagram says about the frame that it carries.
#[derive(Clone, Copy, Debug, PartialEq, Eq, Structural)]
pub struct Header {
    pub seq: u32,
    pub ts_ms: u64,
    pub n_samples: u16,
    pub sample_rate: u32,
    pub fmt: u8,
}

/// The header as it stands on the wire.
pub open spec fn header_bytes(h: Header) -> Seq<u8> {
    MAGIC@ + seq![VERSION, h.fmt] + crate::bytes::be_bytes(h.seq as nat, 4)
        + crate::bytes::be_bytes(h.ts_ms as nat, 8) + crate::bytes::be_bytes(h.n_samples as nat, 2)
        + crate::bytes::be_bytes(h.sample_rate as nat, 4)
}

/// Whether `buf` starts with a header of this version.
pub open spec fn has_header(buf: Seq<u8>) -> bool {
    &&& buf.len() >= HEADER_SIZE
    &&& buf.subrange(0, 4) == MAGIC@
    &&& buf[4] == VERSION
}

/// The fields of the header at the start of `buf`.
pub open spec fn header_fields(buf: Seq<u8>) -> Header {
    Header {
        seq: crate::bytes::be_value(buf.subrange(6, 10)) as u32,
        ts_ms: crate::bytes::be_value(buf.subrange(10, 18)) as u64,
        n_samples: crate::bytes::be_value(buf.subrange(18, 20)) as u16,
        sample_rate: crate::bytes::be_value(buf.subrange(20, 24)) as u32,
        fmt: buf[5],
    }
}

/// What follows the header.
pub open spec fn payload_of(buf: Seq<u8>) -> Seq<u8> {
    buf.subrange(HEADER_SIZE as int, buf.len() as int)
}

/// Writes the header `h` over all of `out`.
pub fn write_header(h: &Header, out: &mut [u8; HEADER_SIZE])
    ensures
        final(out)@ == header_bytes(*h),
{
    out[0] = MAGIC[0];
    out[1] = MAGIC[1];
    out[2] = MAGIC[2];
    out[3] = MAGIC[3];
    out[4] = VERSION;
    out[5] = h.fmt;
    put_be(out, 6, 4, h.seq as u64);
    put_be(out, 10, 8, h.ts_ms);
    put_be(out, 18, 2, h.n_samples as u64);
    put_be(out, 20, 4, h.sample_rate as u64);
    proof {
        lemma_header_layout(*h);
        let b = header_bytes(*h);
        assert(out@.subrange(6, 10) == b.subrange(6, 10));
        assert(out@.subrange(10, 18) == b.subrange(10, 18));
        assert(out@.subrange(18, 20) == b.subrange(18, 20));
        assert(out@.subrange(20, 24) == b.subrange(20, 24));
        assert forall|i: int| 0 <= i < HEADER_SIZE implies out@[i] == b[i] by {
            if 6 <= i < 10 {
                assert(out@[i] == out@.subrange(6, 10)[i - 6]);
            } else if 10 <= i < 18 {
                assert(out@[i] == out@.subrange(10, 18)[i - 10]);
            } else if 18 <= i < 20 {
                assert(out@[i] == out@.subrange(18, 20)[i - 18]);
            } else if 20 <= i {
                assert(out@[i] == out@.subrange(20, 24)[i - 20]);
            }
        }
        assert(out@ =~= b);
    }
}

/// Splits a datagram into its header and its payload; `None` where it does not start with a
/// header of this version.
pub fn read_header(buf: &[u8]) -> (r: Option<(Header, &[u8])>)
    ensures
        r is Some <==> has_header(buf@),
        r matches Some((h, payload)) ==> h == header_fields(buf@) && payload@ == payload_of(buf@),
{
    if buf.len() < HEADER_SIZE {
        return None;
    }
    let magic_matches = buf[0] == MAGIC[0] && buf[1] == MAGIC[1] && buf[2] == MAGIC[2] && buf[3]
        == MAGIC[3];
    proof {
        let start = buf@.subrange(0, 4);
        assert(start[0] == buf@[0] && start[1] == buf@[1] && start[2] == buf@[2] && start[3]
            == buf@[3]);
        if magic_matches {
            assert(start =~= MAGIC@);
        }
    }
    if !magic_matches || buf[4] != VERSION {
        return None;
    }
    proof {
        crate::bytes::lemma_be_limits();
    }
    let h = Header {
        seq: get_be(buf, 6, 4) as u32,
        ts_ms: get_be(buf, 10, 8),
        n_samples: get_be(buf, 18, 2) as u16,
        sample_rate: get_be(buf, 20, 4) as u32,
        fmt: buf[5],
    };
    Some((h, vstd::slice::slice_subrange(buf, HEADER_SIZE, buf.len())))
}

/// Where each field stands in the header's bytes.
pub proof fn lemma_header_layout(h: Header)
    ensures
        header_bytes(h).len() == HEADER_SIZE,
        header_bytes(h).subrange(0, 4) == MAGIC@,
        header_bytes(h)[4] == VERSION,
        header_bytes(h)[5] == h.fmt,
        header_bytes(h).subrange(6, 10) == crate::bytes::be_bytes(h.seq as nat, 4),
        header_bytes(h).subrange(10, 18) == crate::bytes::be_bytes(h.ts_ms as nat, 8),
        header_bytes(h).subrange(18, 20) == crate::bytes::be_bytes(h.n_samples as nat, 2),
        header_bytes(h).subrange(20, 24) == crate::bytes::be_bytes(h.sample_rate as nat, 4),
{
    crate::bytes::lemma_be_bytes_len(h.seq as nat, 4);
    crate::bytes::lemma_be_bytes_len(h.ts_ms as nat, 8);
    crate::bytes::lemma_be_bytes_len(h.n_samples as nat, 2);
    crate::bytes::lemma_be_bytes_len(h.sample_rate as nat, 4);
    let b = header_bytes(h);
    assert(b.subrange(0, 4) =~= MAGIC@);
    assert(b.subrange(6, 10) =~= crate::bytes::be_bytes(h.seq as nat, 4));
    assert(b.subrange(10, 18) =~= crate::bytes::be_bytes(h.ts_ms as nat, 8));
    assert(b.subrange(18, 20) =~= crate::bytes::be_bytes(h.n_samples as nat, 2));
    assert(b.subrange(20, 24) =~= crate::bytes::be_bytes(h.sample_rate as nat, 4));
}

/// A datagram made of a written header and a payload reads back as that header and that
/// payload, whatever the header's fields.
pub proof fn law_header_round_trip(h: Header, payload: Seq<u8>)
    ensures
        has_header(header_bytes(h) + payload),
        header_fields(header_bytes(h) + payload) == h,
        payload_of(header_bytes(h) + payload) == payload,
{
    lemma_header_layout(h);
    crate::bytes::lemma_be_limits();
    crate::bytes::lemma_be_value_of_bytes(h.seq as nat, 4);
    crate::bytes::lemma_be_value_of_bytes(h.ts_ms as nat, 8);
    crate::bytes::lemma_be_value_of_bytes(h.n_samples as nat, 2);
    crate::bytes::lemma_be_value_of_bytes(h.sample_rate as nat, 4);
    let head = header_bytes(h);
    let buf = head + payload;
    assert(buf.subrange(0, 4) =~= head.subrange(0, 4));
    assert(buf.subrange(6, 10) =~= head.subrange(6, 10));
    assert(buf.subrange(10, 18) =~= head.subrange(10, 18));
    assert(buf.subrange(18, 20) =~= head.subrange(18, 20));
    assert(buf.subrange(20, 24) =~= head.subrange(20, 24));
    assert(payload_of(buf) =~= payload);
}

/// The header that is read determines the bytes that it was read from: writing it out again and
/// appending the payload reproduces the datagram.
pub proof fn law_header_is_canonical(buf: Seq<u8>)
    requires
        has_header(buf),
    ensures
        header_bytes(header_fields(buf)) + payload_of(buf) == buf,
{
    let h = header_fields(buf);
    lemma_header_layout(h);
    crate::bytes::lemma_be_limits();
    crate::bytes::lemma_be_value_bound(buf.subrange(6, 10));
    crate::bytes::lemma_be_value_bound(buf.subrange(10, 18));
    crate::bytes::lemma_be_value_bound(buf.subrange(18, 20));
    crate::bytes::lemma_be_value_bound(buf.subrange(20, 24));
    crate::bytes::lemma_be_bytes_of_value(buf.subrange(6, 10));
    crate::bytes::lemma_be_bytes_of_value(buf.subrange(10, 18));
    crate::bytes::lemma_be_bytes_of_value(buf.subrange(18, 20));
    crate::bytes::lemma_be_bytes_of_value(buf.subrange(20, 24));
    let b = header_bytes(h);
    let whole = b + payload_of(buf);
    assert forall|i: int| 0 <= i < buf.len() implies whole[i] == buf[i] by {
        if i < 4 {
            assert(b.subrange(0, 4)[i] == buf.subrange(0, 4)[i]);
        } else if 6 <= i < 10 {
            assert(b.subrange(6, 10)[i - 6] == buf.subrange(6, 10)[i - 6]);
        } else if 10 <= i < 18 {
            assert(b.subrange(10, 18)[i - 10] == buf.subrange(10, 18)[i - 10]);
        } else if 18 <= i < 20 {
            assert(b.subrange(18, 20)[i - 18] == buf.subrange(18, 20)[i - 18]);
        } else if 20 <= i < 24 {
            assert(b.subrange(20, 24)[i - 20] == buf.subrange(20, 24)[i - 20]);
        }
    }
    assert(whole =~= buf);
}

/// Every field is written at its place, most significant byte first, behind the four letters
/// `AUD0`, the version 1 and the format, whatever its value and whatever stood there before.
pub proof fn law_header_is_written_by_place(h: Header, out: &mut [u8; HEADER_SIZE])
    requires
        call_ensures(write_header, (&h, out), ()),
    ensures
        final(out)@.len() == 24,
        final(out)@[0] == 0x41 && final(out)@[1] == 0x55 && final(out)@[2] == 0x44 && final(out)@[3]
            == 0x30,
        final(out)@[4] == 1,
        final(out)@[5] == h.fmt,
        0x100_0000 * final(out)@[6] + 0x1_0000 * final(out)@[7] + 0x100 * final(out)@[8]
            + final(out)@[9] == h.seq,
        0x100_0000_0000_0000 * final(out)@[10] + 0x1_0000_0000_0000 * final(out)@[11]
            + 0x100_0000_0000 * final(out)@[12] + 0x1_0000_0000 * final(out)@[13] + 0x100_0000
            * final(out)@[14] + 0x1_0000 * final(out)@[15] + 0x100 * final(out)@[16]
                + final(out)@[17] == h.ts_ms,
        0x100 * final(out)@[18] + final(out)@[19] == h.n_samples,
        0x100_0000 * final(out)@[20] + 0x1_0000 * final(out)@[21] + 0x100 * final(out)@[22]
            + final(out)@[23] == h.sample_rate,
        call_requires(write_header, (&h, out)),
{
    lemma_header_by_place(h);
}

/// The places of the fields in the header's bytes, as sums.
pub proof fn lemma_header_by_place(h: Header)
    ensures
        header_bytes(h).len() == 24,
        header_bytes(h)[0] == 0x41 && header_bytes(h)[1] == 0x55 && header_bytes(h)[2] == 0x44
            && header_bytes(h)[3] == 0x30,
        header_bytes(h)[4] == 1,
        header_bytes(h)[5] == h.fmt,
        0x100_0000 * header_bytes(h)[6] + 0x1_0000 * header_bytes(h)[7] + 0x100 * header_bytes(
            h,
        )[8] + header_bytes(h)[9] == h.seq,
        0x100_0000_0000_0000 * header_bytes(h)[10] + 0x1_0000_0000_0000 * header_bytes(h)[11]
            + 0x100_0000_0000 * header_bytes(h)[12] + 0x1_0000_0000 * header_bytes(h)[13]
            + 0x100_0000 * header_bytes(h)[14] + 0x1_0000 * header_bytes(h)[15] + 0x100
            * header_bytes(h)[16] + header_bytes(h)[17] == h.ts_ms,
        0x100 * header_bytes(h)[18] + header_bytes(h)[19] == h.n_samples,
        0x100_0000 * header_bytes(h)[20] + 0x1_0000 * header_bytes(h)[21] + 0x100 * header_bytes(
            h,
        )[22] + header_bytes(h)[23] == h.sample_rate,
{
    let b = header_bytes(h);
    lemma_header_layout(h);
    crate::bytes::lemma_be_limits();
    crate::bytes::lemma_be_value_of_bytes(h.seq as nat, 4);
    crate::bytes::lemma_be_value_of_bytes(h.ts_ms as nat, 8);
    crate::bytes::lemma_be_value_of_bytes(h.n_samples as nat, 2);
    crate::bytes::lemma_be_value_of_bytes(h.sample_rate as nat, 4);
    crate::bytes::lemma_be_value_by_place(b.subrange(6, 10));
    crate::bytes::lemma_be_value_by_place(b.subrange(10, 18));
    crate::bytes::lemma_be_value_by_place(b.subrange(18, 20));
    crate::bytes::lemma_be_value_by_place(b.subrange(20, 24));
    let start = b.subrange(0, 4);
    assert(start[0] == b[0] && start[1] == b[1] && start[2] == b[2] && start[3] == b[3]);
}

/// A datagram is taken for audio exactly where it has at least 24 bytes, starts with the four
/// letters `AUD0` and has the version 1 behind them. Every field is then read from its place, most
/// significant byte first, and the payload is all that follows.
pub proof fn law_header_is_read_by_place(buf: &[u8], r: Option<(Header, &[u8])>, i: int)
    requires
        call_ensures(read_header, (buf,), r),
    ensures
        r is Some <==> {
            &&& buf@.len() >= 24
            &&& buf@[0] == 0x41 && buf@[1] == 0x55 && buf@[2] == 0x44 && buf@[3] == 0x30
            &&& buf@[4] == 1
        },
        r is Some ==> {
            &&& (r->0).0.fmt == buf@[5]
            &&& (r->0).0.seq == 0x100_0000 * buf@[6] + 0x1_0000 * buf@[7] + 0x100 * buf@[8]
                + buf@[9]
            &&& (r->0).0.ts_ms == 0x100_0000_0000_0000 * buf@[10] + 0x1_0000_0000_0000 * buf@[11]
                + 0x100_0000_0000 * buf@[12] + 0x1_0000_0000 * buf@[13] + 0x100_0000 * buf@[14]
                + 0x1_0000 * buf@[15] + 0x100 * buf@[16] + buf@[17]
            &&& (r->0).0.n_samples == 0x100 * buf@[18] + buf@[19]
            &&& (r->0).0.sample_rate == 0x100_0000 * buf@[20] + 0x1_0000 * buf@[21]
                + 0x100 * buf@[22]
                + buf@[23]
            &&& (r->0).1@.len() == buf@.len() - 24
            &&& 0 <= i < (r->0).1@.len() ==> (r->0).1@[i] == buf@[24 + i]
        },
        call_requires(read_header, (buf,)),
{
    lemma_fields_by_place(buf@);
}

/// What a header at the start of some bytes is, and what its fields are, as sums.
pub proof fn lemma_fields_by_place(b: Seq<u8>)
    ensures
        has_header(b) <==> {
            &&& b.len() >= 24
            &&& b[0] == 0x41 && b[1] == 0x55 && b[2] == 0x44 && b[3] == 0x30
            &&& b[4] == 1
        },
        b.len() >= 24 ==> {
            let h = header_fields(b);
            &&& h.fmt == b[5]
            &&& h.seq == 0x100_0000 * b[6] + 0x1_0000 * b[7] + 0x100 * b[8] + b[9]
            &&& h.ts_ms == 0x100_0000_0000_0000 * b[10] + 0x1_0000_0000_0000 * b[11]
                + 0x100_0000_0000 * b[12] + 0x1_0000_0000 * b[13] + 0x100_0000 * b[14] + 0x1_0000
                * b[15] + 0x100 * b[16] + b[17]
            &&& h.n_samples == 0x100 * b[18] + b[19]
            &&& h.sample_rate == 0x100_0000 * b[20] + 0x1_0000 * b[21] + 0x100 * b[22] + b[23]
            &&& payload_of(b) == b.subrange(24, b.len() as int)
        },
{
    if b.len() >= 24 {
        let start = b.subrange(0, 4);
        assert(start[0] == b[0] && start[1] == b[1] && start[2] == b[2] && start[3] == b[3]);
        if b[0] == 0x41 && b[1] == 0x55 && b[2] == 0x44 && b[3] == 0x30 {
            assert(start =~= MAGIC@);
        }
        crate::bytes::lemma_be_value_by_place(b.subrange(6, 10));
        crate::bytes::lemma_be_value_by_place(b.subrange(10, 18));
        crate::bytes::lemma_be_value_by_place(b.subrange(18, 20));
        crate::bytes::lemma_be_value_by_place(b.subrange(20, 24));
    }
}

} // verus!
