//! Big-endian integers as byte sequences.
use vstd::prelude::*;

verus! {

/// The number that `bytes` spells in base 256, most significant byte first.
pub open spec fn be_value(bytes: Seq<u8>) -> nat
    decreases bytes.len(),
{
    if bytes.len() == 0 {
        0
    } else {
        256 * be_value(bytes.drop_last()) + bytes.last() as nat
    }
}

/// The `width` lowest base-256 digits of `value`, most significant first.
pub open spec fn be_bytes(value: nat, width: nat) -> Seq<u8>
    decreases width,
{
    if width == 0 {
        seq![]
    } else {
        be_bytes(value / 256, (width - 1) as nat).push((value % 256) as u8)
    }
}

/// The count of values that `width` bytes can tell apart.
pub open spec fn be_limit(width: nat) -> nat
    decreases width,
{
    if width == 0 {
        1
    } else {
        256 * be_limit((width - 1) as nat)
    }
}

/// An encoding of a given width has that many bytes.
pub proof fn lemma_be_bytes_len(value: nat, width: nat)
    ensures
        be_bytes(value, width).len() == width,
    decreases width,
{
    if width > 0 {
        lemma_be_bytes_len(value / 256, (width - 1) as nat);
    }
}

/// Reading an encoding back gives the value, where it fits the width.
pub proof fn lemma_be_value_of_bytes(value: nat, width: nat)
    requires
        value < be_limit(width),
    ensures
        be_value(be_bytes(value, width)) == value,
    decreases width,
{
    if width > 0 {
        let high = be_bytes(value / 256, (width - 1) as nat);
        lemma_be_value_of_bytes(value / 256, (width - 1) as nat);
        assert(be_bytes(value, width).drop_last() =~= high);
    }
}

/// Writing out the value that was read reproduces the bytes.
pub proof fn lemma_be_bytes_of_value(bytes: Seq<u8>)
    ensures
        be_bytes(be_value(bytes), bytes.len()) == bytes,
    decreases bytes.len(),
{
    if bytes.len() > 0 {
        lemma_be_bytes_of_value(bytes.drop_last());
        assert(be_value(bytes) / 256 == be_value(bytes.drop_last()));
        assert(be_bytes(be_value(bytes), bytes.len()) =~= bytes);
    } else {
        assert(be_bytes(be_value(bytes), bytes.len()) =~= bytes);
    }
}

/// What is read from a sequence of bytes lies below the limit of its width.
pub proof fn lemma_be_value_bound(bytes: Seq<u8>)
    ensures
        be_value(bytes) < be_limit(bytes.len()),
    decreases bytes.len(),
{
    if bytes.len() > 0 {
        lemma_be_value_bound(bytes.drop_last());
    }
}

/// The limits of the widths in use.
pub proof fn lemma_be_limits()
    ensures
        be_limit(2) == 0x1_0000,
        be_limit(4) == 0x1_0000_0000,
        be_limit(8) == 0x1_0000_0000_0000_0000,
{
    reveal_with_fuel(be_limit, 9);
}

/// A wider limit is no smaller.
pub proof fn lemma_be_limit_monotonic(small: nat, large: nat)
    requires
        small <= large,
    ensures
        1 <= be_limit(small) <= be_limit(large),
    decreases large,
{
    if large > 0 {
        if small == large {
            lemma_be_limit_monotonic((small - 1) as nat, (large - 1) as nat);
        } else {
            lemma_be_limit_monotonic(small, (large - 1) as nat);
        }
    }
}

/// Writes the lowest `width` digits of `value` at position `at`, most significant first, and
/// leaves the other bytes as they were.
pub(crate) fn put_be<const N: usize>(out: &mut [u8; N], at: usize, width: usize, value: u64)
    requires
        at + width <= N,
    ensures
        final(out)@.len() == old(out)@.len(),
        final(out)@.subrange(at as int, at + width) == be_bytes(value as nat, width as nat),
        forall|i: int|
            0 <= i < N && !(at <= i < at + width) ==> #[trigger] final(out)@[i] == old(out)@[i],
    decreases width,
{
    if width == 0 {
        assert(out@.subrange(at as int, at as int) =~= be_bytes(value as nat, 0));
    } else {
        put_be(out, at, width - 1, value / 256);
        let ghost high = out@.subrange(at as int, at + width - 1);
        out[at + width - 1] = (value % 256) as u8;
        assert(out@.subrange(at as int, at + width) =~= high.push((value % 256) as u8));
    }
}

/// Reads `width` bytes from position `at` as one number, most significant first.
pub(crate) fn get_be(buf: &[u8], at: usize, width: usize) -> (value: u64)
    requires
        at + width <= buf.len(),
        width <= 8,
    ensures
        value as nat == be_value(buf@.subrange(at as int, at + width)),
        value < be_limit(width as nat),
{
    let mut value: u64 = 0;
    let mut i: usize = 0;
    assert(buf@.subrange(at as int, at as int) =~= Seq::<u8>::empty());
    while i < width
        invariant
            i <= width <= 8,
            at + width <= buf.len(),
            value as nat == be_value(buf@.subrange(at as int, at + i)),
        decreases width - i,
    {
        let ghost seen = buf@.subrange(at as int, at + i);
        let ghost more = buf@.subrange(at as int, at + i + 1);
        proof {
            assert(more.drop_last() =~= seen);
            lemma_be_value_bound(more);
            lemma_be_limit_monotonic((i + 1) as nat, 8);
            lemma_be_limits();
        }
        value = value * 256 + buf[at + i] as u64;
        i = i + 1;
    }
    proof {
        lemma_be_value_bound(buf@.subrange(at as int, at + width));
    }
    value
}

/// What two, four and eight bytes spell, place by place.
pub proof fn lemma_be_value_by_place(b: Seq<u8>)
    ensures
        b.len() == 2 ==> be_value(b) == 0x100 * b[0] + b[1],
        b.len() == 4 ==> be_value(b) == 0x100_0000 * b[0] + 0x1_0000 * b[1] + 0x100 * b[2] + b[3],
        b.len() == 8 ==> be_value(b) == 0x100_0000_0000_0000 * b[0] + 0x1_0000_0000_0000 * b[1]
            + 0x100_0000_0000 * b[2] + 0x1_0000_0000 * b[3] + 0x100_0000 * b[4] + 0x1_0000 * b[5]
            + 0x100 * b[6] + b[7],
{
    reveal_with_fuel(be_value, 9);
    if b.len() == 2 || b.len() == 4 || b.len() == 8 {
        let c = b.drop_last();
        let d = c.drop_last();
        assert(c.last() == b[b.len() - 2]);
        if b.len() > 2 {
            let e = d.drop_last();
            let f = e.drop_last();
            assert(d.last() == b[b.len() - 3]);
            assert(e.last() == b[b.len() - 4]);
            if b.len() > 4 {
                let g = f.drop_last();
                let h = g.drop_last();
                let k = h.drop_last();
                assert(f.last() == b[3]);
                assert(g.last() == b[2]);
                assert(h.last() == b[1]);
                assert(k.last() == b[0]);
            }
        }
    }
}

} // verus!
