//! Little-endian numbers in byte buffers.

use vstd::prelude::*;

verus! {

/// The `width` low-order bytes of `value`, least significant first.
pub open spec fn le_bytes(value: nat, width: nat) -> Seq<u8>
    decreases width,
{
    if width == 0 {
        Seq::empty()
    } else {
        seq![(value % 256) as u8] + le_bytes(value / 256, (width - 1) as nat)
    }
}

/// The number that `bytes` stand for, least significant byte first.
pub open spec fn le_value(bytes: Seq<u8>) -> nat
    decreases bytes.len(),
{
    if bytes.len() == 0 {
        0
    } else {
        bytes[0] as nat + 256 * le_value(bytes.drop_first())
    }
}

/// How many numbers `width` bytes can tell apart.
pub open spec fn le_capacity(width: nat) -> nat
    decreases width,
{
    if width == 0 {
        1
    } else {
        256 * le_capacity((width - 1) as nat)
    }
}

/// `v` as its two's complement in 64 bits.
pub open spec fn twos_complement_64(v: i64) -> nat {
    if v < 0 {
        (v + 0x1_0000_0000_0000_0000) as nat
    } else {
        v as nat
    }
}

/// `v` as its two's complement in 32 bits.
pub open spec fn twos_complement_32(v: i32) -> nat {
    if v < 0 {
        (v + 0x1_0000_0000) as nat
    } else {
        v as nat
    }
}

/// The 64-bit number whose two's complement is `v`.
pub open spec fn signed_64(v: nat) -> i64 {
    if v >= 0x8000_0000_0000_0000 {
        (v - 0x1_0000_0000_0000_0000) as i64
    } else {
        v as i64
    }
}

/// The 32-bit number whose two's complement is `v`.
pub open spec fn signed_32(v: nat) -> i32 {
    if v >= 0x8000_0000 {
        (v - 0x1_0000_0000) as i32
    } else {
        v as i32
    }
}

/// Computes [`twos_complement_64`].
pub fn to_twos_complement_64(v: i64) -> (r: u64)
    ensures
        r == twos_complement_64(v),
{
    if v < 0 {
        (v + 0x7fff_ffff_ffff_ffff + 1) as u64 + 0x8000_0000_0000_0000
    } else {
        v as u64
    }
}

/// Computes [`signed_64`].
pub fn from_twos_complement_64(v: u64) -> (r: i64)
    ensures
        r == signed_64(v as nat),
{
    if v >= 0x8000_0000_0000_0000 {
        (v - 0x8000_0000_0000_0000) as i64 - 0x7fff_ffff_ffff_ffff - 1
    } else {
        v as i64
    }
}

/// Computes [`twos_complement_32`].
pub fn to_twos_complement_32(v: i32) -> (r: u32)
    ensures
        r == twos_complement_32(v),
{
    if v < 0 {
        (v + 0x7fff_ffff + 1) as u32 + 0x8000_0000
    } else {
        v as u32
    }
}

/// Computes [`signed_32`].
pub fn from_twos_complement_32(v: u32) -> (r: i32)
    ensures
        r == signed_32(v as nat),
{
    if v >= 0x8000_0000 {
        (v - 0x8000_0000) as i32 - 0x7fff_ffff - 1
    } else {
        v as i32
    }
}

pub proof fn lemma_le_bytes_len(value: nat, width: nat)
    ensures
        le_bytes(value, width).len() == width,
    decreases width,
{
    if width > 0 {
        lemma_le_bytes_len(value / 256, (width - 1) as nat);
    }
}

pub proof fn lemma_le_value_bound(bytes: Seq<u8>)
    ensures
        le_value(bytes) < le_capacity(bytes.len()),
    decreases bytes.len(),
{
    if bytes.len() > 0 {
        lemma_le_value_bound(bytes.drop_first());
    }
}

/// Reading back what was written gives the value, where it fits.
pub proof fn lemma_le_value_of_bytes(value: nat, width: nat)
    requires
        value < le_capacity(width),
    ensures
        le_value(le_bytes(value, width)) == value,
    decreases width,
{
    if width > 0 {
        let rest = le_bytes(value / 256, (width - 1) as nat);
        lemma_le_value_of_bytes(value / 256, (width - 1) as nat);
        assert(le_bytes(value, width).drop_first() =~= rest);
    }
}

/// Writing what was read gives the bytes.
pub proof fn lemma_le_bytes_of_value(bytes: Seq<u8>)
    ensures
        le_bytes(le_value(bytes), bytes.len()) == bytes,
    decreases bytes.len(),
{
    if bytes.len() > 0 {
        let rest = bytes.drop_first();
        lemma_le_bytes_of_value(rest);
        assert(le_value(bytes) % 256 == bytes[0] as nat);
        assert(le_value(bytes) / 256 == le_value(rest));
        assert(le_bytes(le_value(bytes), bytes.len()) =~= bytes);
    }
}

pub proof fn lemma_le_capacities()
    ensures
        le_capacity(2) == 0x1_0000,
        le_capacity(4) == 0x1_0000_0000,
        le_capacity(8) == 0x1_0000_0000_0000_0000,
{
    reveal_with_fuel(le_capacity, 9);
}

proof fn lemma_le_capacity_monotone(a: nat, b: nat)
    requires
        a <= b,
    ensures
        le_capacity(a) <= le_capacity(b),
        1 <= le_capacity(a),
    decreases b,
{
    if a < b {
        lemma_le_capacity_monotone(a, (b - 1) as nat);
    } else if a > 0 {
        lemma_le_capacity_monotone((a - 1) as nat, (a - 1) as nat);
    }
}

/// Overwrites `width` bytes of `buffer` from `offset` on with `value`.
pub fn put_le(buffer: &mut [u8], offset: usize, width: usize, value: u64)
    requires
        offset + width <= old(buffer)@.len(),
    ensures
        final(buffer)@ == old(buffer)@.update_subrange_with(
            offset as int,
            le_bytes(value as nat, width as nat),
        ),
{
    let ghost before = buffer@;
    let ghost all = le_bytes(value as nat, width as nat);
    let mut rest: u64 = value;
    let mut i: usize = 0;
    proof {
        lemma_le_bytes_len(value as nat, width as nat);
        assert(all.skip(0) =~= all);
    }
    while i < width
        invariant
            i <= width,
            offset + width <= buffer.len(),
            buffer@.len() == before.len(),
            all.len() == width,
            all.skip(i as int) == le_bytes(rest as nat, (width - i) as nat),
            forall|k: int|
                0 <= k < buffer@.len() ==> #[trigger] buffer@[k] == if offset <= k < offset + i {
                    all[k - offset]
                } else {
                    before[k]
                },
        decreases width - i,
    {
        assert(all.skip(i as int)[0] == all[i as int]);
        assert(all.skip(i as int).drop_first() =~= all.skip(i + 1));
        assert(le_bytes(rest as nat, (width - i) as nat).drop_first() =~= le_bytes(
            rest as nat / 256,
            (width - i - 1) as nat,
        ));
        buffer[offset + i] = (rest % 256) as u8;
        rest = rest / 256;
        i = i + 1;
    }
    assert(buffer@ =~= before.update_subrange_with(offset as int, all));
}

/// The number held in `width` bytes of `buffer` from `offset` on.
pub fn get_le(buffer: &[u8], offset: usize, width: usize) -> (value: u64)
    requires
        width <= 8,
        offset + width <= buffer@.len(),
    ensures
        value == le_value(buffer@.subrange(offset as int, offset + width)),
        value < le_capacity(width as nat),
{
    let ghost field = buffer@.subrange(offset as int, offset + width);
    let mut value: u64 = 0;
    let mut i: usize = width;
    assert(field.skip(width as int) =~= Seq::<u8>::empty());
    while i > 0
        invariant
            i <= width <= 8,
            offset + width <= buffer.len(),
            field == buffer@.subrange(offset as int, offset + width),
            value == le_value(field.skip(i as int)),
            value < le_capacity((width - i) as nat),
        decreases i,
    {
        i = i - 1;
        proof {
            lemma_le_capacity_monotone((width - i - 1) as nat, 7);
            lemma_le_capacities();
            assert(le_capacity(8) == 256 * le_capacity(7));
            assert(field.skip(i as int).drop_first() =~= field.skip(i + 1));
            assert(field.skip(i as int)[0] == buffer@[offset + i]);
        }
        value = value * 256 + buffer[offset + i] as u64;
    }
    assert(field.skip(0) =~= field);
    value
}

/// Every byte counts by its place: the first one as it is, and all that follow
/// it 256 times as much.
pub proof fn bytes_count_by_their_place(first: u8, rest: Seq<u8>)
    ensures
        le_value(Seq::empty()) == 0,
        le_value(seq![first] + rest) == first as nat + 256 * le_value(rest),
{
    assert((seq![first] + rest).drop_first() =~= rest);
}

/// A number that fits is written as bytes that stand for it, and for no other
/// number.
pub proof fn written_number_is_read_back(value: u64, width: nat)
    requires
        width == 8 || (width == 4 && value < 0x1_0000_0000) || (width == 2 && value < 0x1_0000),
    ensures
        le_bytes(value as nat, width).len() == width,
        le_value(le_bytes(value as nat, width)) == value as nat,
{
    lemma_le_capacities();
    lemma_le_bytes_len(value as nat, width);
    lemma_le_value_of_bytes(value as nat, width);
}

/// Signed numbers are written as the numbers without a sign that equal them
/// modulo 2^64 or 2^32, and read back.
pub proof fn twos_complement_is_the_number_modulo_its_width(a: i64, b: i32)
    ensures
        0 <= twos_complement_64(a) < 0x1_0000_0000_0000_0000,
        twos_complement_64(a) as int == (a as int) % 0x1_0000_0000_0000_0000int,
        signed_64(twos_complement_64(a)) == a,
        0 <= twos_complement_32(b) < 0x1_0000_0000,
        twos_complement_32(b) as int == (b as int) % 0x1_0000_0000int,
        signed_32(twos_complement_32(b)) == b,
{
}

} // verus!
