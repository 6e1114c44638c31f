//! Variable-length integers: seven value bits per byte, low-order group
//! first, the high bit of a byte set when another byte follows.

use vstd::prelude::*;

verus! {

/// The seven value bits of an encoded byte.
pub const SEGMENT_BITS: u8 = 0x7F;

/// Set on every encoded byte but the last.
pub const CONTINUE_BIT: u8 = 0x80;

/// No encoding of a 32-bit value is longer than this.
pub const MAX_VARINT_BYTES: usize = 5;

/// Why no varint could be read.
#[derive(Clone, Copy, Debug, PartialEq, Eq)]
pub enum VarintError {
    /// The bytes ran out before a byte without the continuation bit was
    /// found: more input may complete the value.
    IncompleteData,
    /// Five bytes in a row carry the continuation bit.
    Overflow,
}

/// What reading a varint off the front of a byte sequence gives, before the
/// value is cut to 32 bits.
pub enum VarintRead {
    /// The groups read so far add up to `value`; `consumed` bytes held them.
    Value { value: nat, consumed: nat },
    /// Every byte present carries the continuation bit.
    Incomplete,
    /// More bytes carry the continuation bit than the reader may take.
    Overflow,
}

/// The minimal encoding of `value`.
pub open spec fn varint_encoding(value: nat) -> Seq<u8>
    decreases value,
{
    if value < 128 {
        seq![value as u8]
    } else {
        seq![(value % 128 + 128) as u8] + varint_encoding(value / 128)
    }
}

/// Reads one varint off the front of `bytes`, taking at most `room` bytes.
/// The first byte holds the lowest seven bits, and the value ends with the
/// first byte below 128.
pub open spec fn read_groups(bytes: Seq<u8>, room: nat) -> VarintRead
    decreases room,
{
    if room == 0 {
        VarintRead::Overflow
    } else if bytes.len() == 0 {
        VarintRead::Incomplete
    } else if bytes[0] < 128 {
        VarintRead::Value { value: bytes[0] as nat, consumed: 1 }
    } else {
        match read_groups(bytes.skip(1), (room - 1) as nat) {
            VarintRead::Value { value, consumed } => VarintRead::Value {
                value: (bytes[0] - 128) as nat + 128 * value,
                consumed: consumed + 1,
            },
            VarintRead::Incomplete => VarintRead::Incomplete,
            VarintRead::Overflow => VarintRead::Overflow,
        }
    }
}

/// The varint at the front of `bytes` and the number of bytes it takes, at
/// most five. Bits of the fifth group that do not fit in 32 bits are dropped.
pub open spec fn decode_varint(bytes: Seq<u8>) -> Result<(u32, usize), VarintError> {
    match read_groups(bytes, 5) {
        VarintRead::Value { value, consumed } => Ok(
            ((value % 0x1_0000_0000) as u32, consumed as usize),
        ),
        VarintRead::Incomplete => Err(VarintError::IncompleteData),
        VarintRead::Overflow => Err(VarintError::Overflow),
    }
}

/// A value below 128^k is encoded in at most k bytes, for the five lengths
/// that a 35-bit value can have.
pub proof fn lemma_encoding_len(value: nat)
    ensures
        varint_encoding(value).len() >= 1,
        value < 128 <==> varint_encoding(value).len() == 1,
        value < 0x4000 <==> varint_encoding(value).len() <= 2,
        value < 0x20_0000 <==> varint_encoding(value).len() <= 3,
        value < 0x1000_0000 <==> varint_encoding(value).len() <= 4,
        value < 0x8_0000_0000 <==> varint_encoding(value).len() <= 5,
    decreases value,
{
    if value >= 128 {
        lemma_encoding_len(value / 128);
    }
}

/// Every byte of an encoding but the last carries the continuation bit, and
/// the last does not. No encoding is padded: where there is more than one
/// byte, the last one holds a group that is not zero.
pub proof fn lemma_encoding_shape(value: nat)
    ensures
        forall|i: int|
            0 <= i < varint_encoding(value).len() - 1 ==> #[trigger] varint_encoding(value)[i]
                >= 128,
        varint_encoding(value).last() < 128,
        varint_encoding(value).len() > 1 ==> varint_encoding(value).last() != 0,
    decreases value,
{
    if value >= 128 {
        lemma_encoding_shape(value / 128);
        let tail = varint_encoding(value / 128);
        let whole = varint_encoding(value);
        assert forall|i: int| 0 <= i < whole.len() - 1 implies #[trigger] whole[i] >= 128 by {
            if i > 0 {
                assert(whole[i] == tail[i - 1]);
            }
        }
        assert(whole.last() == tail.last());
    }
}

/// Reading an encoding back gives the value and the encoding's length,
/// whatever follows it, as long as the reader may take that many bytes.
pub proof fn lemma_read_encoding(value: nat, rest: Seq<u8>, room: nat)
    requires
        varint_encoding(value).len() <= room,
    ensures
        read_groups(varint_encoding(value) + rest, room) == (VarintRead::Value {
            value,
            consumed: varint_encoding(value).len(),
        }),
    decreases value,
{
    let bytes = varint_encoding(value) + rest;
    if value >= 128 {
        assert(bytes.skip(1) =~= varint_encoding(value / 128) + rest);
        lemma_read_encoding(value / 128, rest, (room - 1) as nat);
    }
}

/// Decoding what `write_varint` produced gives the value back, with the
/// number of bytes that `varint_size` reports, whatever follows in the
/// buffer.
pub proof fn lemma_varint_round_trip(value: u32, rest: Seq<u8>)
    ensures
        decode_varint(varint_encoding(value as nat) + rest) == Ok::<(u32, usize), VarintError>(
            (value, varint_encoding(value as nat).len() as usize),
        ),
        1 <= varint_encoding(value as nat).len() <= 5,
{
    lemma_encoding_len(value as nat);
    lemma_read_encoding(value as nat, rest, 5);
}

/// A value that was read took at least one byte, no more than the reader
/// was allowed, and none that is not there.
pub proof fn lemma_read_groups_bounds(bytes: Seq<u8>, room: nat)
    ensures
        read_groups(bytes, room) matches VarintRead::Value { consumed, .. } ==> 1 <= consumed
            <= room && consumed <= bytes.len(),
    decreases room,
{
    if room > 0 && bytes.len() > 0 && bytes[0] >= 128 {
        lemma_read_groups_bounds(bytes.skip(1), (room - 1) as nat);
    }
}

/// A decoded varint took between one and five bytes of those present.
pub proof fn lemma_decode_varint_bounds(bytes: Seq<u8>)
    ensures
        decode_varint(bytes) matches Ok((_, consumed)) ==> 1 <= consumed <= 5 && consumed
            <= bytes.len(),
{
    lemma_read_groups_bounds(bytes, 5);
}

/// Bytes that arrive later change no reading that has come to an end: a
/// value stays the value it was, and an overflow stays an overflow.
pub proof fn lemma_read_groups_extend(bytes: Seq<u8>, more: Seq<u8>, room: nat)
    requires
        !(read_groups(bytes, room) is Incomplete),
    ensures
        read_groups(bytes + more, room) == read_groups(bytes, room),
    decreases room,
{
    if room > 0 {
        assert(bytes.len() > 0);
        assert((bytes + more)[0] == bytes[0]);
        if bytes[0] >= 128 {
            assert((bytes + more).skip(1) =~= bytes.skip(1) + more);
            lemma_read_groups_extend(bytes.skip(1), more, (room - 1) as nat);
        }
    }
}

/// Unless it asks for more input, decoding a varint gives the same result
/// when more bytes follow.
pub proof fn lemma_decode_varint_extend(bytes: Seq<u8>, more: Seq<u8>)
    requires
        decode_varint(bytes) != Err::<(u32, usize), VarintError>(VarintError::IncompleteData),
    ensures
        decode_varint(bytes + more) == decode_varint(bytes),
{
    lemma_read_groups_extend(bytes, more, 5);
}

/// A reading continued by `taken` earlier bytes whose groups add up to
/// `low`, where the next group weighs `weight`.
pub open spec fn continued(read: VarintRead, low: nat, weight: nat, taken: nat) -> VarintRead {
    match read {
        VarintRead::Value { value, consumed } => VarintRead::Value {
            value: low + weight * value,
            consumed: consumed + taken,
        },
        VarintRead::Incomplete => VarintRead::Incomplete,
        VarintRead::Overflow => VarintRead::Overflow,
    }
}

/// 128 to the power `index`: what one unit of group `index` is worth.
pub open spec fn group_weight(index: nat) -> nat
    decreases index,
{
    if index == 0 {
        1
    } else {
        128 * group_weight((index - 1) as nat)
    }
}

proof fn lemma_group_weights()
    ensures
        group_weight(0) == 1,
        group_weight(1) == 0x80,
        group_weight(2) == 0x4000,
        group_weight(3) == 0x20_0000,
        group_weight(4) == 0x1000_0000,
        group_weight(5) == 0x8_0000_0000,
{
    reveal_with_fuel(group_weight, 6);
}

/// Taking one more continuation byte into the part already read leaves the
/// reading as a whole unchanged.
proof fn lemma_continue_reading(bytes: Seq<u8>, room: nat, low: nat, weight: nat, taken: nat)
    requires
        room > 0,
        bytes.len() > 0,
        bytes[0] >= 128,
    ensures
        continued(read_groups(bytes, room), low, weight, taken) == continued(
            read_groups(bytes.skip(1), (room - 1) as nat),
            low + weight * (bytes[0] - 128) as nat,
            128 * weight,
            taken + 1,
        ),
{
    let head = (bytes[0] - 128) as nat;
    match read_groups(bytes.skip(1), (room - 1) as nat) {
        VarintRead::Value { value, consumed } => {
            assert(low + weight * (head + 128 * value) == low + weight * head + (128 * weight)
                * value) by (nonlinear_arith);
        },
        _ => {},
    }
}

/// Setting group `index` in a value that holds only lower groups adds the
/// group at its weight; the fifth group loses what does not fit in 32 bits.
proof fn lemma_set_group(before: u32, group: u32, index: nat, after: u32)
    requires
        index < 5,
        group < 128,
        before < group_weight(index),
        after == before | (group << ((7 * index) as u32)),
    ensures
        after == (before + group_weight(index) * group) % 0x1_0000_0000,
        index < 4 ==> after == before + group_weight(index) * group,
{
    lemma_group_weights();
    if index == 0 {
        assert(after == before + 1 * group) by (bit_vector)
            requires
                after == before | (group << 0u32),
                before < 1,
                group < 128,
        ;
    } else if index == 1 {
        assert(after == before + 0x80 * group) by (bit_vector)
            requires
                after == before | (group << 7u32),
                before < 0x80,
                group < 128,
        ;
    } else if index == 2 {
        assert(after == before + 0x4000 * group) by (bit_vector)
            requires
                after == before | (group << 14u32),
                before < 0x4000,
                group < 128,
        ;
    } else if index == 3 {
        assert(after == before + 0x20_0000 * group) by (bit_vector)
            requires
                after == before | (group << 21u32),
                before < 0x20_0000,
                group < 128,
        ;
    } else {
        assert(after == (before + 0x1000_0000 * group) % 0x1_0000_0000) by (bit_vector)
            requires
                after == before | (group << 28u32),
                before < 0x1000_0000,
                group < 128,
        ;
    }
}

/// Reads one varint off the front of `data` and says how many bytes it
/// took. Nothing is consumed: the caller skips the bytes once it has all it
/// needs. `IncompleteData` asks for more input; `Overflow` says that the
/// first five bytes all announce a successor.
pub fn read_varint(data: &[u8]) -> (read: Result<(u32, usize), VarintError>)
    ensures
        read == decode_varint(data@),
        read matches Ok((_, consumed)) ==> 1 <= consumed <= 5 && consumed <= data@.len(),
{
    let mut value: u32 = 0;
    let mut pos: u32 = 0;
    let mut index: usize = 0;
    let ghost mut low: nat = 0;
    proof {
        lemma_group_weights();
        assert(data@.skip(0) =~= data@);
    }
    while index < MAX_VARINT_BYTES
        invariant
            index <= 5,
            index <= data@.len(),
            pos == 7 * index,
            index < 5 ==> value == low && low < group_weight(index as nat),
            read_groups(data@, 5) == continued(
                read_groups(data@.skip(index as int), (5 - index) as nat),
                low,
                group_weight(index as nat),
                index as nat,
            ),
        decreases 5 - index,
    {
        let ghost remaining = data@.skip(index as int);
        let ghost weight = group_weight(index as nat);
        if index >= data.len() {
            assert(remaining.len() == 0);
            return Err(VarintError::IncompleteData);
        }
        let byte: u8 = data[index];
        let group: u32 = (byte & SEGMENT_BITS) as u32;
        let ghost before = value;
        value |= group << pos;
        proof {
            assert(remaining[0] == byte);
            assert(group == byte % 128 && group < 128 && (byte & 0x80 == 0 <==> byte < 128))
                by (bit_vector)
                requires
                    group == (byte & 0x7F) as u32,
            ;
            lemma_set_group(before, group, index as nat, value);
        }
        index += 1;
        if byte & CONTINUE_BIT == 0 {
            return Ok((value, index));
        }
        proof {
            lemma_continue_reading(remaining, (6 - index) as nat, low, weight, (index - 1) as nat);
            assert(remaining.skip(1) =~= data@.skip(index as int));
            assert(weight * (byte - 128) as nat <= weight * 127) by (nonlinear_arith)
                requires
                    byte - 128 <= 127,
                    byte >= 128,
            ;
            low = low + weight * (byte - 128) as nat;
            lemma_group_weights();
        }
        pos += 7;
    }
    Err(VarintError::Overflow)
}

/// Returns the number of bytes that `write_varint` produces for `value`.
pub fn varint_size(value: u32) -> (size: u32)
    ensures
        size == varint_encoding(value as nat).len(),
        1 <= size <= 5,
{
    let mut rest: u32 = value;
    let mut size: u32 = 1;
    proof {
        lemma_encoding_len(value as nat);
    }
    while rest >= 128
        invariant
            1 <= size,
            size + varint_encoding(rest as nat).len() == varint_encoding(value as nat).len() + 1,
            varint_encoding(value as nat).len() <= 5,
        decreases rest,
    {
        proof {
            assert(rest >> 7 == rest / 128) by (bit_vector);
            lemma_encoding_len((rest / 128) as nat);
        }
        rest >>= 7;
        size += 1;
    }
    proof {
        lemma_encoding_len(rest as nat);
    }
    size
}

/// Encodes `value` in the fewest bytes: seven bits at a time, low-order
/// group first, the continuation bit set on every byte but the last.
pub fn write_varint(value: u32) -> (buffer: Vec<u8>)
    ensures
        buffer@ == varint_encoding(value as nat),
        1 <= buffer@.len() <= 5,
{
    let mut buffer: Vec<u8> = Vec::new();
    let mut rest: u32 = value;
    while rest >= 128
        invariant
            buffer@ + varint_encoding(rest as nat) == varint_encoding(value as nat),
        decreases rest,
    {
        let group: u8 = (rest & SEGMENT_BITS as u32) as u8 | CONTINUE_BIT;
        proof {
            assert(rest >> 7 == rest / 128) by (bit_vector);
            assert(((rest & 0x7F) as u8 | 0x80) == rest % 128 + 128) by (bit_vector);
            assert(buffer@.push(group) + varint_encoding((rest / 128) as nat) =~= buffer@
                + varint_encoding(rest as nat));
        }
        rest >>= 7;
        buffer.push(group);
    }
    proof {
        assert(buffer@.push(rest as u8) =~= buffer@ + varint_encoding(rest as nat));
        lemma_encoding_len(value as nat);
    }
    buffer.push(rest as u8);
    buffer
}

} // verus!
