//! Number encodings of relocated fields.
use vstd::prelude::*;

verus! {

/// The LEB128 encoding of a natural number: groups of seven bits, least significant first, each
/// but the last one with the high bit set.
pub open spec fn uleb(value: nat) -> Seq<u8>
    decreases value,
{
    if value < 128 {
        seq![value as u8]
    } else {
        seq![(value % 128 + 128) as u8] + uleb(value / 128)
    }
}

/// The signed LEB128 encoding of an integer; the last group carries the sign in its bit 6.
pub open spec fn sleb(value: int) -> Seq<u8>
    decreases
            (if value < 0 {
                -value
            } else {
                value
            }),
{
    if -64 <= value < 64 {
        seq![(value % 128) as u8]
    } else {
        seq![(value % 128 + 128) as u8] + sleb(value / 128)
    }
}

/// The LEB128 encoding of an integer in exactly `size` groups. Negative numbers are extended by
/// their sign.
pub open spec fn fixed_leb(value: int, size: nat) -> Seq<u8>
    decreases size,
{
    if size == 0 {
        Seq::empty()
    } else if size == 1 {
        seq![(value % 128) as u8]
    } else {
        seq![(value % 128 + 128) as u8] + fixed_leb(value / 128, (size - 1) as nat)
    }
}

/// The number that groups of seven bits stand for.
pub open spec fn leb_value(bytes: Seq<u8>) -> int
    decreases bytes.len(),
{
    if bytes.len() == 0 {
        0
    } else {
        bytes[0] as int % 128 + 128 * leb_value(bytes.skip(1))
    }
}

/// The little endian encoding of an integer in `size` bytes.
pub open spec fn le_bytes(value: int, size: nat) -> Seq<u8>
    decreases size,
{
    if size == 0 {
        Seq::empty()
    } else {
        seq![(value % 256) as u8] + le_bytes(value / 256, (size - 1) as nat)
    }
}

/// `128` to the power of `size`.
pub open spec fn leb_range(size: nat) -> int
    decreases size,
{
    if size == 0 {
        1
    } else {
        128 * leb_range((size - 1) as nat)
    }
}

/// A number in full length has that length.
pub proof fn lemma_fixed_leb_len(value: int, size: nat)
    ensures
        fixed_leb(value, size).len() == size,
    decreases size,
{
    if size > 1 {
        lemma_fixed_leb_len(value / 128, (size - 1) as nat);
    }
}

/// Reading the groups of a fixed-size encoding gives back the number, as far as its bits fit.
pub proof fn lemma_fixed_leb_value(value: int, size: nat)
    ensures
        0 <= leb_value(fixed_leb(value, size)) < leb_range(size),
        exists|k: int| #[trigger] (k * leb_range(size)) == value - leb_value(fixed_leb(value, size)),
    decreases size,
{
    let bytes = fixed_leb(value, size);
    lemma_fixed_leb_len(value, size);
    if size == 0 {
        assert(value * leb_range(0) == value);
    } else {
        let rest = (size - 1) as nat;
        lemma_fixed_leb_value(value / 128, rest);
        if size == 1 {
            assert(bytes.skip(1) =~= Seq::<u8>::empty());
            assert(fixed_leb(value / 128, 0) =~= Seq::<u8>::empty());
        } else {
            assert(bytes.skip(1) =~= fixed_leb(value / 128, rest));
        }
        let inner = leb_value(fixed_leb(value / 128, rest));
        let k = choose|k: int| #[trigger] (k * leb_range(rest)) == value / 128 - inner;
        assert(k * leb_range(size) == value - leb_value(bytes)) by (nonlinear_arith)
            requires
                k * leb_range(rest) == value / 128 - inner,
                leb_range(size) == 128 * leb_range(rest),
                leb_value(bytes) == value % 128 + 128 * inner,
        ;
    }
}

/// Whether bytes are one LEB128 number: all but the last have the high bit set.
pub open spec fn is_leb(bytes: Seq<u8>) -> bool {
    &&& bytes.len() > 0
    &&& bytes.last() < 128
    &&& forall|i: int| 0 <= i < bytes.len() - 1 ==> (#[trigger] bytes[i]) >= 128
}

/// The number that groups of seven bits stand for, if the highest bit of the last group is a sign.
pub open spec fn signed_leb_value(bytes: Seq<u8>) -> int {
    if bytes.last() as int % 128 >= 64 {
        leb_value(bytes) - leb_range(bytes.len())
    } else {
        leb_value(bytes)
    }
}

/// The number that bytes stand for, least significant byte first.
pub open spec fn le_value(bytes: Seq<u8>) -> int
    decreases bytes.len(),
{
    if bytes.len() == 0 {
        0
    } else {
        bytes[0] as int + 256 * le_value(bytes.skip(1))
    }
}

/// `256` to the power of `size`.
pub open spec fn byte_range(size: nat) -> int
    decreases size,
{
    if size == 0 {
        1
    } else {
        256 * byte_range((size - 1) as nat)
    }
}

/// A number that fits is read back from its bytes.
pub proof fn lemma_le_roundtrip(value: int, size: nat)
    requires
        0 <= value < byte_range(size),
    ensures
        le_bytes(value, size).len() == size,
        le_value(le_bytes(value, size)) == value,
    decreases size,
{
    if size > 0 {
        let bytes = le_bytes(value, size);
        lemma_le_roundtrip(value / 256, (size - 1) as nat);
        assert(bytes.skip(1) =~= le_bytes(value / 256, (size - 1) as nat));
    }
}

/// A fixed-size encoding is one LEB128 number.
pub proof fn lemma_fixed_leb_is_leb(value: int, size: nat)
    requires
        size > 0,
    ensures
        is_leb(fixed_leb(value, size)),
    decreases size,
{
    let bytes = fixed_leb(value, size);
    lemma_fixed_leb_len(value, size);
    if size > 1 {
        let rest = fixed_leb(value / 128, (size - 1) as nat);
        lemma_fixed_leb_len(value / 128, (size - 1) as nat);
        lemma_fixed_leb_is_leb(value / 128, (size - 1) as nat);
        assert forall|i: int| 0 <= i < bytes.len() - 1 implies (#[trigger] bytes[i]) >= 128 by {
            if i > 0 {
                assert(bytes[i] == rest[i - 1]);
            }
        }
        assert(bytes.last() == rest.last());
    }
}

/// The last group of groups of seven bits is the most significant one.
proof fn lemma_leb_last(bytes: Seq<u8>)
    requires
        bytes.len() > 0,
    ensures
        bytes.last() as int % 128 >= 64 <==> 2 * leb_value(bytes) >= leb_range(bytes.len()),
        0 <= leb_value(bytes) < leb_range(bytes.len()),
    decreases bytes.len(),
{
    let rest = bytes.skip(1);
    if bytes.len() > 1 {
        lemma_leb_last(rest);
        assert(rest.last() == bytes.last());
        assert(leb_range(bytes.len()) == 128 * leb_range(rest.len()));
        lemma_leb_range_even(rest.len());
    } else {
        assert(leb_value(rest) == 0);
        assert(leb_range(0) == 1);
        assert(leb_range(1) == 128 * leb_range(0));
    }
}

proof fn lemma_leb_range_even(size: nat)
    requires
        size > 0,
    ensures
        leb_range(size) == 2 * (64 * leb_range((size - 1) as nat)),
{
}

/// An integer that fits is read back exactly from its fixed-size encoding, with its sign.
pub proof fn lemma_fixed_leb_signed_roundtrip(value: int, size: nat)
    requires
        size > 0,
        -leb_range(size) <= 2 * value < leb_range(size),
    ensures
        signed_leb_value(fixed_leb(value, size)) == value,
{
    let bytes = fixed_leb(value, size);
    lemma_fixed_leb_len(value, size);
    lemma_fixed_leb_value(value, size);
    lemma_leb_last(bytes);
    let read = leb_value(bytes);
    let range = leb_range(size);
    let k = choose|k: int| #[trigger] (k * range) == value - read;
    if 2 * read >= range {
        assert(value - read == -range) by (nonlinear_arith)
            requires
                k * range == value - read,
                -range <= 2 * value < range,
                range <= 2 * read < 2 * range,
        ;
    } else {
        assert(value == read) by (nonlinear_arith)
            requires
                k * range == value - read,
                -range <= 2 * value < range,
                0 <= 2 * read < range,
        ;
    }
}

/// A natural number that fits is read back exactly from its fixed-size encoding.
pub proof fn lemma_fixed_leb_roundtrip(value: int, size: nat)
    requires
        0 <= value < leb_range(size),
    ensures
        leb_value(fixed_leb(value, size)) == value,
{
    lemma_fixed_leb_value(value, size);
    let read = leb_value(fixed_leb(value, size));
    let range = leb_range(size);
    let k = choose|k: int| #[trigger] (k * range) == value - read;
    assert(k == 0) by (nonlinear_arith)
        requires
            k * range == value - read,
            -range < value - read < range,
    ;
}

/// `leb128fmt::encode_u32`: the encoding stands in the first bytes of the array, zeros stand behind
/// it, and the number of its bytes is returned beside it. The function returns `None` only for
/// numbers of more than 32 bits.
#[verifier::external_body]
pub(crate) fn variable_u32(value: u32) -> (r: ([u8; 5], usize))
    ensures
        r.1 == uleb(value as nat).len(),
        r.1 <= 5,
        r.0@ == uleb(value as nat) + Seq::new((5 - r.1) as nat, |i: int| 0u8),
{
    leb128fmt::encode_u32(value).unwrap()
}

/// `leb128fmt::encode_s32`: the signed encoding stands in the first bytes of the array, zeros stand
/// behind it, and the number of its bytes is returned beside it. The function returns `None` only
/// for numbers of more than 32 bits.
#[verifier::external_body]
pub(crate) fn variable_s32(value: i32) -> (r: ([u8; 5], usize))
    ensures
        r.1 == sleb(value as int).len(),
        r.1 <= 5,
        r.0@ == sleb(value as int) + Seq::new((5 - r.1) as nat, |i: int| 0u8),
{
    leb128fmt::encode_s32(value).unwrap()
}

/// `leb128fmt::encode_u64`: the encoding stands in the first bytes of the array, zeros stand behind
/// it, and the number of its bytes is returned beside it. The function returns `None` only for
/// numbers of more than 64 bits.
#[verifier::external_body]
pub(crate) fn variable_u64(value: u64) -> (r: ([u8; 10], usize))
    ensures
        r.1 == uleb(value as nat).len(),
        r.1 <= 10,
        r.0@ == uleb(value as nat) + Seq::new((10 - r.1) as nat, |i: int| 0u8),
{
    leb128fmt::encode_u64(value).unwrap()
}

/// `leb128fmt::encode_fixed_u32`: the encoding in five bytes. The function returns `None` only for
/// numbers of more than 32 bits.
#[verifier::external_body]
pub(crate) fn fixed_u32(value: u32) -> (r: [u8; 5])
    ensures
        r@ == fixed_leb(value as int, 5),
{
    leb128fmt::encode_fixed_u32(value).unwrap()
}

/// `leb128fmt::encode_fixed_s32`: the signed encoding in five bytes. The function returns `None`
/// only for numbers of more than 32 bits.
#[verifier::external_body]
fn fixed_s32(value: i32) -> (r: [u8; 5])
    ensures
        r@ == fixed_leb(value as int, 5),
{
    leb128fmt::encode_fixed_s32(value).unwrap()
}

/// `leb128fmt::encode_fixed_u64`: the encoding in ten bytes. The function returns `None` only for
/// numbers of more than 64 bits.
#[verifier::external_body]
fn fixed_u64(value: u64) -> (r: [u8; 10])
    ensures
        r@ == fixed_leb(value as int, 10),
{
    leb128fmt::encode_fixed_u64(value).unwrap()
}

/// `leb128fmt::encode_fixed_s64`: the signed encoding in ten bytes. The function returns `None`
/// only for numbers of more than 64 bits.
#[verifier::external_body]
fn fixed_s64(value: i64) -> (r: [u8; 10])
    ensures
        r@ == fixed_leb(value as int, 10),
{
    leb128fmt::encode_fixed_s64(value).unwrap()
}

pub fn encode_leb128_u32_5byte(value: u32, buf: &mut [u8; 5])
    ensures
        final(buf)@ == fixed_leb(value as int, 5),
{
    *buf = fixed_u32(value);
}

pub fn encode_leb128_i32_5byte(value: i32, buf: &mut [u8; 5])
    ensures
        final(buf)@ == fixed_leb(value as int, 5),
{
    *buf = fixed_s32(value);
}

pub fn encode_leb128_u64_10byte(value: u64, buf: &mut [u8; 10])
    ensures
        final(buf)@ == fixed_leb(value as int, 10),
{
    *buf = fixed_u64(value);
}

pub fn encode_leb128_i64_10byte(value: i64, buf: &mut [u8; 10])
    ensures
        final(buf)@ == fixed_leb(value as int, 10),
{
    *buf = fixed_s64(value);
}

pub fn encode_u32(value: u32, buf: &mut [u8; 4])
    ensures
        final(buf)@ == le_bytes(value as int, 4),
{
    *buf = [
        (value % 256) as u8,
        (value / 256 % 256) as u8,
        (value / 256 / 256 % 256) as u8,
        (value / 256 / 256 / 256 % 256) as u8,
    ];
    proof {
        reveal_with_fuel(le_bytes, 5);
        assert(buf@ =~= le_bytes(value as int, 4));
    }
}

pub fn encode_u64(value: u64, buf: &mut [u8; 8])
    ensures
        final(buf)@ == le_bytes(value as int, 8),
{
    let high: u64 = value / 256 / 256 / 256 / 256;
    *buf = [
        (value % 256) as u8,
        (value / 256 % 256) as u8,
        (value / 256 / 256 % 256) as u8,
        (value / 256 / 256 / 256 % 256) as u8,
        (high % 256) as u8,
        (high / 256 % 256) as u8,
        (high / 256 / 256 % 256) as u8,
        (high / 256 / 256 / 256 % 256) as u8,
    ];
    proof {
        reveal_with_fuel(le_bytes, 9);
        assert(buf@ =~= le_bytes(value as int, 8));
    }
}

pub fn encode_i32(value: i32, buf: &mut [u8; 4])
    ensures
        final(buf)@ == le_bytes(value as int, 4),
{
    let bits: u32 = if value < 0 {
        (value as i64 + 0x1_0000_0000) as u32
    } else {
        value as u32
    };
    encode_u32(bits, buf);
    proof {
        reveal_with_fuel(byte_range, 5);
        lemma_le_bytes_wrap(value as int, bits as int, 4);
    }
}

pub fn encode_i64(value: i64, buf: &mut [u8; 8])
    ensures
        final(buf)@ == le_bytes(value as int, 8),
{
    let bits: u64 = if value < 0 {
        (value as i128 + 0x1_0000_0000_0000_0000) as u64
    } else {
        value as u64
    };
    encode_u64(bits, buf);
    proof {
        reveal_with_fuel(byte_range, 9);
        lemma_le_bytes_wrap(value as int, bits as int, 8);
    }
}

/// Numbers that differ by what does not fit have the same bytes.
proof fn lemma_le_bytes_wrap(a: int, b: int, size: nat)
    requires
        a == b || a == b - byte_range(size),
    ensures
        le_bytes(a, size) == le_bytes(b, size),
    decreases size,
{
    if size > 0 {
        let rest = (size - 1) as nat;
        assert(a % 256 == b % 256 && (a / 256 == b / 256 || a / 256 == b / 256 - byte_range(rest)))
            by {
            assert(byte_range(size) == 256 * byte_range(rest));
        }
        lemma_le_bytes_wrap(a / 256, b / 256, rest);
    }
}

/// Number of bytes of the LEB128 number that starts at a place; all bytes behind it where it does not
/// end.
pub open spec fn leb_len(bytes: Seq<u8>, at: int) -> nat
    decreases bytes.len() - at,
{
    if at < 0 || at >= bytes.len() {
        0
    } else if bytes[at] < 128 {
        1
    } else {
        1 + leb_len(bytes, at + 1)
    }
}

/// A number ends where its bytes end.
pub proof fn lemma_leb_len_bound(bytes: Seq<u8>, at: int)
    requires
        0 <= at <= bytes.len(),
    ensures
        at + leb_len(bytes, at) <= bytes.len(),
    decreases bytes.len() - at,
{
    if at < bytes.len() && bytes[at] >= 128 {
        lemma_leb_len_bound(bytes, at + 1);
    }
}

/// The length of a number is found in the bytes that hold it.
pub proof fn lemma_leb_len(bytes: Seq<u8>, at: int, number: Seq<u8>)
    requires
        is_leb(number),
        0 <= at,
        at + number.len() <= bytes.len(),
        bytes.subrange(at, at + number.len()) == number,
    ensures
        leb_len(bytes, at) == number.len(),
    decreases number.len(),
{
    let held = bytes.subrange(at, at + number.len());
    assert(held[0] == bytes[at]);
    assert(number[0] == bytes[at]);
    if number.len() > 1 {
        let rest = number.skip(1);
        assert forall|i: int| 0 <= i < rest.len() - 1 implies (#[trigger] rest[i]) >= 128 by {
            assert(number[i + 1] >= 128);
        }
        assert(rest.last() == number.last());
        assert(bytes.subrange(at + 1, at + 1 + rest.len()) =~= held.skip(1));
        lemma_leb_len(bytes, at + 1, rest);
    }
}

/// A natural number is read back from its encoding.
pub proof fn lemma_uleb_roundtrip(value: nat)
    ensures
        is_leb(uleb(value)),
        leb_value(uleb(value)) == value,
    decreases value,
{
    let bytes = uleb(value);
    if value >= 128 {
        let rest = uleb(value / 128);
        lemma_uleb_roundtrip(value / 128);
        assert(bytes.skip(1) =~= rest);
        assert forall|i: int| 0 <= i < bytes.len() - 1 implies (#[trigger] bytes[i]) >= 128 by {
            if i > 0 {
                assert(bytes[i] == rest[i - 1]);
            }
        }
        assert(bytes.last() == rest.last());
    } else {
        assert(bytes.skip(1) =~= Seq::<u8>::empty());
        assert(leb_value(bytes.skip(1)) == 0);
    }
}

/// An integer is read back from its signed encoding.
pub proof fn lemma_sleb_roundtrip(value: int)
    ensures
        is_leb(sleb(value)),
        signed_leb_value(sleb(value)) == value,
    decreases
            (if value < 0 {
                -value
            } else {
                value
            }),
{
    let bytes = sleb(value);
    if -64 <= value < 64 {
        assert(bytes.skip(1) =~= Seq::<u8>::empty());
        assert(leb_value(bytes.skip(1)) == 0);
        assert(leb_range(0) == 1);
        assert(leb_range(1) == 128 * leb_range(0));
    } else {
        let rest = sleb(value / 128);
        lemma_sleb_roundtrip(value / 128);
        assert(bytes.skip(1) =~= rest);
        assert forall|i: int| 0 <= i < bytes.len() - 1 implies (#[trigger] bytes[i]) >= 128 by {
            if i > 0 {
                assert(bytes[i] == rest[i - 1]);
            }
        }
        assert(bytes.last() == rest.last());
        assert(leb_range(bytes.len()) == 128 * leb_range(rest.len()));
    }
}

} // verus!
