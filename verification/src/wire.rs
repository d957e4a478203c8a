//! The scalars and strings of the wire format, as `bincode` lays them out.
//!
//! Every integer is written at its full width, least significant byte first;
//! a string is the length of its UTF-8 form as a 64-bit integer, followed by
//! that form. The layout is stated here as a function on mathematical values;
//! the bytes themselves are always produced and read by `bincode`.

use vstd::prelude::*;
use vstd::utf8::*;

verus! {

/// The number of values that `width` bytes can spell.
pub open spec fn radix(width: nat) -> nat
    decreases width,
{
    if width == 0 {
        1
    } else {
        256 * radix((width - 1) as nat)
    }
}

/// The `width` low bytes of `x`, least significant first.
pub open spec fn le_bytes(x: nat, width: nat) -> Seq<u8>
    decreases width,
{
    if width == 0 {
        Seq::empty()
    } else {
        seq![(x % 256) as u8] + le_bytes(x / 256, (width - 1) as nat)
    }
}

/// The number that `bytes` spell, least significant byte first.
pub open spec fn le_value(bytes: Seq<u8>) -> nat
    decreases bytes.len(),
{
    if bytes.len() == 0 {
        0
    } else {
        bytes[0] as nat + 256 * le_value(bytes.drop_first())
    }
}

/// A signed 32-bit integer as the unsigned number with the same bits.
pub open spec fn i32_bits(v: i32) -> nat {
    if v >= 0 {
        v as nat
    } else {
        (v + 0x1_0000_0000) as nat
    }
}

/// The signed 32-bit integer with the bits of `n`.
pub open spec fn i32_of_bits(n: nat) -> i32 {
    if n < 0x8000_0000 {
        n as i32
    } else {
        (n - 0x1_0000_0000) as i32
    }
}

/// A signed 32-bit integer on the wire.
pub open spec fn i32_wire(v: i32) -> Seq<u8> {
    le_bytes(i32_bits(v), 4)
}

/// An unsigned 32-bit integer on the wire.
pub open spec fn u32_wire(v: u32) -> Seq<u8> {
    le_bytes(v as nat, 4)
}

/// An unsigned 64-bit integer on the wire.
pub open spec fn u64_wire(v: u64) -> Seq<u8> {
    le_bytes(v as nat, 8)
}

/// A string on the wire: the length of its UTF-8 form, then that form.
pub open spec fn str_wire(s: Seq<char>) -> Seq<u8> {
    le_bytes(encode_utf8(s).len(), 8) + encode_utf8(s)
}

/// The length that the first eight bytes announce.
pub open spec fn str_announced(bytes: Seq<u8>) -> nat {
    le_value(bytes.subrange(0, 8))
}

/// The bytes that follow the length, as many as it announces.
pub open spec fn str_payload(bytes: Seq<u8>) -> Seq<u8> {
    bytes.subrange(8, 8 + str_announced(bytes) as int)
}

/// `bytes` begin with a string: a length, that many bytes after it, and
/// those bytes are UTF-8.
pub open spec fn str_framed(bytes: Seq<u8>) -> bool {
    &&& bytes.len() >= 8
    &&& 8 + str_announced(bytes) <= bytes.len()
    &&& valid_utf8(str_payload(bytes))
}

/// Four bytes spell the numbers below 2^32, eight bytes those below 2^64.
pub proof fn lemma_radix_values()
    ensures
        radix(4) == 0x1_0000_0000,
        radix(8) == 0x1_0000_0000_0000_0000,
{
    reveal_with_fuel(radix, 9);
}

/// A number written at a width takes that many bytes.
pub proof fn lemma_le_bytes_len(x: nat, width: nat)
    ensures
        le_bytes(x, width).len() == width,
    decreases width,
{
    if width > 0 {
        lemma_le_bytes_len(x / 256, (width - 1) as nat);
    }
}

/// Reading back what was written gives the number that was written, as long
/// as the width could hold it.
pub proof fn lemma_le_round_trip(x: nat, width: nat)
    requires
        x < radix(width),
    ensures
        le_value(le_bytes(x, width)) == x,
    decreases width,
{
    if width > 0 {
        let rest = le_bytes(x / 256, (width - 1) as nat);
        let all = le_bytes(x, width);
        lemma_le_round_trip(x / 256, (width - 1) as nat);
        lemma_le_bytes_len(x / 256, (width - 1) as nat);
        assert(all.drop_first() =~= rest);
        assert(all[0] == (x % 256) as u8);
    }
}

/// Two's complement loses nothing.
pub proof fn lemma_i32_bits_round_trip(v: i32)
    ensures
        i32_bits(v) < radix(4),
        i32_of_bits(i32_bits(v)) == v,
{
    lemma_radix_values();
}

/// A string on the wire is framed, and what it frames is the string.
pub proof fn lemma_str_wire_framed(s: Seq<char>, tail: Seq<u8>)
    requires
        encode_utf8(s).len() < radix(8),
    ensures
        str_framed(str_wire(s) + tail),
        str_announced(str_wire(s) + tail) == encode_utf8(s).len(),
        str_payload(str_wire(s) + tail) == encode_utf8(s),
        decode_utf8(str_payload(str_wire(s) + tail)) == s,
        (str_wire(s) + tail).skip(8 + encode_utf8(s).len() as int) == tail,
        str_wire(s).len() == 8 + encode_utf8(s).len(),
{
    let body = encode_utf8(s);
    let head = le_bytes(body.len(), 8);
    let all = str_wire(s) + tail;
    lemma_le_bytes_len(body.len(), 8);
    lemma_le_round_trip(body.len(), 8);
    assert(all.subrange(0, 8) =~= head);
    assert(all.subrange(8, 8 + body.len() as int) =~= body);
    assert(all.skip(8 + body.len() as int) =~= tail);
    encode_utf8_valid_utf8(s);
    encode_utf8_decode_utf8(s);
}

/// `bincode::serialize` at `i32`. Claimed of it: the result is the four
/// bytes of the two's complement form, least significant first. Serialising
/// into a vector with no size limit does not fail for an integer.
#[verifier::external_body]
pub(crate) fn put_i32(v: i32) -> (bytes: Vec<u8>)
    ensures
        bytes@ == i32_wire(v),
{
    bincode::serialize(&v).unwrap()
}

/// `bincode::serialize` at `u32`. Claimed of it: the result is the four
/// bytes of the number, least significant first.
#[verifier::external_body]
pub(crate) fn put_u32(v: u32) -> (bytes: Vec<u8>)
    ensures
        bytes@ == u32_wire(v),
{
    bincode::serialize(&v).unwrap()
}

/// `bincode::serialize` at `u64`. Claimed of it: the result is the eight
/// bytes of the number, least significant first.
#[verifier::external_body]
pub(crate) fn put_u64(v: u64) -> (bytes: Vec<u8>)
    ensures
        bytes@ == u64_wire(v),
{
    bincode::serialize(&v).unwrap()
}

/// `bincode::serialize` at `str`. Claimed of it: the result is the length of
/// the string's UTF-8 form as eight bytes, least significant first, and then
/// that form.
#[verifier::external_body]
pub(crate) fn put_str(s: &str) -> (bytes: Vec<u8>)
    ensures
        bytes@ == str_wire(s@),
{
    bincode::serialize(s).unwrap()
}

/// `bincode::deserialize` at `i32`. Claimed of it: it succeeds on four bytes
/// or more, reads the first four as a two's complement number, least
/// significant byte first, and ignores what follows them.
#[verifier::external_body]
pub(crate) fn take_i32(bytes: &[u8]) -> (r: Option<i32>)
    ensures
        r == if bytes@.len() >= 4 {
            Some(i32_of_bits(le_value(bytes@.subrange(0, 4))))
        } else {
            None
        },
{
    bincode::deserialize::<i32>(bytes).ok()
}

/// `bincode::deserialize` at `u32`. Claimed of it: it succeeds on four bytes
/// or more, reads the first four as a number, least significant byte first,
/// and ignores what follows them.
#[verifier::external_body]
pub(crate) fn take_u32(bytes: &[u8]) -> (r: Option<u32>)
    ensures
        r is Some <==> bytes@.len() >= 4,
        r matches Some(v) ==> v as nat == le_value(bytes@.subrange(0, 4)),
{
    bincode::deserialize::<u32>(bytes).ok()
}

/// `bincode::deserialize` at `u64`. Claimed of it: it succeeds on eight
/// bytes or more, reads the first eight as a number, least significant byte
/// first, and ignores what follows them.
#[verifier::external_body]
pub(crate) fn take_u64(bytes: &[u8]) -> (r: Option<u64>)
    ensures
        r is Some <==> bytes@.len() >= 8,
        r matches Some(v) ==> v as nat == le_value(bytes@.subrange(0, 8)),
{
    bincode::deserialize::<u64>(bytes).ok()
}

/// `bincode::deserialize` at `String`. Claimed of it: it succeeds where the
/// input begins with a length of eight bytes, at least that many bytes
/// follow, and those bytes are UTF-8; the result is the string they spell,
/// and what follows them is ignored.
#[verifier::external_body]
pub(crate) fn take_str(bytes: &[u8]) -> (r: Option<String>)
    ensures
        r is Some <==> str_framed(bytes@),
        r matches Some(s) ==> s@ == decode_utf8(str_payload(bytes@)),
{
    bincode::deserialize::<String>(bytes).ok()
}

} // verus!
