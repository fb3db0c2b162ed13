//! Little-endian integers and UTF-8 texts.

use byteorder::ByteOrder;
use vstd::prelude::*;
use vstd::utf8::{decode_utf8, valid_utf8};

verus! {

/// The number whose base-256 digits are `bytes`, least significant first.
pub open spec fn le_value(bytes: Seq<u8>) -> nat
    decreases bytes.len(),
{
    if bytes.len() == 0 {
        0
    } else {
        bytes[0] as nat + 256 * le_value(bytes.skip(1))
    }
}

/// The `width` least significant base-256 digits of `value`, least significant first.
pub open spec fn le_bytes(value: nat, width: nat) -> Seq<u8>
    decreases width,
{
    if width == 0 {
        seq![]
    } else {
        seq![(value % 256) as u8] + le_bytes(value / 256, (width - 1) as nat)
    }
}

/// The `u64` in `bytes`, least significant byte first.
pub open spec fn le_u64(bytes: Seq<u8>) -> u64 {
    le_value(bytes) as u64
}

/// The `u16` in `bytes`, least significant byte first.
pub open spec fn le_u16(bytes: Seq<u8>) -> u16 {
    le_value(bytes) as u16
}

/// The `u32` in `bytes`, least significant byte first.
pub open spec fn le_u32(bytes: Seq<u8>) -> u32 {
    le_value(bytes) as u32
}

/// `byteorder::LittleEndian::read_u16`: the number in the first two bytes, least significant
/// first. The function panics on fewer bytes.
#[verifier::external_body]
pub(crate) fn read_u16(bytes: &[u8]) -> (value: u16)
    requires
        bytes@.len() >= 2,
    ensures
        value as nat == le_value(bytes@.take(2)),
{
    byteorder::LittleEndian::read_u16(bytes)
}

/// `byteorder::LittleEndian::read_u32`: the number in the first four bytes, least significant
/// first. The function panics on fewer bytes.
#[verifier::external_body]
pub(crate) fn read_u32(bytes: &[u8]) -> (value: u32)
    requires
        bytes@.len() >= 4,
    ensures
        value as nat == le_value(bytes@.take(4)),
{
    byteorder::LittleEndian::read_u32(bytes)
}

/// `byteorder::LittleEndian::read_u64`: the number in the first eight bytes, least significant
/// first. The function panics on fewer bytes.
#[verifier::external_body]
pub(crate) fn read_u64(bytes: &[u8]) -> (value: u64)
    requires
        bytes@.len() >= 8,
    ensures
        value as nat == le_value(bytes@.take(8)),
{
    byteorder::LittleEndian::read_u64(bytes)
}

/// What `core::str::from_utf8` says is wrong with bytes that are not UTF-8.
pub uninterp spec fn utf8_error(bytes: Seq<u8>) -> core::str::Utf8Error;

/// `core::str::from_utf8`: the text that the bytes encode in UTF-8, and an error exactly if they
/// encode none. The error depends on the bytes alone; nothing is said of what it holds.
pub assume_specification[ core::str::from_utf8 ](v: &[u8]) -> (text: Result<
    &str,
    core::str::Utf8Error,
>)
    ensures
        text is Ok <==> valid_utf8(v@),
        text matches Ok(s) ==> s@ == decode_utf8(v@),
        text matches Err(err) ==> err == utf8_error(v@),
;

/// The number that starts at `from`.
pub(crate) fn u64_at(bytes: &[u8], from: usize) -> (value: u64)
    requires
        from + 8 <= bytes.len(),
    ensures
        value == le_u64(bytes@.subrange(from as int, from + 8)),
{
    let field = &bytes[from..from + 8];
    assert(field@.take(8) =~= field@);
    read_u64(field)
}

/// The number that starts at `from`.
pub(crate) fn u32_at(bytes: &[u8], from: usize) -> (value: u32)
    requires
        from + 4 <= bytes.len(),
    ensures
        value == le_u32(bytes@.subrange(from as int, from + 4)),
{
    let field = &bytes[from..from + 4];
    assert(field@.take(4) =~= field@);
    read_u32(field)
}

/// As many bytes as were asked for.
pub broadcast proof fn lemma_le_bytes_len(value: nat, width: nat)
    ensures
        #[trigger] le_bytes(value, width).len() == width,
    decreases width,
{
    if width > 0 {
        lemma_le_bytes_len(value / 256, (width - 1) as nat);
    }
}

/// A number that fits into `width` bytes is read back from the bytes that were written for it.
pub proof fn law_le_round_trip(value: nat, width: nat)
    requires
        value < vstd::arithmetic::power::pow(256, width),
    ensures
        le_value(le_bytes(value, width)) == value,
    decreases width,
{
    reveal(vstd::arithmetic::power::pow);
    if width > 0 {
        let rest = (width - 1) as nat;
        let bytes = le_bytes(value, width);
        assert(value / 256 < vstd::arithmetic::power::pow(256, rest)) by (nonlinear_arith)
            requires
                value < 256 * vstd::arithmetic::power::pow(256, rest),
        ;
        law_le_round_trip(value / 256, rest);
        assert(bytes.skip(1) =~= le_bytes(value / 256, rest));
    }
}

/// A number in `n` bytes is less than the number of things that `n` bytes can say.
pub proof fn lemma_le_bound(bytes: Seq<u8>)
    ensures
        le_value(bytes) < vstd::arithmetic::power::pow(256, bytes.len()),
    decreases bytes.len(),
{
    reveal(vstd::arithmetic::power::pow);
    if bytes.len() > 0 {
        lemma_le_bound(bytes.skip(1));
    }
}

/// Bytes are what is written for the number that is read from them.
pub proof fn law_le_digits(bytes: Seq<u8>)
    ensures
        le_bytes(le_value(bytes), bytes.len()) == bytes,
    decreases bytes.len(),
{
    if bytes.len() > 0 {
        let rest = bytes.skip(1);
        let value = le_value(bytes);
        law_le_digits(rest);
        assert(value % 256 == bytes[0] as nat && value / 256 == le_value(rest));
        assert(le_bytes(value, bytes.len()) =~= seq![bytes[0]] + rest);
        assert(bytes =~= seq![bytes[0]] + rest);
    }
}

/// Each byte counts 256 times as much as the byte before it.
pub proof fn law_le_places(bytes: Seq<u8>, last: u8)
    ensures
        le_value(bytes.push(last)) == le_value(bytes) + last * vstd::arithmetic::power::pow(
            256,
            bytes.len(),
        ),
    decreases bytes.len(),
{
    reveal(vstd::arithmetic::power::pow);
    let all = bytes.push(last);
    if bytes.len() == 0 {
        assert(all.skip(1) =~= seq![]);
        assert(le_value(all.skip(1)) == 0);
        assert(last * vstd::arithmetic::power::pow(256, 0) == last) by (nonlinear_arith)
            requires
                vstd::arithmetic::power::pow(256, 0) == 1,
        ;
    } else {
        let rest = bytes.skip(1);
        assert(all.skip(1) =~= rest.push(last));
        law_le_places(rest, last);
        let place = vstd::arithmetic::power::pow(256, rest.len());
        let next = vstd::arithmetic::power::pow(256, bytes.len());
        assert(next == 256 * place);
        assert(256 * (last * place) == last * next) by (nonlinear_arith)
            requires
                next == 256 * place,
        ;
    }
}

} // verus!
