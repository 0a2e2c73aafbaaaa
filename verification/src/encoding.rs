//! The mathematical model of the byte layout.
//!
//! Everything the codec writes or reads is described here as a function on
//! sequences: how a primitive turns into little-endian bytes (delegated to
//! `vstd::bytes`), how a write splices into a buffer, how a run of 16-bit
//! units lies in memory, how UTF-16 text decodes, and how alignment rounds
//! a cursor up.  The executable code in [`crate::serializer`] is specified
//! entirely in this vocabulary.

use vstd::arithmetic::div_mod::lemma_fundamental_div_mod;
use vstd::bytes::lemma_auto_spec_u16_to_from_le_bytes;
use vstd::bytes::lemma_auto_spec_u32_to_from_le_bytes;
use vstd::bytes::lemma_auto_spec_u64_to_from_le_bytes;
use vstd::bytes::spec_u16_from_le_bytes;
use vstd::bytes::spec_u16_to_le_bytes;
use vstd::bytes::spec_u32_from_le_bytes;
use vstd::bytes::spec_u32_to_le_bytes;
use vstd::bytes::spec_u64_from_le_bytes;
use vstd::bytes::spec_u64_to_le_bytes;
use vstd::prelude::*;
use vstd::utf8::is_scalar;

verus! {

/// The buffer `buf` with `bytes` written over the range starting at `pos`;
/// everything outside that range is untouched.
pub open spec fn splice(buf: Seq<u8>, pos: int, bytes: Seq<u8>) -> Seq<u8>
    recommends
        0 <= pos,
        pos + bytes.len() <= buf.len(),
{
    buf.subrange(0, pos) + bytes + buf.subrange(pos + bytes.len(), buf.len() as int)
}

/// Writing preserves the length, places the bytes at `pos`, and leaves
/// every other position unchanged.
pub proof fn lemma_splice(buf: Seq<u8>, pos: int, bytes: Seq<u8>)
    requires
        0 <= pos,
        pos + bytes.len() <= buf.len(),
    ensures
        splice(buf, pos, bytes).len() == buf.len(),
        splice(buf, pos, bytes).subrange(pos, pos + bytes.len()) == bytes,
        forall|i: int|
            0 <= i < buf.len() && !(pos <= i < pos + bytes.len()) ==> splice(buf, pos, bytes)[i]
                == buf[i],
{
    assert(splice(buf, pos, bytes).subrange(pos, pos + bytes.len()) =~= bytes);
}

/// The 16-bit little-endian unit stored at byte offset `pos`.
pub open spec fn u16_at(data: Seq<u8>, pos: int) -> u16
    recommends
        0 <= pos,
        pos + 2 <= data.len(),
{
    spec_u16_from_le_bytes(data.subrange(pos, pos + 2))
}

/// The run of `n` consecutive 16-bit little-endian units starting at byte
/// offset `pos`.
pub open spec fn u16le_seq_at(data: Seq<u8>, pos: int, n: nat) -> Seq<u16> {
    Seq::new(n, |i: int| u16_at(data, pos + 2 * i))
}

/// A run of 16-bit units laid out as consecutive little-endian byte pairs.
pub open spec fn units_le_bytes(units: Seq<u16>) -> Seq<u8> {
    Seq::new(2 * units.len(), |i: int| spec_u16_to_le_bytes(units[i / 2])[i % 2])
}

/// Round-trip for one byte: reading back the byte written for `v` gives `v`.
pub proof fn lemma_u8_le_round_trip(buf: Seq<u8>, pos: int, v: u8)
    requires
        0 <= pos,
        pos + 1 <= buf.len(),
    ensures
        splice(buf, pos, seq![v])[pos] == v,
{
}

/// Round-trip for 16-bit values: decoding the little-endian encoding of `v`,
/// wherever it was written into a buffer, gives back `v`.
pub proof fn lemma_u16_le_round_trip(buf: Seq<u8>, pos: int, v: u16)
    requires
        0 <= pos,
        pos + 2 <= buf.len(),
    ensures
        spec_u16_to_le_bytes(v).len() == 2,
        spec_u16_from_le_bytes(spec_u16_to_le_bytes(v)) == v,
        spec_u16_from_le_bytes(splice(buf, pos, spec_u16_to_le_bytes(v)).subrange(pos, pos + 2))
            == v,
{
    lemma_auto_spec_u16_to_from_le_bytes();
    lemma_splice(buf, pos, spec_u16_to_le_bytes(v));
}

/// Round-trip for 32-bit values: decoding the little-endian encoding of `v`,
/// wherever it was written into a buffer, gives back `v`.
pub proof fn lemma_u32_le_round_trip(buf: Seq<u8>, pos: int, v: u32)
    requires
        0 <= pos,
        pos + 4 <= buf.len(),
    ensures
        spec_u32_to_le_bytes(v).len() == 4,
        spec_u32_from_le_bytes(spec_u32_to_le_bytes(v)) == v,
        spec_u32_from_le_bytes(splice(buf, pos, spec_u32_to_le_bytes(v)).subrange(pos, pos + 4))
            == v,
{
    lemma_auto_spec_u32_to_from_le_bytes();
    lemma_splice(buf, pos, spec_u32_to_le_bytes(v));
}

/// Round-trip for 64-bit values: decoding the little-endian encoding of `v`,
/// wherever it was written into a buffer, gives back `v`.
pub proof fn lemma_u64_le_round_trip(buf: Seq<u8>, pos: int, v: u64)
    requires
        0 <= pos,
        pos + 8 <= buf.len(),
    ensures
        spec_u64_to_le_bytes(v).len() == 8,
        spec_u64_from_le_bytes(spec_u64_to_le_bytes(v)) == v,
        spec_u64_from_le_bytes(splice(buf, pos, spec_u64_to_le_bytes(v)).subrange(pos, pos + 8))
            == v,
{
    lemma_auto_spec_u64_to_from_le_bytes();
    lemma_splice(buf, pos, spec_u64_to_le_bytes(v));
}

/// Reading a run of 16-bit units from the bytes that lay such a run out
/// gives back the run.
pub proof fn lemma_units_round_trip(data: Seq<u8>, pos: int, units: Seq<u16>)
    requires
        0 <= pos,
        pos + 2 * units.len() <= data.len(),
        data.subrange(pos, pos + 2 * units.len()) == units_le_bytes(units),
    ensures
        u16le_seq_at(data, pos, units.len()) == units,
{
    lemma_auto_spec_u16_to_from_le_bytes();
    assert forall|i: int| 0 <= i < units.len() implies u16le_seq_at(data, pos, units.len())[i]
        == units[i] by {
        let bytes = units_le_bytes(units);
        assert(data.subrange(pos + 2 * i, pos + 2 * i + 2) =~= spec_u16_to_le_bytes(units[i])) by {
            assert(spec_u16_to_le_bytes(units[i]).len() == 2);
            assert forall|j: int| 0 <= j < 2 implies data.subrange(pos + 2 * i, pos + 2 * i + 2)[j]
                == spec_u16_to_le_bytes(units[i])[j] by {
                assert(data.subrange(pos + 2 * i, pos + 2 * i + 2)[j] == data[pos + 2 * i + j]);
                assert(data[pos + 2 * i + j] == data.subrange(pos, pos + 2 * units.len())[2 * i
                    + j]);
                assert(bytes[2 * i + j] == spec_u16_to_le_bytes(units[(2 * i + j) / 2])[(2 * i + j)
                    % 2]);
                assert((2 * i + j) / 2 == i && (2 * i + j) % 2 == j) by (nonlinear_arith)
                    requires
                        0 <= i,
                        0 <= j < 2,
                ;
            }
        }
    }
    assert(u16le_seq_at(data, pos, units.len()) =~= units);
}

/// The byte length of a run of `n` 16-bit units, as the machine's
/// `usize` arithmetic produces it: `2 * n`, wrapped above `usize::MAX`
/// (a run a real machine can hold never reaches the wrap).
pub open spec fn unit_run_byte_len(n: nat) -> usize {
    ((2 * n) % (usize::MAX as nat + 1)) as usize
}

/// A run of `n` zero bytes, as written by the zero-padding operations.
pub open spec fn zero_bytes(n: nat) -> Seq<u8> {
    Seq::new(n, |i: int| 0u8)
}

/// The cursor value `pos` rounded up to the next multiple of `align`.
pub open spec fn align_up(pos: int, align: int) -> int
    recommends
        0 <= pos,
        0 < align,
{
    if pos % align == 0 {
        pos
    } else {
        pos + align - pos % align
    }
}

/// Alignment rounds up by less than one full step and always lands on a
/// multiple of `align`.
pub proof fn lemma_align_up(pos: int, align: int)
    requires
        0 <= pos,
        0 < align,
    ensures
        pos <= align_up(pos, align) < pos + align,
        align_up(pos, align) % align == 0,
{
    lemma_fundamental_div_mod(pos, align);
    if pos % align != 0 {
        let q = pos / align;
        assert(align_up(pos, align) == align * (q + 1)) by (nonlinear_arith)
            requires
                pos == align * q + pos % align,
                align_up(pos, align) == pos + align - pos % align,
        ;
        assert(align * (q + 1) % align == 0) by (nonlinear_arith)
            requires
                0 < align,
        ;
    }
}

/// A high surrogate: the first unit of a two-unit UTF-16 encoding.
pub open spec fn is_high_surrogate(u: u16) -> bool {
    0xD800 <= u <= 0xDBFF
}

/// A low surrogate: the second unit of a two-unit UTF-16 encoding.
pub open spec fn is_low_surrogate(u: u16) -> bool {
    0xDC00 <= u <= 0xDFFF
}

/// A unit in the surrogate range; such a unit never stands for a character
/// by itself.
pub open spec fn is_surrogate(u: u16) -> bool {
    is_high_surrogate(u) || is_low_surrogate(u)
}

/// The character a single non-surrogate unit stands for.
pub open spec fn bmp_char(u: u16) -> char
    recommends
        !is_surrogate(u),
{
    (u as u32) as char
}

/// The scalar value a surrogate pair stands for.
pub open spec fn pair_code(hi: u16, lo: u16) -> u32
    recommends
        is_high_surrogate(hi),
        is_low_surrogate(lo),
{
    (0x10000 + (hi - 0xD800) * 0x400 + (lo - 0xDC00)) as u32
}

/// The character a surrogate pair stands for.
pub open spec fn pair_char(hi: u16, lo: u16) -> char
    recommends
        is_high_surrogate(hi),
        is_low_surrogate(lo),
{
    pair_code(hi, lo) as char
}

/// UTF-16 decoding of a run of units: a non-surrogate unit stands for
/// itself, a high surrogate followed by a low surrogate combines into one
/// character, and anything else (a lone or misordered surrogate) is
/// invalid.
pub open spec fn utf16_decode(units: Seq<u16>) -> Option<Seq<char>>
    decreases units.len(),
{
    if units.len() == 0 {
        Some(Seq::<char>::empty())
    } else if !is_surrogate(units[0]) {
        match utf16_decode(units.skip(1)) {
            Some(rest) => Some(seq![bmp_char(units[0])] + rest),
            None => None,
        }
    } else if is_high_surrogate(units[0]) && units.len() >= 2 && is_low_surrogate(units[1]) {
        match utf16_decode(units.skip(2)) {
            Some(rest) => Some(seq![pair_char(units[0], units[1])] + rest),
            None => None,
        }
    } else {
        None
    }
}

/// The single 16-bit unit a character is widened to when it is stored;
/// characters above the 16-bit range are truncated, a documented
/// limitation of this codec.
pub open spec fn unit_of(c: char) -> u16 {
    (c as u32) as u16
}

/// The unit run a text is widened to when it is stored.
pub open spec fn units_of(text: Seq<char>) -> Seq<u16> {
    text.map_values(|c: char| unit_of(c))
}

/// A character whose scalar value fits in one 16-bit unit, so that
/// widening does not lose it.
pub open spec fn single_unit_char(c: char) -> bool {
    c as u32 <= 0xFFFF
}

/// Text made entirely of characters that fit in one 16-bit unit each.
pub open spec fn single_unit_text(text: Seq<char>) -> bool {
    forall|i: int| 0 <= i < text.len() ==> single_unit_char(#[trigger] text[i])
}

/// String round-trip: decoding the unit run that a text widens to gives
/// back exactly that text, whenever every character fits in a single
/// unit.  (Characters are Unicode scalars, so none of these units can be
/// a surrogate.)
pub proof fn lemma_utf16_decode_units_of(text: Seq<char>)
    requires
        single_unit_text(text),
    ensures
        utf16_decode(units_of(text)) == Some(text),
    decreases text.len(),
{
    let units = units_of(text);
    if text.len() == 0 {
        assert(units =~= Seq::<u16>::empty());
        assert(utf16_decode(units) == Some(Seq::<char>::empty()));
        assert(text =~= Seq::<char>::empty());
    } else {
        let c = text[0];
        let u = units[0];
        vstd::utf8::char_is_scalar(c);
        assert(is_scalar(c as u32));
        assert(c as u32 <= 0xFFFF);
        assert(u == c as u32) by {
            assert(unit_of(c) == (c as u32) as u16);
        }
        assert(!is_surrogate(u));
        vstd::utf8::char_u32_cast(c, c as u32);
        assert(bmp_char(u) == c);
        assert(units.skip(1) =~= units_of(text.skip(1)));
        assert(single_unit_text(text.skip(1)));
        lemma_utf16_decode_units_of(text.skip(1));
        assert(utf16_decode(units) == Some(seq![c] + text.skip(1)));
        assert(seq![c] + text.skip(1) =~= text);
    }
}

/// String round-trip through a buffer: writing the zero-terminated unit
/// run of a text (every character a single non-zero unit) and then
/// scanning from the same position finds the terminator exactly at the
/// text's length, and the units before it decode back to the text.
pub proof fn lemma_utf16_sz_round_trip(buf: Seq<u8>, pos: int, text: Seq<char>)
    requires
        single_unit_text(text),
        forall|i: int| 0 <= i < text.len() ==> (#[trigger] text[i]) as u32 != 0,
        0 <= pos,
        pos + 2 * (text.len() + 1) <= buf.len(),
    ensures
        ({
            let written = splice(buf, pos, units_le_bytes(units_of(text).push(0u16)));
            &&& zero_unit_at(written, pos, text.len() as int)
            &&& utf16_decode(u16le_seq_at(written, pos, text.len())) == Some(text)
        }),
{
    let units = units_of(text).push(0u16);
    let bytes = units_le_bytes(units);
    let written = splice(buf, pos, bytes);
    lemma_splice(buf, pos, bytes);
    lemma_units_round_trip(written, pos, units);
    assert(u16le_seq_at(written, pos, units.len()) == units);
    let k = text.len() as int;
    assert(u16_at(written, pos + 2 * k) == units[k]);
    assert(units[k] == 0);
    assert forall|i: int| 0 <= i < k implies #[trigger] u16_at(written, pos + 2 * i) != 0 by {
        assert(u16_at(written, pos + 2 * i) == units[i]);
        assert(units[i] == unit_of(text[i]));
        assert(text[i] as u32 <= 0xFFFF && text[i] as u32 != 0);
        assert(unit_of(text[i]) != 0);
    }
    assert(zero_unit_at(written, pos, k));
    assert(u16le_seq_at(written, pos, text.len()) =~= units_of(text)) by {
        assert forall|i: int| 0 <= i < k implies u16le_seq_at(written, pos, text.len())[i]
            == units_of(text)[i] by {
            assert(u16le_seq_at(written, pos, text.len())[i] == u16_at(written, pos + 2 * i));
            assert(u16_at(written, pos + 2 * i) == units[i]);
        }
    }
    lemma_utf16_decode_units_of(text);
}

/// There is a zero unit exactly `k` unit positions after byte offset
/// `pos`, with no zero unit before it: the terminator of a stored string.
pub open spec fn zero_unit_at(data: Seq<u8>, pos: int, k: int) -> bool {
    &&& 0 <= k
    &&& pos + 2 * k + 2 <= data.len()
    &&& u16_at(data, pos + 2 * k) == 0
    &&& forall|i: int| 0 <= i < k ==> #[trigger] u16_at(data, pos + 2 * i) != 0
}

/// Some terminator is reachable from byte offset `pos`.
pub open spec fn has_zero_unit(data: Seq<u8>, pos: int) -> bool {
    exists|k: int| zero_unit_at(data, pos, k)
}

/// The position of the terminator is unique: scanning for the first zero
/// unit is deterministic.
pub proof fn lemma_zero_unit_at_unique(data: Seq<u8>, pos: int, k1: int, k2: int)
    requires
        zero_unit_at(data, pos, k1),
        zero_unit_at(data, pos, k2),
    ensures
        k1 == k2,
{
    if k1 < k2 {
        assert(u16_at(data, pos + 2 * k1) != 0);
    }
    if k2 < k1 {
        assert(u16_at(data, pos + 2 * k2) != 0);
    }
}

} // verus!
